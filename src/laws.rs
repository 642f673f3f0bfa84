//! Properties of the engine that hold across calls, stated over the models that the
//! functions' contracts use.
use vstd::prelude::*;

use crate::default_value::eval_default;
use crate::definition::SchematicDefinition;
use crate::graph::{canonical, edge_matches, nodes_match, resolve, PortDirection, Schematic};
use crate::packet::{PacketModel, PayloadModel};
use crate::port::{status_rank, PortModel, PortStatus};
use crate::seed::{child_seed_spec, tx_id_spec};
use crate::transaction::{
    deliver, done_model, done_step, fresh_port, lemma_feeding_edge, next_actions, route_acts, next_emitted, next_state, ranks_grow, route,
    Action, ActionModel, EventModel, TxModel,
};

verus! {

/// A port's status never goes back: offering or taking a packet keeps or advances it
/// along `Open → Closing → DoneOpen → DoneClosed`.
pub proof fn lemma_port_status_monotone(m: PortModel, p: PacketModel)
    ensures
        status_rank(m.status) <= status_rank(m.push(p).status),
        status_rank(m.status) <= status_rank(m.take().status),
{
}

/// Over a run of transaction states in which each step follows from the one before (as
/// every event handler ensures), no port's status ever goes back.
pub proof fn lemma_run_statuses_monotone(states: Seq<TxModel>, i: int, j: int)
    requires
        forall|k: int| 0 <= k < states.len() - 1 ==> (#[trigger] states[k]).grows_to(states[k + 1]),
        0 <= i <= j < states.len(),
    ensures
        ranks_grow(states[i].ins, states[j].ins),
        ranks_grow(states[i].outs, states[j].outs),
    decreases j - i,
{
    if i < j {
        lemma_run_statuses_monotone(states, i, j - 1);
        let a = states[i];
        let b = states[j - 1];
        let c = states[j];
        assert(b.grows_to(c));
        assert forall|x: int| 0 <= x < a.ins.len() implies status_rank(#[trigger] a.ins[x].status) <= status_rank(
            c.ins[x].status,
        ) by {
            assert(status_rank(b.ins[x].status) <= status_rank(c.ins[x].status));
        }
        assert forall|x: int| 0 <= x < a.outs.len() implies status_rank(#[trigger] a.outs[x].status) <= status_rank(
            c.outs[x].status,
        ) by {
            assert(status_rank(b.outs[x].status) <= status_rank(c.outs[x].status));
        }
    }
}

/// The packets that `n` successive takes return from a port, in order.
pub open spec fn takes(m: PortModel, n: nat) -> Seq<PacketModel>
    decreases n,
{
    if n == 0 || m.queue.len() == 0 {
        Seq::empty()
    } else {
        seq![m.queue[0]] + takes(m.take(), (n - 1) as nat)
    }
}

/// Taking as many packets as a port holds returns its queue, front first.
pub proof fn lemma_takes_queue(m: PortModel)
    ensures
        takes(m, m.queue.len()) == m.queue,
    decreases m.queue.len(),
{
    if m.queue.len() > 0 {
        lemma_takes_queue(m.take());
        assert(seq![m.queue[0]] + m.queue.drop_first() =~= m.queue);
    } else {
        assert(m.queue =~= Seq::<PacketModel>::empty());
    }
}

/// A port is first-in first-out: when `x` and then `y` are offered to a port that is not
/// closed, taking everything it holds returns what it held before, then `x`, then `y`.
pub proof fn lemma_port_fifo(m: PortModel, x: PacketModel, y: PacketModel)
    requires
        m.status != PortStatus::DoneClosed,
        !x.is_done(),
        !y.is_done(),
    ensures
        ({
            let q = m.push(x).push(y);
            takes(q, q.queue.len()) == m.queue + seq![x, y]
        }),
{
    let q = m.push(x).push(y);
    lemma_takes_queue(q);
    assert(q.queue =~= m.queue + seq![x, y]);
}

/// How many steps of a run asked for the done event.
pub open spec fn done_requests(acts: Seq<Seq<Action>>) -> nat
    decreases acts.len(),
{
    if acts.len() == 0 {
        0
    } else {
        done_requests(acts.drop_last()) + (if exists|k: int| 0 <= k < acts.last().len() && #[trigger] acts.last()[k] is EmitDone {
            1nat
        } else {
            0nat
        })
    }
}

/// Whether step `k` of a run finished the transaction by completing its output, rather
/// than by the done event closing it.
pub open spec fn finishes_at(states: Seq<TxModel>, k: int) -> bool {
    !states[k].finished && states[k + 1].finished && !states[k + 1].closed
}

proof fn lemma_finished_stays(states: Seq<TxModel>, i: int, j: int)
    requires
        forall|k: int| 0 <= k < states.len() - 1 ==> (#[trigger] states[k]).grows_to(states[k + 1]),
        0 <= i <= j < states.len(),
        states[i].finished,
    ensures
        states[j].finished,
    decreases j - i,
{
    if i < j {
        lemma_finished_stays(states, i, j - 1);
        assert(states[j - 1].grows_to(states[j]));
    }
}

/// Over any run, the done event is asked for at most once: exactly once if some step
/// finished the transaction by completing its output, and never otherwise.
pub proof fn lemma_done_once(states: Seq<TxModel>, acts: Seq<Seq<Action>>)
    requires
        states.len() == acts.len() + 1,
        forall|k: int| 0 <= k < acts.len() ==> done_step(#[trigger] acts[k], states[k], states[k + 1]),
        forall|k: int| 0 <= k < acts.len() ==> (#[trigger] states[k]).grows_to(states[k + 1]),
    ensures
        done_requests(acts) == (if exists|k: int| 0 <= k < acts.len() && finishes_at(states, k) { 1nat } else { 0nat }),
    decreases acts.len(),
{
    if acts.len() > 0 {
        let n = acts.len() - 1;
        let s2 = states.drop_last();
        let a2 = acts.drop_last();
        assert forall|k: int| 0 <= k < a2.len() implies done_step(#[trigger] a2[k], s2[k], s2[k + 1]) by {
            assert(done_step(acts[k], states[k], states[k + 1]));
        }
        assert forall|k: int| 0 <= k < a2.len() implies (#[trigger] s2[k]).grows_to(s2[k + 1]) by {
            assert(states[k].grows_to(states[k + 1]));
        }
        lemma_done_once(s2, a2);
        assert(done_step(acts[n], states[n], states[n + 1]));
        assert(acts.last() == acts[n]);
        assert forall|k: int| 0 <= k < a2.len() implies finishes_at(s2, k) == finishes_at(states, k) by {}
        if exists|k: int| 0 <= k < a2.len() && finishes_at(states, k) {
            let k = choose|k: int| 0 <= k < a2.len() && finishes_at(states, k);
            assert(finishes_at(s2, k));
            assert forall|x: int| 0 <= x < states.len() - 1 implies (#[trigger] states[x]).grows_to(states[x + 1]) by {
                assert(states[x].grows_to(states[x + 1]));
            }
            lemma_finished_stays(states, k + 1, n);
            assert(!finishes_at(states, n));
            assert(!exists|j: int| 0 <= j < acts[n].len() && #[trigger] acts[n][j] is EmitDone);
            assert(done_requests(acts) == done_requests(a2));
            assert(exists|j: int| 0 <= j < acts.len() && finishes_at(states, j));
        } else {
            assert(!exists|j: int| 0 <= j < a2.len() && finishes_at(s2, j));
            assert(done_requests(a2) == 0);
            if finishes_at(states, n) {
                assert(exists|j: int| 0 <= j < acts[n].len() && #[trigger] acts[n][j] is EmitDone);
                assert(done_requests(acts) == 1);
                assert(exists|j: int| 0 <= j < acts.len() && finishes_at(states, j));
            } else {
                assert(!exists|j: int| 0 <= j < acts[n].len() && #[trigger] acts[n][j] is EmitDone);
                assert(done_requests(acts) == 0);
                assert forall|j: int| 0 <= j < acts.len() implies !finishes_at(states, j) by {
                    if j < n {
                        assert(!finishes_at(s2, j));
                    }
                }
            }
        }
    }
}

/// What an edge delivers: without a default, or for a packet that is not an error, the
/// same payload; with default `d`, for an error with message `m`, the value of `d` at `m`.
/// Either way under the downstream port's name.
pub proof fn lemma_edge_payload(g: Schematic, e: int, p: PacketModel)
    requires
        g.wf(),
        0 <= e < g.edges.len(),
    ensures
        deliver(g, e, p).port == g.in_ports@[g.edges@[e].to as int].name@,
        (g.edges@[e].default is None || !p.is_error()) ==> deliver(g, e, p).payload == p.payload,
        (g.edges@[e].default is Some && p.payload is Error) ==> deliver(g, e, p).payload == PayloadModel::Json(
            eval_default(g.edges@[e].default->Some_0@, p.payload->Error_0),
        ),
{
}

/// When output port `from` hands on `p`, the downstream port of every edge leaving it
/// receives what that edge delivers, after what it already held, unless it had closed.
pub proof fn lemma_edge_observes(g: Schematic, ins: Seq<PortModel>, e: int, from: usize, p: PacketModel)
    requires
        g.wf(),
        ins.len() == g.in_ports.len(),
        0 <= e < g.edges.len(),
        g.edges@[e].from == Some(from),
        ins[g.edges@[e].to as int].status != PortStatus::DoneClosed,
        !p.is_done(),
    ensures
        route(g, ins, from, p)[g.edges@[e].to as int].queue == ins[g.edges@[e].to as int].queue.push(
            deliver(g, e, p),
        ),
{
    lemma_feeding_edge(g, e);
}

/// A transaction's id and the seeds of its operations depend on its seed alone: two
/// transactions started with the same seed have the same id and hand each node the same
/// seed.
pub proof fn lemma_seeded_identity(a: TxModel, b: TxModel, node: u64)
    requires
        a.id == tx_id_spec(a.seed),
        b.id == tx_id_spec(b.seed),
        a.seed == b.seed,
    ensures
        a.id == b.id,
        child_seed_spec(a.seed, node) == child_seed_spec(b.seed, node),
{
}


/// Building a schematic from a definition, emitting its canonical definition, and building
/// again keeps the node indexing: when the second build succeeds, every node has the same
/// index, name, namespace and operation as before, and there are as many edges.
pub proof fn lemma_reload_keeps_indexing(
    def: &SchematicDefinition,
    g: &Schematic,
    canon: &SchematicDefinition,
    g2: &Schematic,
)
    requires
        nodes_match(g, def),
        g.edges.len() == def.connections.len(),
        canonical(g, canon),
        nodes_match(g2, canon),
        g2.edges.len() == canon.connections.len(),
    ensures
        g2.nodes.len() == g.nodes.len(),
        forall|v: int| 0 <= v < g.nodes.len() ==> #[trigger] g2.nodes@[v].name@ == g.nodes@[v].name@,
        forall|v: int| 0 < v < g.nodes.len() - 1 ==> #[trigger] g2.nodes@[v].namespace@ == g.nodes@[v].namespace@
            && g2.nodes@[v].operation@ == g.nodes@[v].operation@,
        g2.edges.len() == g.edges.len(),
{
    assert forall|v: int| 0 <= v < g.nodes.len() implies #[trigger] g2.nodes@[v].name@ == g.nodes@[v].name@ by {
        if 0 < v < g.nodes.len() - 1 {
            assert(canon.instances@[v - 1].0@ == g.nodes@[v].name@);
            assert(g2.nodes@[(v - 1) + 1].name@ == canon.instances@[v - 1].0@);
        }
    }
    assert forall|v: int| 0 < v < g.nodes.len() - 1 implies #[trigger] g2.nodes@[v].namespace@ == g.nodes@[v].namespace@
        && g2.nodes@[v].operation@ == g.nodes@[v].operation@ by {
        assert(canon.instances@[v - 1].0@ == g.nodes@[v].name@);
        assert(g2.nodes@[(v - 1) + 1].name@ == canon.instances@[v - 1].0@);
    }
}


proof fn lemma_runs_agree_upto(
    a: Seq<TxModel>,
    b: Seq<TxModel>,
    evs: Seq<EventModel>,
    i: int,
)
    requires
        a.len() == evs.len() + 1,
        b.len() == evs.len() + 1,
        a[0] == b[0],
        forall|k: int| 0 <= k < evs.len() ==> #[trigger] a[k + 1] == next_state(a[k], evs[k]),
        forall|k: int| 0 <= k < evs.len() ==> #[trigger] b[k + 1] == next_state(b[k], evs[k]),
        0 <= i < a.len(),
    ensures
        a[i] == b[i],
    decreases i,
{
    if i > 0 {
        lemma_runs_agree_upto(a, b, evs, i - 1);
        assert(a[(i - 1) + 1] == next_state(a[i - 1], evs[i - 1]));
        assert(b[(i - 1) + 1] == next_state(b[i - 1], evs[i - 1]));
    }
}

/// Replaying the same events from the same state passes through the same states, asks for
/// the same actions (the same operations started with the same invocations, the same
/// packets handed on, the same data events) and sends the caller the same packets. Every
/// event handler's state, actions and output are exact functions of the state before and
/// the event (`next_state`, `next_actions`, `next_emitted`); a new transaction is in
/// `initial_state(schematic, seed, timestamp)` and starting it leads to `start_state` with
/// `boot_acts` and `feed_acts`. So a driver that picks each next event from the actions so
/// far, with deterministic components, sees the same run twice.
pub proof fn lemma_replay_deterministic(
    a: Seq<TxModel>,
    b: Seq<TxModel>,
    acts_a: Seq<Seq<ActionModel>>,
    acts_b: Seq<Seq<ActionModel>>,
    out_a: Seq<Seq<PacketModel>>,
    out_b: Seq<Seq<PacketModel>>,
    evs: Seq<EventModel>,
)
    requires
        a.len() == evs.len() + 1,
        b.len() == evs.len() + 1,
        acts_a.len() == evs.len(),
        acts_b.len() == evs.len(),
        out_a.len() == evs.len(),
        out_b.len() == evs.len(),
        a[0] == b[0],
        forall|k: int| 0 <= k < evs.len() ==> #[trigger] a[k + 1] == next_state(a[k], evs[k]),
        forall|k: int| 0 <= k < evs.len() ==> #[trigger] b[k + 1] == next_state(b[k], evs[k]),
        forall|k: int| 0 <= k < evs.len() ==> #[trigger] acts_a[k] == next_actions(a[k], evs[k]),
        forall|k: int| 0 <= k < evs.len() ==> #[trigger] acts_b[k] == next_actions(b[k], evs[k]),
        forall|k: int| 0 <= k < evs.len() ==> #[trigger] out_a[k] == next_emitted(a[k], evs[k]),
        forall|k: int| 0 <= k < evs.len() ==> #[trigger] out_b[k] == next_emitted(b[k], evs[k]),
    ensures
        a == b,
        acts_a == acts_b,
        out_a == out_b,
{
    assert forall|i: int| 0 <= i < a.len() implies a[i] == b[i] by {
        lemma_runs_agree_upto(a, b, evs, i);
    }
    assert(a =~= b);
    assert forall|k: int| 0 <= k < evs.len() implies out_a[k] == out_b[k] && acts_a[k] == acts_b[k] by {
        lemma_runs_agree_upto(a, b, evs, k);
        assert(out_a[k] == next_emitted(a[k], evs[k]));
        assert(out_b[k] == next_emitted(b[k], evs[k]));
        assert(acts_a[k] == next_actions(a[k], evs[k]));
        assert(acts_b[k] == next_actions(b[k], evs[k]));
    }
    assert(out_a =~= out_b);
    assert(acts_a =~= acts_b);
}

/// With an empty input stream, a schematic input hands downstream its terminator alone:
/// when the caller's stream closes, an input that held nothing becomes closed and empty, and
/// the data event for it offers every downstream port only the terminator, asking for a data
/// event (or reporting a drop) per edge.
pub proof fn lemma_empty_input(s: TxModel, id: usize)
    requires
        s.wf(),
        id < s.outs.len(),
        s.graph.out_ports@[id as int].node == 0,
        s.outs[id as int] == fresh_port(),
    ensures
        ({
            let g = s.graph;
            let s1 = next_state(s, EventModel::InputClosed);
            let done = done_model(g.out_ports@[id as int].name@);
            let data = EventModel::Data(PortDirection::Out, id);
            &&& s1.outs[id as int].status == PortStatus::DoneClosed
            &&& s1.outs[id as int].queue.len() == 0
            &&& s1.ins == s.ins
            &&& next_state(s1, data).ins == route(g, s.ins, id, done)
            &&& next_actions(s1, data) == route_acts(g, s.ins, id, done, g.edges.len() as int)
            &&& next_emitted(s1, data).len() == 0
        }),
{
    let g = s.graph;
    let s1 = next_state(s, EventModel::InputClosed);
    let m = s1.outs[id as int];
    assert(m == fresh_port().push(done_model(g.out_ports@[id as int].name@)));
    assert(m.take() == m);
    assert(route_acts(g, s.ins, id, done_model(g.out_ports@[id as int].name@), g.edges.len() as int)
        =~= Seq::<ActionModel>::empty() + route_acts(g, s.ins, id, done_model(g.out_ports@[id as int].name@), g.edges.len() as int));
}

/// The canonical definition of a schematic built from `def` names the same instances as
/// `def`, in the same order, with the same namespaces and operations. Only the component
/// ids may differ: the canonical one is always `namespace::name`.
pub proof fn lemma_canonical_instances(def: &SchematicDefinition, g: &Schematic, canon: &SchematicDefinition)
    requires
        nodes_match(g, def),
        canonical(g, canon),
    ensures
        canon.instances.len() == def.instances.len(),
        forall|k: int| 0 <= k < def.instances.len() ==> {
            &&& #[trigger] canon.instances@[k].0@ == def.instances@[k].0@
            &&& canon.instances@[k].1.namespace@ == def.instances@[k].1.namespace@
            &&& canon.instances@[k].1.name@ == def.instances@[k].1.name@
        },
{
    assert forall|k: int| 0 <= k < def.instances.len() implies {
        &&& #[trigger] canon.instances@[k].0@ == def.instances@[k].0@
        &&& canon.instances@[k].1.namespace@ == def.instances@[k].1.namespace@
        &&& canon.instances@[k].1.name@ == def.instances@[k].1.name@
    } by {
        assert(g.nodes@[k + 1].name@ == def.instances@[k].0@);
        assert(canon.instances@[k].0@ == g.nodes@[k + 1].name@);
    }
}

/// The canonical definition of a schematic built from `def` names the same connections as
/// `def`, in the same order, with the same defaults.
pub proof fn lemma_canonical_connections(def: &SchematicDefinition, g: &Schematic, canon: &SchematicDefinition)
    requires
        nodes_match(g, def),
        g.edges.len() == def.connections.len(),
        forall|e: int| 0 <= e < g.edges.len() ==> edge_matches(g, def, e),
        canonical(g, canon),
    ensures
        canon.connections.len() == def.connections.len(),
        forall|e: int| 0 <= e < def.connections.len() ==> {
            &&& (#[trigger] canon.connections@[e]).to.names() == def.connections@[e].to.names()
            &&& canon.connections@[e].from.names() == def.connections@[e].from.names()
            &&& (canon.connections@[e].default is Some <==> def.connections@[e].default is Some)
            &&& canon.connections@[e].default is Some ==> canon.connections@[e].default->Some_0@
                == def.connections@[e].default->Some_0@
        },
{
    assert forall|e: int| 0 <= e < def.connections.len() implies {
        &&& (#[trigger] canon.connections@[e]).to.names() == def.connections@[e].to.names()
        &&& canon.connections@[e].from.names() == def.connections@[e].from.names()
        &&& (canon.connections@[e].default is Some <==> def.connections@[e].default is Some)
        &&& canon.connections@[e].default is Some ==> canon.connections@[e].default->Some_0@
            == def.connections@[e].default->Some_0@
    } by {
        assert(edge_matches(g, def, e));
        let t = def.connections@[e].to.names();
        lemma_resolved_name(def, g, t->Some_0.0);
        let f = def.connections@[e].from.names();
        if f is Some {
            lemma_resolved_name(def, g, f->Some_0.0);
        }
    }
}

/// The first instance of `def` named `n` at or below `w`, given one at `w`.
proof fn least_instance(def: &SchematicDefinition, n: Seq<char>, w: int) -> (k: int)
    requires
        0 <= w < def.instances.len(),
        def.instances@[w].0@ == n,
    ensures
        0 <= k <= w,
        def.instances@[k].0@ == n,
        forall|j: int| 0 <= j < k ==> def.instances@[j].0@ != n,
    decreases w,
{
    if exists|j: int| 0 <= j < w && def.instances@[j].0@ == n {
        let j = choose|j: int| 0 <= j < w && def.instances@[j].0@ == n;
        least_instance(def, n, j)
    } else {
        w
    }
}

/// A name that resolves in `def` is the name of the node it resolves to.
proof fn lemma_resolved_name(def: &SchematicDefinition, g: &Schematic, n: Seq<char>)
    requires
        nodes_match(g, def),
    ensures
        resolve(def, n) is Some ==> g.nodes@[resolve(def, n)->Some_0].name@ == n,
{
    if resolve(def, n) is Some && n != "<input>"@ && n != "<output>"@ {
        let w = choose|k: int| 0 <= k < def.instances.len() && def.instances@[k].0@ == n;
        let _least = least_instance(def, n, w);
        let k = def.instance_position(n)->Some_0;
        assert(0 <= k < def.instances.len() && def.instances@[k].0@ == n);
        assert(g.nodes@[k + 1].name@ == def.instances@[k].0@);
    }
}

} // verus!
