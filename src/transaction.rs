//! The per-transaction execution engine, as a state machine: each dispatched event
//! updates the transaction's port buffers and yields the actions its driver performs.
use vstd::prelude::*;

use crate::default_value::eval_default;
use crate::graph::{PortDirection, Schematic};
use crate::packet::{Packet, PacketModel, Payload, PayloadModel};
use crate::port::{status_rank, PortBuffer, PortModel, PortStatus};
use crate::seed::{child_seed, child_seed_spec, tx_id, tx_id_spec};
use crate::statistics::{StatsModel, TransactionStatistics};
use crate::text::copy_string;

verus! {

/// What the engine hands a component when it starts an operation.
#[derive(Debug, Clone, PartialEq, Eq)]
pub struct Invocation {
    pub tx_id: u128,
    pub node: usize,
    pub namespace: String,
    pub operation: String,
    /// A seed derived from the transaction's seed and the node.
    pub seed: u64,
    /// The transaction's start time, in milliseconds.
    pub timestamp: u64,
}

/// An event on the interpreter channel.
#[derive(Debug)]
pub enum Event {
    /// A packet from the caller's stream, for the schematic input of the same name.
    Input(Packet),
    /// The caller's stream has ended: every schematic input still open gets its terminator.
    InputClosed,
    /// A packet that the operation of a node emitted on its output port of the same name.
    Output(usize, Packet),
    /// Packets are waiting on a port, given by direction and schematic-wide id.
    Data(PortDirection, usize),
    /// The operation of a node failed with the given message.
    OpError(usize, String),
    /// The transaction has finished: its response stream closes.
    Done,
}

/// What the driver of a transaction does after an event.
#[derive(Debug, Clone, PartialEq, Eq)]
pub enum Action {
    /// Dispatch a data event for the port.
    Dispatch(PortDirection, usize),
    /// Start the operation of a node.
    Start(Invocation),
    /// Hand a packet to the running operation of a node.
    Forward(usize, Packet),
    /// Send a packet on the caller's response stream.
    Emit(Packet),
    /// Dispatch the transaction's done event.
    EmitDone,
    /// A packet was dropped: its port is unknown or already closed.
    Dropped(Packet),
}

/// The mathematical value of an [`Invocation`].
pub struct InvocationModel {
    pub tx_id: u128,
    pub node: usize,
    pub namespace: Seq<char>,
    pub operation: Seq<char>,
    pub seed: u64,
    pub timestamp: u64,
}

impl View for Invocation {
    type V = InvocationModel;

    open spec fn view(&self) -> InvocationModel {
        InvocationModel {
            tx_id: self.tx_id,
            node: self.node,
            namespace: self.namespace@,
            operation: self.operation@,
            seed: self.seed,
            timestamp: self.timestamp,
        }
    }
}

/// The mathematical value of an [`Action`].
pub enum ActionModel {
    Dispatch(PortDirection, usize),
    Start(InvocationModel),
    Forward(usize, PacketModel),
    Emit(PacketModel),
    EmitDone,
    Dropped(PacketModel),
}

impl View for Action {
    type V = ActionModel;

    open spec fn view(&self) -> ActionModel {
        match self {
            Action::Dispatch(d, id) => ActionModel::Dispatch(*d, *id),
            Action::Start(inv) => ActionModel::Start(inv@),
            Action::Forward(v, p) => ActionModel::Forward(*v, p@),
            Action::Emit(p) => ActionModel::Emit(p@),
            Action::EmitDone => ActionModel::EmitDone,
            Action::Dropped(p) => ActionModel::Dropped(p@),
        }
    }
}

/// The models of a list of actions.
pub open spec fn acts(s: Seq<Action>) -> Seq<ActionModel> {
    s.map_values(|a: Action| a@)
}

/// Whether the transaction's output has completed, or it was found hung.
#[derive(Debug, Clone, Copy, PartialEq, Eq, Structural)]
pub enum TxState {
    OutputPending,
    OutputComplete,
    Hung,
}

/// A single execution of a schematic.
#[derive(Debug)]
pub struct Transaction {
    schematic: Schematic,
    id: u128,
    seed: u64,
    timestamp: u64,
    ins: Vec<PortBuffer>,
    outs: Vec<PortBuffer>,
    started: Vec<bool>,
    finished: bool,
    closed: bool,
    last_access: u64,
    stats: TransactionStatistics,
}

/// The mathematical value of a [`Transaction`].
pub struct TxModel {
    pub graph: Schematic,
    pub id: u128,
    pub seed: u64,
    pub timestamp: u64,
    pub ins: Seq<PortModel>,
    pub outs: Seq<PortModel>,
    pub started: Seq<bool>,
    pub finished: bool,
    pub closed: bool,
    pub last_access: u64,
    pub stats: StatsModel,
}

impl View for Transaction {
    type V = TxModel;

    closed spec fn view(&self) -> TxModel {
        TxModel {
            graph: self.schematic,
            id: self.id,
            seed: self.seed,
            timestamp: self.timestamp,
            ins: self.ins@.map_values(|b: PortBuffer| b@),
            outs: self.outs@.map_values(|b: PortBuffer| b@),
            started: self.started@,
            finished: self.finished,
            closed: self.closed,
            last_access: self.last_access,
            stats: self.stats@,
        }
    }
}

/// The edge that feeds input port `id`, if any; there is at most one.
pub open spec fn feeding_edge(g: Schematic, id: int) -> Option<int> {
    if exists|e: int| 0 <= e < g.edges.len() && g.edges@[e].to == id {
        Some(choose|e: int| 0 <= e < g.edges.len() && g.edges@[e].to == id)
    } else {
        None
    }
}

/// What edge `e` delivers downstream when its upstream port yields `p`: the packet under
/// the downstream port's name, with an error replaced by the edge's default, if it has one.
pub open spec fn deliver(g: Schematic, e: int, p: PacketModel) -> PacketModel {
    let edge = g.edges@[e];
    PacketModel {
        port: g.in_ports@[edge.to as int].name@,
        payload: if p.is_error() && edge.default is Some {
            PayloadModel::Json(eval_default(edge.default->Some_0@, p.payload->Error_0))
        } else {
            p.payload
        },
    }
}

/// The input ports after `p` has been offered, along the edges below `upto` that leave
/// output port `from`.
pub open spec fn routed(
    g: Schematic,
    ins: Seq<PortModel>,
    from: usize,
    p: PacketModel,
    upto: int,
) -> Seq<PortModel> {
    Seq::new(
        ins.len(),
        |id: int|
            match feeding_edge(g, id) {
                Some(e) => if e < upto && g.edges@[e].from == Some(from) {
                    ins[id].push(deliver(g, e, p))
                } else {
                    ins[id]
                },
                None => ins[id],
            },
    )
}

/// The input ports after `p` has been offered along every edge leaving output port `from`.
pub open spec fn route(g: Schematic, ins: Seq<PortModel>, from: usize, p: PacketModel) -> Seq<
    PortModel,
> {
    routed(g, ins, from, p, g.edges.len() as int)
}

/// The actions of offering `p` along the edges below `upto` that leave output port
/// `from`, with the input ports in state `ins`: for each such edge, in order, a data event
/// for its downstream port, or a report that the delivered packet was dropped there.
pub open spec fn route_acts(g: Schematic, ins: Seq<PortModel>, from: usize, p: PacketModel, upto: int) -> Seq<
    ActionModel,
>
    decreases upto,
{
    if upto <= 0 {
        Seq::empty()
    } else {
        let e = upto - 1;
        let to = g.edges@[e].to;
        route_acts(g, ins, from, p, e) + if g.edges@[e].from == Some(from) {
            seq![
                if ins[to as int].status == PortStatus::DoneClosed {
                    ActionModel::Dropped(deliver(g, e, p))
                } else {
                    ActionModel::Dispatch(PortDirection::In, to)
                },
            ]
        } else {
            Seq::empty()
        }
    }
}

/// Whether no status of `b` is behind the status at the same place in `a`.
pub open spec fn ranks_grow(a: Seq<PortModel>, b: Seq<PortModel>) -> bool {
    &&& a.len() == b.len()
    &&& forall|i: int| 0 <= i < a.len() ==> status_rank(#[trigger] a[i].status) <= status_rank(b[i].status)
}

/// Whether no entry of `s` asks for the done event.
pub open spec fn no_done(s: Seq<Action>) -> bool {
    forall|k: int| 0 <= k < s.len() ==> !(#[trigger] s[k] is EmitDone)
}

/// Whether every input port of the output boundary is closed and empty.
pub open spec fn outputs_done(g: Schematic, ins: Seq<PortModel>) -> bool {
    let out = g.nodes@[g.nodes.len() - 1];
    forall|k: int|
        0 <= k < out.inputs.len() ==> {
            let id = #[trigger] out.inputs@[k] as int;
            ins[id].status == PortStatus::DoneClosed && ins[id].queue.len() == 0
        }
}

/// Offering a packet to a port never sets its status back.
pub proof fn lemma_push_rank(m: PortModel, p: PacketModel)
    ensures
        status_rank(m.status) <= status_rank(m.push(p).status),
{
}

/// In a well-formed schematic, the edge that feeds an edge's downstream port is that edge.
pub proof fn lemma_feeding_edge(g: Schematic, e: int)
    requires
        g.wf(),
        0 <= e < g.edges.len(),
    ensures
        feeding_edge(g, g.edges@[e].to as int) == Some(e),
{
    let id = g.edges@[e].to as int;
    let c = choose|c: int| 0 <= c < g.edges.len() && g.edges@[c].to == id;
    if c != e {
        assert(g.edges@[c].to != g.edges@[e].to);
    }
}

impl TxModel {
    /// The transaction's well-formedness: one buffer per port, one flag per node.
    pub open spec fn wf(self) -> bool {
        &&& self.graph.wf()
        &&& self.ins.len() == self.graph.in_ports.len()
        &&& self.outs.len() == self.graph.out_ports.len()
        &&& self.started.len() == self.graph.nodes.len()
        &&& forall|i: int| 0 <= i < self.ins.len() ==> (#[trigger] self.ins[i]).wf()
        &&& forall|i: int| 0 <= i < self.outs.len() ==> (#[trigger] self.outs[i]).wf()
        &&& self.closed ==> self.finished
    }

    /// Whether `next` follows `self` without any port regressing, any started operation
    /// being forgotten, or a finished transaction reopening.
    pub open spec fn grows_to(self, next: TxModel) -> bool {
        &&& next.graph == self.graph
        &&& next.id == self.id
        &&& next.seed == self.seed
        &&& next.timestamp == self.timestamp
        &&& ranks_grow(self.ins, next.ins)
        &&& ranks_grow(self.outs, next.outs)
        &&& next.started.len() == self.started.len()
        &&& forall|v: int| 0 <= v < self.started.len() && #[trigger] self.started[v] ==> next.started[v]
        &&& self.finished ==> next.finished
        &&& self.closed ==> next.closed
    }
}


proof fn lemma_routed_step(g: Schematic, ins: Seq<PortModel>, from: usize, p: PacketModel, e: int)
    requires
        g.wf(),
        0 <= e < g.edges.len(),
        ins.len() == g.in_ports.len(),
    ensures
        g.edges@[e].from == Some(from) ==> routed(g, ins, from, p, e + 1) == routed(g, ins, from, p, e).update(
            g.edges@[e].to as int,
            routed(g, ins, from, p, e)[g.edges@[e].to as int].push(deliver(g, e, p)),
        ),
        g.edges@[e].from != Some(from) ==> routed(g, ins, from, p, e + 1) == routed(g, ins, from, p, e),
        routed(g, ins, from, p, e)[g.edges@[e].to as int] == ins[g.edges@[e].to as int],
{
    lemma_feeding_edge(g, e);
    let to = g.edges@[e].to as int;
    assert forall|id: int| 0 <= id < ins.len() && id != to implies #[trigger] feeding_edge(g, id) != Some(e) by {
        if feeding_edge(g, id) == Some(e) {
            let c = choose|c: int| 0 <= c < g.edges.len() && g.edges@[c].to == id;
            assert(g.edges@[c].to == id);
        }
    }
    if g.edges@[e].from == Some(from) {
        assert(routed(g, ins, from, p, e + 1) =~= routed(g, ins, from, p, e).update(
            to,
            routed(g, ins, from, p, e)[to].push(deliver(g, e, p)),
        ));
    } else {
        assert(routed(g, ins, from, p, e + 1) =~= routed(g, ins, from, p, e));
    }
}

proof fn lemma_routed_base(g: Schematic, ins: Seq<PortModel>, from: usize, p: PacketModel)
    ensures
        routed(g, ins, from, p, 0) == ins,
{
    assert(routed(g, ins, from, p, 0) =~= ins);
}

proof fn lemma_routed_grows(g: Schematic, ins: Seq<PortModel>, from: usize, p: PacketModel, upto: int)
    requires
        forall|i: int| 0 <= i < ins.len() ==> (#[trigger] ins[i]).wf(),
    ensures
        ranks_grow(ins, routed(g, ins, from, p, upto)),
{
    assert forall|i: int| 0 <= i < ins.len() implies status_rank(#[trigger] ins[i].status) <= status_rank(
        routed(g, ins, from, p, upto)[i].status,
    ) by {
        lemma_push_rank(ins[i], p);
        match feeding_edge(g, i) {
            Some(e) => lemma_push_rank(ins[i], deliver(g, e, p)),
            None => {},
        }
    }
}

impl Transaction {
    /// The packet that edge `e` delivers downstream when its upstream port yields `p`.
    fn deliver_packet(&self, e: usize, p: &Packet) -> (r: Packet)
        requires
            self@.wf(),
            e < self@.graph.edges.len(),
        ensures
            r@ == deliver(self@.graph, e as int, p@),
    {
        let edge = &self.schematic.edges[e];
        let port = copy_string(&self.schematic.in_ports[edge.to].name);
        let payload = match (&p.payload, &edge.default) {
            (Payload::Error(message), Some(d)) => Payload::Json(d.evaluate(message.as_str())),
            _ => p.payload.duplicate(),
        };
        Packet { port, payload }
    }

    /// Offers `p` along every edge leaving output port `from`, and asks for a data event
    /// on each downstream port that took it.
    fn route_packet(&mut self, from: usize, p: &Packet, actions: &mut Vec<Action>)
        requires
            old(self)@.wf(),
            from < old(self)@.outs.len(),
            no_done(old(actions)@),
        ensures
            final(self)@ == (TxModel { ins: route(old(self)@.graph, old(self)@.ins, from, p@), ..old(self)@ }),
            final(self)@.wf(),
            old(self)@.grows_to(final(self)@),
            no_done(final(actions)@),
            acts(final(actions)@) == acts(old(actions)@) + route_acts(old(self)@.graph, old(self)@.ins, from, p@, old(self)@.graph.edges.len() as int),
            emitted(final(actions)@) == emitted(old(actions)@),
    {
        let ghost g = self@.graph;
        let ghost ins0 = self@.ins;
        proof { lemma_routed_base(g, ins0, from, p@); }
        let mut e: usize = 0;
        while e < self.schematic.edges.len()
            invariant
                g == self@.graph,
                old(self)@.wf(),
                e <= g.edges.len(),
                self@ == (TxModel { ins: routed(g, ins0, from, p@, e as int), ..old(self)@ }),
                ins0 == old(self)@.ins,
                forall|i: int| 0 <= i < self@.ins.len() ==> (#[trigger] self@.ins[i]).wf(),
                no_done(actions@),
                acts(actions@) == acts(old(actions)@) + route_acts(g, ins0, from, p@, e as int),
                emitted(actions@) == emitted(old(actions)@),
            decreases g.edges.len() - e,
        {
            proof { lemma_routed_step(g, ins0, from, p@, e as int); }
            let hit = match self.schematic.edges[e].from {
                Some(f) => f == from,
                None => false,
            };
            if hit {
                let to = self.schematic.edges[e].to;
                let q = self.deliver_packet(e, p);
                let ghost before = self.ins@;
                if self.ins[to].status() == PortStatus::DoneClosed {
                    assert(self@.ins[to as int].push(q@) == self@.ins[to as int]);
                    assert(self@.ins.update(to as int, self@.ins[to as int]) =~= self@.ins);
                    proof { lemma_no_done_push(actions@, Action::Dropped(q)); }
                    actions.push(Action::Dropped(q));
                } else {
                    self.ins[to].buffer(q);
                    assert(self.ins@ == before.update(to as int, self.ins@[to as int]));
                    assert(self.ins@.map_values(|b: PortBuffer| b@) =~= before.map_values(|b: PortBuffer| b@).update(
                        to as int,
                        self.ins@[to as int]@,
                    ));
                    proof { lemma_no_done_push(actions@, Action::Dispatch(PortDirection::In, to)); }
                    actions.push(Action::Dispatch(PortDirection::In, to));
                }
                assert(no_done(actions@)) by {
                    assert forall|k: int| 0 <= k < actions@.len() implies !(#[trigger] actions@[k] is EmitDone) by {
                        if k < actions@.len() - 1 {
                            assert(old(actions)@.len() >= 0);
                        }
                    }
                }
            }
            proof {
                assert(acts(actions@) =~= acts(old(actions)@) + route_acts(g, ins0, from, p@, e + 1));
            }
            e = e + 1;
        }
        proof { lemma_routed_grows(g, ins0, from, p@, g.edges.len() as int); }
    }
}


/// The position among node `v`'s output ports of the first one named `name`.
pub open spec fn named_output(g: Schematic, v: int, name: Seq<char>) -> Option<int> {
    let outs = g.nodes@[v].outputs@;
    if exists|k: int| 0 <= k < outs.len() && g.out_ports@[outs[k] as int].name@ == name {
        Some(
            choose|k: int|
                0 <= k < outs.len() && g.out_ports@[outs[k] as int].name@ == name && forall|j: int|
                    0 <= j < k ==> g.out_ports@[outs[j] as int].name@ != name,
        )
    } else {
        None
    }
}

/// The port `named_output` picks is an output of the node with that name, and no earlier
/// output of the node has that name.
pub proof fn lemma_named_output(g: Schematic, v: int, name: Seq<char>)
    requires
        named_output(g, v, name) is Some,
    ensures
        ({
            let k = named_output(g, v, name)->Some_0;
            &&& 0 <= k < g.nodes@[v].outputs.len()
            &&& g.out_ports@[g.nodes@[v].outputs@[k] as int].name@ == name
            &&& forall|j: int| 0 <= j < k ==> g.out_ports@[g.nodes@[v].outputs@[j] as int].name@ != name
        }),
{
    let outs = g.nodes@[v].outputs@;
    let w = choose|k: int| 0 <= k < outs.len() && g.out_ports@[outs[k] as int].name@ == name;
    let _least = choose_min(g, v, name, w);
}

/// The smallest position at or below `w` of an output of node `v` named `name`.
proof fn choose_min(g: Schematic, v: int, name: Seq<char>, w: int) -> (k: int)
    requires
        0 <= w < g.nodes@[v].outputs.len(),
        g.out_ports@[g.nodes@[v].outputs@[w] as int].name@ == name,
    ensures
        0 <= k <= w,
        g.out_ports@[g.nodes@[v].outputs@[k] as int].name@ == name,
        forall|j: int| 0 <= j < k ==> g.out_ports@[g.nodes@[v].outputs@[j] as int].name@ != name,
    decreases w,
{
    if exists|j: int| 0 <= j < w && g.out_ports@[g.nodes@[v].outputs@[j] as int].name@ == name {
        let j = choose|j: int| 0 <= j < w && g.out_ports@[g.nodes@[v].outputs@[j] as int].name@ == name;
        choose_min(g, v, name, j)
    } else {
        w
    }
}

/// The output ports after `p` has been offered to output port `id`.
pub open spec fn offered(outs: Seq<PortModel>, id: int, p: PacketModel) -> Seq<PortModel> {
    outs.update(id, outs[id].push(p))
}

/// The action that offering `p` to output port `id`, in state `m`, asks for: a data event
/// if the port takes it, else a report that it was dropped.
pub open spec fn offer_action(m: PortModel, id: usize, p: PacketModel) -> ActionModel {
    if m.status == PortStatus::DoneClosed {
        ActionModel::Dropped(p)
    } else {
        ActionModel::Dispatch(PortDirection::Out, id)
    }
}

/// The actions of offering `p` to the output port of node `v` named as `p`'s port: the
/// port's offer action, or a report that `p` was dropped if there is no such port.
pub open spec fn offered_actions(s: TxModel, v: int, p: PacketModel) -> Seq<ActionModel> {
    let g = s.graph;
    if 0 <= v < g.nodes.len() && named_output(g, v, p.port) is Some {
        let id = g.nodes@[v].outputs@[named_output(g, v, p.port)->Some_0];
        seq![offer_action(s.outs[id as int], id, p)]
    } else {
        seq![ActionModel::Dropped(p)]
    }
}

/// Whether `acts` asks for the done event exactly when the transaction has just finished
/// by completing its output (not by the done event itself closing it), and then once, last.
pub open spec fn done_step(acts: Seq<Action>, before: TxModel, after: TxModel) -> bool {
    &&& (exists|k: int| 0 <= k < acts.len() && #[trigger] acts[k] is EmitDone) <==> (!before.finished
        && after.finished && !after.closed)
    &&& forall|k: int| 0 <= k < acts.len() && #[trigger] acts[k] is EmitDone ==> k == acts.len() - 1
}

/// An open, empty port.
pub open spec fn fresh_port() -> PortModel {
    PortModel { status: PortStatus::Open, queue: Seq::empty(), done_forwarded: false }
}

/// The state of a new transaction over `g` seeded with `seed`.
pub open spec fn initial_state(g: Schematic, seed: u64, timestamp: u64) -> TxModel {
    TxModel {
        graph: g,
        id: tx_id_spec(seed),
        seed,
        timestamp,
        ins: Seq::new(g.in_ports.len() as nat, |i: int| fresh_port()),
        outs: Seq::new(g.out_ports.len() as nat, |i: int| fresh_port()),
        started: Seq::new(g.nodes.len() as nat, |v: int| false),
        finished: false,
        closed: false,
        last_access: timestamp,
        stats: StatsModel::empty().marked("new"@, timestamp),
    }
}

fn open_ports(n: usize) -> (r: Vec<PortBuffer>)
    ensures
        r.len() == n,
        r@.map_values(|b: PortBuffer| b@) == Seq::new(n as nat, |i: int| fresh_port()),
{
    let mut r: Vec<PortBuffer> = Vec::new();
    let mut i: usize = 0;
    while i < n
        invariant
            i <= n,
            r.len() == i,
            forall|j: int| 0 <= j < i ==> (#[trigger] r@[j])@ == fresh_port(),
        decreases n - i,
    {
        r.push(PortBuffer::new());
        i = i + 1;
    }
    assert(r@.map_values(|b: PortBuffer| b@) =~= Seq::new(n as nat, |i: int| fresh_port()));
    r
}

proof fn lemma_no_done_push(s: Seq<Action>, a: Action)
    requires
        no_done(s),
        !(a is EmitDone),
    ensures
        no_done(s.push(a)),
        !(a is Emit) ==> emitted(s.push(a)) == emitted(s),
        acts(s.push(a)) == acts(s).push(a@),
{
    assert(s.push(a).drop_last() =~= s);
    assert(acts(s.push(a)) =~= acts(s).push(a@));
    assert forall|k: int| 0 <= k < s.push(a).len() implies !(#[trigger] s.push(a)[k] is EmitDone) by {
        if k < s.len() {
            assert(s.push(a)[k] == s[k]);
        }
    }
}

impl Transaction {
    /// A transaction over `schematic` with every port open and empty and no operation
    /// started; its id is derived from `seed`.
    pub fn new(schematic: Schematic, seed: u64, timestamp: u64) -> (r: Transaction)
        requires
            schematic.wf(),
        ensures
            r@ == initial_state(schematic, seed, timestamp),
            r@.wf(),
            r@.graph == schematic,
            r@.id == tx_id_spec(seed),
            r@.seed == seed,
            forall|i: int| 0 <= i < r@.ins.len() ==> #[trigger] r@.ins[i].status == PortStatus::Open
                && r@.ins[i].queue.len() == 0,
            forall|i: int| 0 <= i < r@.outs.len() ==> #[trigger] r@.outs[i].status == PortStatus::Open
                && r@.outs[i].queue.len() == 0,
            forall|v: int| 0 <= v < r@.started.len() ==> !#[trigger] r@.started[v],
            !r@.finished,
            !r@.closed,
    {
        let ins = open_ports(schematic.in_ports.len());
        let outs = open_ports(schematic.out_ports.len());
        let mut started: Vec<bool> = Vec::new();
        let mut v: usize = 0;
        while v < schematic.nodes.len()
            invariant
                v <= schematic.nodes.len(),
                started.len() == v,
                forall|j: int| 0 <= j < v ==> !#[trigger] started@[j],
            decreases schematic.nodes.len() - v,
        {
            started.push(false);
            v = v + 1;
        }
        assert(started@ =~= Seq::new(schematic.nodes.len() as nat, |v: int| false));
        let mut stats = TransactionStatistics::new();
        stats.mark("new", timestamp);
        Transaction {
            schematic,
            id: tx_id(seed),
            seed,
            timestamp,
            ins,
            outs,
            started,
            finished: false,
            closed: false,
            last_access: timestamp,
            stats,
        }
    }

    /// The transaction's id.
    pub fn id(&self) -> (r: u128)
        ensures
            r == self@.id,
    {
        self.id
    }

    /// The name of the schematic being executed.
    pub fn schematic_name(&self) -> (r: &str)
        ensures
            r@ == self@.graph.name@,
    {
        self.schematic.name.as_str()
    }

    /// The schematic being executed.
    pub fn schematic(&self) -> (r: &Schematic)
        ensures
            *r == self@.graph,
    {
        &self.schematic
    }

    /// Whether the done event has been asked for.
    pub fn is_finished(&self) -> (r: bool)
        ensures
            r == self@.finished,
    {
        self.finished
    }

    /// The transaction's statistics.
    pub fn statistics(&self) -> (r: &TransactionStatistics)
        ensures
            r@ == self@.stats,
    {
        &self.stats
    }

    /// The time of the last event, in milliseconds.
    pub fn last_access(&self) -> (r: u64)
        ensures
            r == self@.last_access,
    {
        self.last_access
    }

    /// Records `now` as the time of the last event.
    pub fn update_last_access(&mut self, now: u64)
        ensures
            final(self)@ == (TxModel { last_access: now, ..old(self)@ }),
    {
        self.last_access = now;
    }

    /// Offers `p` to output port `id`: a data event is asked for if the port takes it.
    pub fn accept_output(&mut self, id: usize, p: Packet, actions: &mut Vec<Action>)
        requires
            old(self)@.wf(),
            id < old(self)@.outs.len(),
            no_done(old(actions)@),
        ensures
            final(self)@ == (TxModel { outs: offered(old(self)@.outs, id as int, p@), ..old(self)@ }),
            final(self)@.wf(),
            old(self)@.grows_to(final(self)@),
            no_done(final(actions)@),
            acts(final(actions)@) == acts(old(actions)@).push(offer_action(old(self)@.outs[id as int], id, p@)),
            emitted(final(actions)@) == emitted(old(actions)@),
    {
        let ghost before = self.outs@;
        proof { lemma_push_rank(self@.outs[id as int], p@); }
        if self.outs[id].status() == PortStatus::DoneClosed {
            assert(self@.outs.update(id as int, self@.outs[id as int]) =~= self@.outs);
            proof { lemma_no_done_push(actions@, Action::Dropped(p)); }
            actions.push(Action::Dropped(p));
        } else {
            self.outs[id].buffer(p);
            assert(self.outs@.map_values(|b: PortBuffer| b@) =~= before.map_values(|b: PortBuffer| b@).update(
                id as int,
                self.outs@[id as int]@,
            ));
            proof { lemma_no_done_push(actions@, Action::Dispatch(PortDirection::Out, id)); }
            actions.push(Action::Dispatch(PortDirection::Out, id));
        }
        assert(ranks_grow(old(self)@.outs, self@.outs));
    }

    /// The id of node `v`'s first output port named `name`.
    fn find_output(&self, v: usize, name: &str) -> (r: Option<usize>)
        requires
            self@.wf(),
            v < self@.graph.nodes.len(),
        ensures
            r is Some <==> named_output(self@.graph, v as int, name@) is Some,
            r is Some ==> r->Some_0 as int == self@.graph.nodes@[v as int].outputs@[named_output(
                self@.graph,
                v as int,
                name@,
            )->Some_0],
            r is Some ==> r->Some_0 < self@.outs.len(),
    {
        let outputs = &self.schematic.nodes[v].outputs;
        let mut k: usize = 0;
        while k < outputs.len()
            invariant
                self@.wf(),
                v < self@.graph.nodes.len(),
                outputs == self@.graph.nodes@[v as int].outputs,
                k <= outputs.len(),
                forall|j: int| 0 <= j < k ==> self@.graph.out_ports@[outputs@[j] as int].name@ != name@,
            decreases outputs.len() - k,
        {
            let id = outputs[k];
            assert(self@.graph.nodes@[v as int].outputs@[k as int] == id);
            if crate::text::str_eq(self.schematic.out_ports[id].name.as_str(), name) {
                proof {
                    let c = named_output(self@.graph, v as int, name@)->Some_0;
                    assert(c == k as int) by {
                        if c < k as int {
                        } else if c > k as int {
                        }
                    }
                }
                return Some(id);
            }
            k = k + 1;
        }
        None
    }

    /// A packet from the caller's stream: offered to the schematic input of the same name.
    /// A no-op packet is dropped quietly; one for an unknown input is dropped and reported.
    pub fn accept_input(&mut self, p: Packet, actions: &mut Vec<Action>)
        requires
            old(self)@.wf(),
            no_done(old(actions)@),
        ensures
            final(self)@.wf(),
            old(self)@.grows_to(final(self)@),
            no_done(final(actions)@),
            acts(final(actions)@) == acts(old(actions)@) + if p@.is_noop() { Seq::empty() } else { offered_actions(old(self)@, 0, p@) },
            emitted(final(actions)@) == emitted(old(actions)@),
            p@.is_noop() || named_output(old(self)@.graph, 0, p@.port) is None ==> final(self)@ == old(self)@,
            !p@.is_noop() && named_output(old(self)@.graph, 0, p@.port) is Some ==> final(self)@ == (TxModel {
                outs: offered(
                    old(self)@.outs,
                    old(self)@.graph.nodes@[0].outputs@[named_output(old(self)@.graph, 0, p@.port)->Some_0] as int,
                    p@,
                ),
                ..old(self)@
            }),
            named_output(old(self)@.graph, 0, p@.port) is None && !p@.is_noop() ==> final(actions)@ == old(actions)@.push(
                Action::Dropped(p),
            ),
    {
        let ghost a0 = acts(actions@);
        if p.is_noop() {
            assert(acts(actions@) =~= a0 + Seq::<ActionModel>::empty());
            return;
        }
        match self.find_output(0, p.port.as_str()) {
            Some(id) => {
                self.accept_output(id, p, actions);
                assert(acts(actions@) =~= a0 + offered_actions(old(self)@, 0, p@));
            },
            None => {
                proof { lemma_no_done_push(actions@, Action::Dropped(p)); }
                actions.push(Action::Dropped(p));
                assert(acts(actions@) =~= a0 + offered_actions(old(self)@, 0, p@));
            },
        }
    }

    /// A packet that the operation of node `v` emitted: offered to its output port of the
    /// same name, or dropped and reported if it has none.
    pub fn accept_component_output(&mut self, v: usize, p: Packet, actions: &mut Vec<Action>)
        requires
            old(self)@.wf(),
            no_done(old(actions)@),
        ensures
            final(self)@.wf(),
            old(self)@.grows_to(final(self)@),
            no_done(final(actions)@),
            acts(final(actions)@) == acts(old(actions)@) + offered_actions(old(self)@, v as int, p@),
            emitted(final(actions)@) == emitted(old(actions)@),
            v < old(self)@.graph.nodes.len() && named_output(old(self)@.graph, v as int, p@.port) is Some ==> final(self)@ == (TxModel {
                outs: offered(
                    old(self)@.outs,
                    old(self)@.graph.nodes@[v as int].outputs@[named_output(old(self)@.graph, v as int, p@.port)->Some_0] as int,
                    p@,
                ),
                ..old(self)@
            }),
            !(v < old(self)@.graph.nodes.len() && named_output(old(self)@.graph, v as int, p@.port) is Some) ==> final(self)@ == old(self)@,
    {
        let ghost a0 = acts(actions@);
        if v >= self.schematic.nodes.len() {
            proof { lemma_no_done_push(actions@, Action::Dropped(p)); }
            actions.push(Action::Dropped(p));
            assert(acts(actions@) =~= a0 + offered_actions(old(self)@, v as int, p@));
            return;
        }
        match self.find_output(v, p.port.as_str()) {
            Some(id) => {
                self.accept_output(id, p, actions);
                assert(acts(actions@) =~= a0 + offered_actions(old(self)@, v as int, p@));
            },
            None => {
                proof { lemma_no_done_push(actions@, Action::Dropped(p)); }
                actions.push(Action::Dropped(p));
                assert(acts(actions@) =~= a0 + offered_actions(old(self)@, v as int, p@));
            },
        }
    }
}


/// The terminator of the stream of the port named `name`.
pub open spec fn done_model(name: Seq<char>) -> PacketModel {
    PacketModel { port: name, payload: PayloadModel::Done }
}

/// Output port `id` after one packet has been taken and, if that closed it, its
/// terminator handed on.
pub open spec fn taken_out(m: PortModel) -> PortModel {
    let m1 = m.take();
    if m1.done_pending() {
        PortModel { done_forwarded: true, ..m1 }
    } else {
        m1
    }
}

/// The input ports after output port `id` (in state `m`) has handed on its first packet
/// and, if that closed it, its terminator.
pub open spec fn propagated(g: Schematic, ins: Seq<PortModel>, id: usize, m: PortModel) -> Seq<
    PortModel,
> {
    let ins1 = if m.queue.len() > 0 {
        route(g, ins, id, m.queue[0])
    } else {
        ins
    };
    if m.take().done_pending() {
        route(g, ins1, id, done_model(g.out_ports@[id as int].name@))
    } else {
        ins1
    }
}

/// A port after it has been drained and, if that closed it, its terminator handed on.
pub open spec fn flushed(m: PortModel) -> PortModel {
    let d = m.drain();
    if d.done_pending() {
        PortModel { done_forwarded: true, ..d }
    } else {
        d
    }
}

/// The input ports after those of node `v` whose position is below `upto` have been flushed.
pub open spec fn flushed_upto(g: Schematic, ins: Seq<PortModel>, v: int, upto: int) -> Seq<PortModel> {
    Seq::new(
        ins.len(),
        |id: int|
            if g.in_ports@[id].node == v && g.in_ports@[id].index < upto {
                flushed(ins[id])
            } else {
                ins[id]
            },
    )
}

/// The input ports after every input port of node `v` has been flushed.
pub open spec fn flushed_node(g: Schematic, ins: Seq<PortModel>, v: int) -> Seq<PortModel> {
    Seq::new(ins.len(), |id: int| if g.in_ports@[id].node == v { flushed(ins[id]) } else { ins[id] })
}

/// The actions that send the packets `ps` to the caller, or report them dropped once the
/// response stream is closed.
pub open spec fn to_caller(closed: bool, ps: Seq<PacketModel>) -> Seq<ActionModel> {
    ps.map_values(|p: PacketModel| if closed { ActionModel::Dropped(p) } else { ActionModel::Emit(p) })
}

/// The actions that pass what input port `id` of the output boundary holds to the caller:
/// its packets, then its terminator if that closes it; once the response stream is
/// closed, each packet is reported dropped and the terminator is let go without a report.
pub open spec fn caller_acts(s: TxModel, id: int) -> Seq<ActionModel> {
    let m = s.ins[id];
    to_caller(s.closed, m.queue) + if !s.closed && m.drain().done_pending() {
        seq![ActionModel::Emit(done_model(s.graph.in_ports@[id].name@))]
    } else {
        Seq::empty()
    }
}

/// The actions of a data event on input port `id` of the output boundary in state `s`: its
/// packets go to the caller, then the done event is asked for if this completes the output.
pub open spec fn output_acts(s: TxModel, id: int) -> Seq<ActionModel> {
    let g = s.graph;
    let ins = s.ins.update(id, flushed(s.ins[id]));
    caller_acts(s, id) + if !s.finished && outputs_done(g, ins) {
        seq![ActionModel::EmitDone]
    } else {
        Seq::empty()
    }
}

/// The actions of a data event on input port `id` in state `s`.
pub open spec fn input_data_acts(s: TxModel, id: int) -> Seq<ActionModel> {
    let g = s.graph;
    let v = g.in_ports@[id].node as int;
    if v == g.nodes.len() - 1 {
        output_acts(s, id)
    } else if s.started[v] {
        forwards(v as usize, handed(s.ins[id], g.in_ports@[id].name@))
    } else if ready(g, s.ins, v) {
        start_acts(s, v)
    } else {
        Seq::empty()
    }
}

/// The state after a data event on input port `id`: the output boundary hands the
/// port's packets to the caller and may finish; a running operation is handed them; an
/// operation that is ready is started and handed all its inputs; otherwise nothing changes.
pub open spec fn input_data_state(s: TxModel, id: int) -> TxModel {
    let g = s.graph;
    let v = g.in_ports@[id].node as int;
    if v == g.nodes.len() - 1 {
        let ins = s.ins.update(id, flushed(s.ins[id]));
        TxModel { ins, finished: s.finished || outputs_done(g, ins), ..s }
    } else if s.started[v] {
        TxModel { ins: s.ins.update(id, flushed(s.ins[id])), ..s }
    } else if ready(g, s.ins, v) {
        TxModel { ins: flushed_node(g, s.ins, v), started: s.started.update(v, true), ..s }
    } else {
        s
    }
}

/// The actions of a data event on output port `id` in state `m`, with the input ports in
/// state `ins`: those of routing its first packet, then those of routing its terminator if
/// that closed it.
pub open spec fn propagate_acts(g: Schematic, ins: Seq<PortModel>, id: usize, m: PortModel) -> Seq<ActionModel> {
    let n = g.edges.len() as int;
    let ins1 = if m.queue.len() > 0 {
        route(g, ins, id, m.queue[0])
    } else {
        ins
    };
    (if m.queue.len() > 0 {
        route_acts(g, ins, id, m.queue[0], n)
    } else {
        Seq::empty()
    }) + if m.take().done_pending() {
        route_acts(g, ins1, id, done_model(g.out_ports@[id as int].name@), n)
    } else {
        Seq::empty()
    }
}

/// The actions that hand the packets `ps` to the running operation of node `v`.
pub open spec fn forwards(v: usize, ps: Seq<PacketModel>) -> Seq<ActionModel> {
    ps.map_values(|p: PacketModel| ActionModel::Forward(v, p))
}

/// The invocation with which a transaction in state `s` starts the operation of node `v`:
/// its id, the node's namespace and operation, the seed derived for the node, and the
/// transaction's start time.
pub open spec fn invocation_for(s: TxModel, v: int) -> InvocationModel {
    InvocationModel {
        tx_id: s.id,
        node: v as usize,
        namespace: s.graph.nodes@[v].namespace@,
        operation: s.graph.nodes@[v].operation@,
        seed: child_seed_spec(s.seed, v as u64),
        timestamp: s.timestamp,
    }
}

/// The actions that hand a just-started node `v` what waits on its first `k` inputs, in
/// the order of its inputs.
pub open spec fn node_forwards(g: Schematic, ins: Seq<PortModel>, v: int, k: int) -> Seq<ActionModel>
    decreases k,
{
    if k <= 0 {
        Seq::empty()
    } else {
        let id = g.nodes@[v].inputs@[k - 1] as int;
        node_forwards(g, ins, v, k - 1) + forwards(v as usize, handed(ins[id], g.in_ports@[id].name@))
    }
}

/// The actions of starting node `v` in state `s`: the start, then what waits on its inputs.
pub open spec fn start_acts(s: TxModel, v: int) -> Seq<ActionModel> {
    seq![ActionModel::Start(invocation_for(s, v))] + node_forwards(s.graph, s.ins, v, s.graph.nodes@[v].inputs.len() as int)
}

/// Whether every input port of node `v` holds a packet or is closed.
pub open spec fn ready(g: Schematic, ins: Seq<PortModel>, v: int) -> bool {
    forall|k: int|
        0 <= k < g.nodes@[v].inputs.len() ==> {
            let id = #[trigger] g.nodes@[v].inputs@[k] as int;
            ins[id].queue.len() > 0 || ins[id].status == PortStatus::DoneClosed
        }
}

/// Whether a port is done: its terminator has arrived.
pub open spec fn port_done(m: PortModel) -> bool {
    m.status == PortStatus::DoneOpen || m.status == PortStatus::DoneClosed
}

/// The packets that `acts` sends to the caller, in order.
pub open spec fn emitted(acts: Seq<Action>) -> Seq<PacketModel>
    decreases acts.len(),
{
    if acts.len() == 0 {
        Seq::empty()
    } else {
        emitted(acts.drop_last()) + match acts.last() {
            Action::Emit(p) => seq![p@],
            _ => Seq::empty(),
        }
    }
}

/// The packets that `acts` hands to the running operation of node `v`, in order.
pub open spec fn forwarded(acts: Seq<Action>, v: usize) -> Seq<PacketModel>
    decreases acts.len(),
{
    if acts.len() == 0 {
        Seq::empty()
    } else {
        forwarded(acts.drop_last(), v) + match acts.last() {
            Action::Forward(u, p) => if u == v {
                seq![p@]
            } else {
                Seq::empty()
            },
            _ => Seq::empty(),
        }
    }
}

/// What an input port named `name` hands on when drained: its queue, then its
/// terminator if that closes it and the terminator has not been handed on yet.
pub open spec fn handed(m: PortModel, name: Seq<char>) -> Seq<PacketModel> {
    m.queue + if m.drain().done_pending() {
        seq![done_model(name)]
    } else {
        Seq::empty()
    }
}

proof fn lemma_acts_push(s: Seq<Action>, a: Action, v: usize)
    ensures
        acts(s.push(a)) == acts(s).push(a@),
        emitted(s.push(a)) == emitted(s) + match a {
            Action::Emit(p) => seq![p@],
            _ => Seq::<PacketModel>::empty(),
        },
        forwarded(s.push(a), v) == forwarded(s, v) + match a {
            Action::Forward(u, p) => if u == v {
                seq![p@]
            } else {
                Seq::<PacketModel>::empty()
            },
            _ => Seq::<PacketModel>::empty(),
        },
{
    assert(s.push(a).drop_last() =~= s);
    assert(acts(s.push(a)) =~= acts(s).push(a@));
}

impl Transaction {
    /// Data event on output port `id`: its first packet, then its terminator once it has
    /// closed, go along every edge that leaves it.
    pub fn take_component_output(&mut self, id: usize, actions: &mut Vec<Action>)
        requires
            old(self)@.wf(),
            id < old(self)@.outs.len(),
            no_done(old(actions)@),
        ensures
            final(self)@ == (TxModel {
                outs: old(self)@.outs.update(id as int, taken_out(old(self)@.outs[id as int])),
                ins: propagated(old(self)@.graph, old(self)@.ins, id, old(self)@.outs[id as int]),
                ..old(self)@
            }),
            final(self)@.wf(),
            old(self)@.grows_to(final(self)@),
            no_done(final(actions)@),
            acts(final(actions)@) == acts(old(actions)@) + propagate_acts(old(self)@.graph, old(self)@.ins, id, old(self)@.outs[id as int]),
            emitted(final(actions)@) == emitted(old(actions)@),
    {
        let ghost before = self.outs@;
        let taken = self.outs[id].take_packet();
        assert(self.outs@.map_values(|b: PortBuffer| b@) =~= before.map_values(|b: PortBuffer| b@).update(
            id as int,
            self.outs@[id as int]@,
        ));
        let ghost s1 = self@;
        match taken {
            Some(p) => self.route_packet(id, &p, actions),
            None => {},
        }
        let ghost s2 = self@;
        let ghost before2 = self.outs@;
        assert(self@.outs[id as int].wf());
        assert(self.outs@[id as int]@ == self@.outs[id as int]);
        assert(s2.outs[id as int] == old(self)@.outs[id as int].take());
        if self.outs[id].take_done() {
            assert(self.outs@.map_values(|b: PortBuffer| b@) =~= before2.map_values(|b: PortBuffer| b@).update(
                id as int,
                self.outs@[id as int]@,
            ));
            let done = Packet::done(self.schematic.out_ports[id].name.as_str());
            self.route_packet(id, &done, actions);
        }
        proof {
            assert(self@.outs =~= old(self)@.outs.update(id as int, taken_out(old(self)@.outs[id as int])));
            assert(old(self)@.outs[id as int].queue.len() > 0 ==> s1.ins == old(self)@.ins);
            assert(self@.ins == propagated(old(self)@.graph, old(self)@.ins, id, old(self)@.outs[id as int]));
            assert(acts(actions@) =~= acts(old(actions)@) + propagate_acts(old(self)@.graph, old(self)@.ins, id, old(self)@.outs[id as int]));
        }
    }

    /// Hands every packet waiting on input port `id`, then its terminator once it has
    /// closed, to the running operation of node `v`.
    fn forward_port(&mut self, v: usize, id: usize, actions: &mut Vec<Action>)
        requires
            old(self)@.wf(),
            id < old(self)@.ins.len(),
            no_done(old(actions)@),
        ensures
            final(self)@ == (TxModel {
                ins: old(self)@.ins.update(id as int, {
                    let d = old(self)@.ins[id as int].drain();
                    if d.done_pending() { PortModel { done_forwarded: true, ..d } } else { d }
                }),
                ..old(self)@
            }),
            final(self)@.wf(),
            old(self)@.grows_to(final(self)@),
            no_done(final(actions)@),
            forwarded(final(actions)@, v) == forwarded(old(actions)@, v) + handed(
                old(self)@.ins[id as int],
                old(self)@.graph.in_ports@[id as int].name@,
            ),
            emitted(final(actions)@) == emitted(old(actions)@),
            acts(final(actions)@) == acts(old(actions)@) + forwards(v, handed(old(self)@.ins[id as int], old(self)@.graph.in_ports@[id as int].name@)),
    {
        let ghost before = self.ins@;
        let ghost q0 = self@.ins[id as int].queue;
        let mut packets = self.ins[id].take_all();
        let ghost before2 = self.ins@;
        assert(before2.map_values(|b: PortBuffer| b@) =~= before.map_values(|b: PortBuffer| b@).update(
            id as int,
            before2[id as int]@,
        ));
        let ghost f0 = forwarded(actions@, v);
        let ghost n0 = q0.len();
        while packets.len() > 0
            invariant
                no_done(actions@),
                acts(actions@) == acts(old(actions)@) + forwards(v, q0.subrange(0, n0 - packets.len())),
                packets@.map_values(|p: Packet| p@) == q0.subrange(n0 - packets.len(), n0 as int),
                packets.len() <= n0,
                n0 == q0.len(),
                forwarded(actions@, v) == f0 + q0.subrange(0, n0 - packets.len()),
                emitted(actions@) == emitted(old(actions)@),
            decreases packets.len(),
        {
            let ghost k = n0 - packets.len();
            let ghost pk = packets@;
            assert(pk.map_values(|p: Packet| p@)[0] == pk[0]@);
            assert(q0.subrange(n0 - packets.len(), n0 as int)[0] == q0[k]);
            let p = packets.remove(0);
            assert(p@ == q0[k]);
            assert(packets@ =~= pk.drop_first());
            assert forall|i: int| 0 <= i < packets@.len() implies packets@.map_values(|p: Packet| p@)[i]
                == q0.subrange(n0 - packets.len(), n0 as int)[i] && #[trigger] packets@[i] == pk[i + 1] by {
                assert(packets@[i] == pk[i + 1]);
                assert(pk.map_values(|p: Packet| p@)[i + 1] == pk[i + 1]@);
            }
            proof {
                lemma_no_done_push(actions@, Action::Forward(v, p));
                lemma_acts_push(actions@, Action::Forward(v, p), v);
            }
            actions.push(Action::Forward(v, p));
            assert(q0.subrange(0, k + 1) =~= q0.subrange(0, k).push(q0[k]));
            assert(forwards(v, q0.subrange(0, k + 1)) =~= forwards(v, q0.subrange(0, k)).push(ActionModel::Forward(v, q0[k])));
            assert(packets@.map_values(|p: Packet| p@) =~= q0.subrange(n0 - packets.len(), n0 as int));
        }
        assert(q0.subrange(0, n0 as int) =~= q0);
        if self.ins[id].take_done() {
            assert(self.ins@.map_values(|b: PortBuffer| b@) =~= before2.map_values(|b: PortBuffer| b@).update(
                id as int,
                self.ins@[id as int]@,
            ));
            let done = Packet::done(self.schematic.in_ports[id].name.as_str());
            proof {
                lemma_no_done_push(actions@, Action::Forward(v, done));
                lemma_acts_push(actions@, Action::Forward(v, done), v);
            }
            actions.push(Action::Forward(v, done));
        }
        proof {
            assert(self@.ins =~= old(self)@.ins.update(id as int, {
                let d = old(self)@.ins[id as int].drain();
                if d.done_pending() { PortModel { done_forwarded: true, ..d } } else { d }
            }));
            assert(forwarded(actions@, v) =~= f0 + handed(old(self)@.ins[id as int], old(self)@.graph.in_ports@[id as int].name@));
            assert(acts(actions@) =~= acts(old(actions)@) + forwards(v, handed(old(self)@.ins[id as int], old(self)@.graph.in_ports@[id as int].name@)));
        }
    }
}


proof fn lemma_grows_trans(a: TxModel, b: TxModel, c: TxModel)
    requires
        a.grows_to(b),
        b.grows_to(c),
    ensures
        a.grows_to(c),
{
    assert forall|i: int| 0 <= i < a.ins.len() implies status_rank(#[trigger] a.ins[i].status) <= status_rank(
        c.ins[i].status,
    ) by {
        assert(status_rank(b.ins[i].status) <= status_rank(c.ins[i].status));
    }
    assert forall|i: int| 0 <= i < a.outs.len() implies status_rank(#[trigger] a.outs[i].status) <= status_rank(
        c.outs[i].status,
    ) by {
        assert(status_rank(b.outs[i].status) <= status_rank(c.outs[i].status));
    }
    assert forall|v: int| 0 <= v < a.started.len() && #[trigger] a.started[v] implies c.started[v] by {
        assert(b.started[v]);
    }
}

proof fn lemma_grows_refl(a: TxModel)
    ensures
        a.grows_to(a),
{
}

impl Transaction {
    /// Whether every input port of the output boundary is closed and empty.
    pub fn done(&self) -> (r: bool)
        requires
            self@.wf(),
        ensures
            r == outputs_done(self@.graph, self@.ins),
    {
        let out = self.schematic.nodes.len() - 1;
        let inputs = &self.schematic.nodes[out].inputs;
        let mut k: usize = 0;
        while k < inputs.len()
            invariant
                self@.wf(),
                out == self@.graph.nodes.len() - 1,
                inputs == self@.graph.nodes@[out as int].inputs,
                k <= inputs.len(),
                forall|j: int| 0 <= j < k ==> {
                    let id = #[trigger] inputs@[j] as int;
                    self@.ins[id].status == PortStatus::DoneClosed && self@.ins[id].queue.len() == 0
                },
            decreases inputs.len() - k,
        {
            let id = inputs[k];
            assert(self@.graph.nodes@[out as int].inputs@[k as int] == id);
            assert(self.ins@[id as int]@ == self@.ins[id as int]);
            if !(self.ins[id].status() == PortStatus::DoneClosed && self.ins[id].is_empty()) {
                return false;
            }
            k = k + 1;
        }
        true
    }

    /// Whether every input port of node `v` holds a packet or is closed.
    fn is_ready(&self, v: usize) -> (r: bool)
        requires
            self@.wf(),
            v < self@.graph.nodes.len(),
        ensures
            r == ready(self@.graph, self@.ins, v as int),
    {
        let inputs = &self.schematic.nodes[v].inputs;
        let mut k: usize = 0;
        while k < inputs.len()
            invariant
                self@.wf(),
                v < self@.graph.nodes.len(),
                inputs == self@.graph.nodes@[v as int].inputs,
                k <= inputs.len(),
                forall|j: int| 0 <= j < k ==> {
                    let id = #[trigger] inputs@[j] as int;
                    self@.ins[id].queue.len() > 0 || self@.ins[id].status == PortStatus::DoneClosed
                },
            decreases inputs.len() - k,
        {
            let id = inputs[k];
            assert(self@.graph.nodes@[v as int].inputs@[k as int] == id);
            assert(self.ins@[id as int]@ == self@.ins[id as int]);
            if self.ins[id].is_empty() && self.ins[id].status() != PortStatus::DoneClosed {
                return false;
            }
            k = k + 1;
        }
        true
    }

    /// Asks for the done event, once: later calls do nothing.
    pub fn emit_done(&mut self, actions: &mut Vec<Action>)
        requires
            old(self)@.wf(),
            no_done(old(actions)@),
        ensures
            final(self)@ == (TxModel { finished: true, ..old(self)@ }),
            final(self)@.wf(),
            old(self)@.grows_to(final(self)@),
            done_step(final(actions)@, old(self)@, final(self)@),
            old(actions)@.len() <= final(actions)@.len(),
            emitted(final(actions)@) == emitted(old(actions)@),
            acts(final(actions)@) == acts(old(actions)@) + if old(self)@.finished {
                Seq::empty()
            } else {
                seq![ActionModel::EmitDone]
            },
    {
        let ghost a0 = acts(actions@);
        if !self.finished {
            self.finished = true;
            proof { lemma_acts_push(actions@, Action::EmitDone, 0); }
            actions.push(Action::EmitDone);
            assert(actions@[actions@.len() - 1] is EmitDone);
            assert(acts(actions@) =~= a0 + seq![ActionModel::EmitDone]);
        } else {
            assert(acts(actions@) =~= a0 + Seq::<ActionModel>::empty());
        }
    }

    /// Data event on input port `id` of the output boundary: its packets, then its
    /// terminator once it has closed, go to the caller; once every output is closed and
    /// empty, the done event is asked for.
    pub fn handle_schematic_output(&mut self, id: usize, actions: &mut Vec<Action>)
        requires
            old(self)@.wf(),
            id < old(self)@.ins.len(),
            no_done(old(actions)@),
        ensures
            final(self)@.ins == old(self)@.ins.update(id as int, {
                let d = old(self)@.ins[id as int].drain();
                if d.done_pending() { PortModel { done_forwarded: true, ..d } } else { d }
            }),
            final(self)@.outs == old(self)@.outs,
            final(self)@.started == old(self)@.started,
            final(self)@.finished == (old(self)@.finished || outputs_done(final(self)@.graph, final(self)@.ins)),
            final(self)@.closed == old(self)@.closed,
            final(self)@.stats == old(self)@.stats,
            final(self)@.last_access == old(self)@.last_access,
            final(self)@.wf(),
            old(self)@.grows_to(final(self)@),
            done_step(final(actions)@, old(self)@, final(self)@),
            acts(final(actions)@) == acts(old(actions)@) + output_acts(old(self)@, id as int),
            emitted(final(actions)@) == emitted(old(actions)@) + if old(self)@.closed {
                Seq::empty()
            } else {
                handed(old(self)@.ins[id as int], old(self)@.graph.in_ports@[id as int].name@)
            },
    {
        let ghost before = self.ins@;
        let ghost q0 = self@.ins[id as int].queue;
        let mut packets = self.ins[id].take_all();
        let ghost before2 = self.ins@;
        assert(before2.map_values(|b: PortBuffer| b@) =~= before.map_values(|b: PortBuffer| b@).update(
            id as int,
            before2[id as int]@,
        ));
        let ghost e0 = emitted(actions@);
        let ghost n0 = q0.len();
        while packets.len() > 0
            invariant
                no_done(actions@),
                acts(actions@) == acts(old(actions)@) + to_caller(self@.closed, q0.subrange(0, n0 - packets.len())),
                packets@.map_values(|p: Packet| p@) == q0.subrange(n0 - packets.len(), n0 as int),
                packets.len() <= n0,
                n0 == q0.len(),
                self@.closed == old(self)@.closed,
                emitted(actions@) == e0 + if self@.closed {
                    Seq::empty()
                } else {
                    q0.subrange(0, n0 - packets.len())
                },
            decreases packets.len(),
        {
            let ghost k = n0 - packets.len();
            let ghost pk = packets@;
            assert(pk.map_values(|p: Packet| p@)[0] == pk[0]@);
            assert(q0.subrange(n0 - packets.len(), n0 as int)[0] == q0[k]);
            let p = packets.remove(0);
            assert(p@ == q0[k]);
            assert(packets@ =~= pk.drop_first());
            assert forall|i: int| 0 <= i < packets@.len() implies packets@.map_values(|p: Packet| p@)[i]
                == q0.subrange(n0 - packets.len(), n0 as int)[i] && #[trigger] packets@[i] == pk[i + 1] by {
                assert(packets@[i] == pk[i + 1]);
                assert(pk.map_values(|p: Packet| p@)[i + 1] == pk[i + 1]@);
            }
            let a = if self.closed { Action::Dropped(p) } else { Action::Emit(p) };
            proof {
                lemma_no_done_push(actions@, a);
                lemma_acts_push(actions@, a, 0);
            }
            actions.push(a);
            assert(q0.subrange(0, k + 1) =~= q0.subrange(0, k).push(q0[k]));
            assert(to_caller(self@.closed, q0.subrange(0, k + 1)) =~= to_caller(self@.closed, q0.subrange(0, k)).push(a@));
            assert(packets@.map_values(|p: Packet| p@) =~= q0.subrange(n0 - packets.len(), n0 as int));
        }
        assert(q0.subrange(0, n0 as int) =~= q0);
        if self.ins[id].take_done() {
            assert(self.ins@.map_values(|b: PortBuffer| b@) =~= before2.map_values(|b: PortBuffer| b@).update(
                id as int,
                self.ins@[id as int]@,
            ));
            if !self.closed {
                let done = Packet::done(self.schematic.in_ports[id].name.as_str());
                let a = Action::Emit(done);
                proof {
                    lemma_no_done_push(actions@, a);
                    lemma_acts_push(actions@, a, 0);
                }
                actions.push(a);
            }
        }
        proof {
            let expect = if old(self)@.closed {
                Seq::empty()
            } else {
                handed(old(self)@.ins[id as int], old(self)@.graph.in_ports@[id as int].name@)
            };
            assert(emitted(actions@) =~= emitted(old(actions)@) + expect);
            assert(acts(actions@) =~= acts(old(actions)@) + caller_acts(old(self)@, id as int));
        }
        let ghost a_mid = acts(actions@);
        proof {
            assert(self@.ins =~= old(self)@.ins.update(id as int, {
                let d = old(self)@.ins[id as int].drain();
                if d.done_pending() { PortModel { done_forwarded: true, ..d } } else { d }
            }));
        }
        let ghost mid = self@;
        if self.done() {
            self.emit_done(actions);
            proof { lemma_grows_trans(old(self)@, mid, self@); }
            assert(acts(actions@) =~= acts(old(actions)@) + output_acts(old(self)@, id as int));
        } else {
            assert(acts(actions@) =~= acts(old(actions)@) + output_acts(old(self)@, id as int));
            assert(!(exists|k: int| 0 <= k < actions@.len() && #[trigger] actions@[k] is EmitDone));
        }
    }

    /// Starts the operation of node `v` and hands it whatever waits on its inputs.
    fn start_instance(&mut self, v: usize, actions: &mut Vec<Action>)
        requires
            old(self)@.wf(),
            v < old(self)@.graph.nodes.len(),
            no_done(old(actions)@),
        ensures
            final(self)@ == (TxModel {
                ins: flushed_node(old(self)@.graph, old(self)@.ins, v as int),
                started: old(self)@.started.update(v as int, true),
                ..old(self)@
            }),
            final(self)@.started == old(self)@.started.update(v as int, true),
            final(self)@.outs == old(self)@.outs,
            final(self)@.finished == old(self)@.finished,
            final(self)@.wf(),
            old(self)@.grows_to(final(self)@),
            no_done(final(actions)@),
            emitted(final(actions)@) == emitted(old(actions)@),
            acts(final(actions)@) == acts(old(actions)@) + start_acts(old(self)@, v as int),
            forall|k: int| 0 <= k < final(self)@.graph.nodes@[v as int].inputs.len() ==>
                final(self)@.ins[#[trigger] final(self)@.graph.nodes@[v as int].inputs@[k] as int].queue.len() == 0,
    {
        self.started.set(v, true);
        proof { lemma_grows_refl(self@); }
        let node = &self.schematic.nodes[v];
        let invocation = Invocation {
            tx_id: self.id,
            node: v,
            namespace: copy_string(&node.namespace),
            operation: copy_string(&node.operation),
            seed: child_seed(self.seed, v as u64),
            timestamp: self.timestamp,
        };
        assert(invocation@ == invocation_for(old(self)@, v as int));
        proof { lemma_no_done_push(actions@, Action::Start(invocation)); }
        actions.push(Action::Start(invocation));
        let ghost a1 = acts(actions@);
        assert(a1 =~= acts(old(actions)@) + seq![ActionModel::Start(invocation_for(old(self)@, v as int))]);
        let ghost s1 = self@;
        assert(s1.ins =~= flushed_upto(s1.graph, s1.ins, v as int, 0));
        let n = self.schematic.nodes[v].inputs.len();
        let mut k: usize = 0;
        while k < n
            invariant
                s1.wf(),
                self@.wf(),
                s1.grows_to(self@),
                old(self)@.grows_to(s1),
                self@.started == s1.started,
                self@.outs == s1.outs,
                self@.finished == s1.finished,
                self@.graph == s1.graph,
                s1.started == old(self)@.started.update(v as int, true),
                s1.outs == old(self)@.outs,
                s1.finished == old(self)@.finished,
                s1 == (TxModel { started: old(self)@.started.update(v as int, true), ..old(self)@ }),
                self@ == (TxModel { ins: flushed_upto(s1.graph, s1.ins, v as int, k as int), ..s1 }),
                v < self@.graph.nodes.len(),
                n == self@.graph.nodes@[v as int].inputs.len(),
                k <= n,
                no_done(actions@),
                acts(actions@) == a1 + node_forwards(old(self)@.graph, old(self)@.ins, v as int, k as int),
                emitted(actions@) == emitted(old(actions)@),
                forall|j: int| 0 <= j < k ==> self@.ins[#[trigger] self@.graph.nodes@[v as int].inputs@[j] as int].queue.len() == 0,
            decreases n - k,
        {
            let id = self.schematic.nodes[v].inputs[k];
            let ghost s2 = self@;
            self.forward_port(v, id, actions);
            proof {
                lemma_grows_trans(s1, s2, self@);
                let g = s1.graph;
                assert(g.in_ports@[id as int].index == k);
                assert(g.in_ports@[id as int].node == v);
                assert forall|x: int| 0 <= x < s1.ins.len() && x != id as int && g.in_ports@[x].node == v implies
                    #[trigger] g.in_ports@[x].index != k by {
                    if g.in_ports@[x].index == k {
                        assert(g.nodes@[v as int].inputs@[k as int] == x);
                    }
                }
                assert(self@.ins =~= flushed_upto(g, s1.ins, v as int, k + 1));
                assert(s2.ins[id as int] == old(self)@.ins[id as int]);
                assert(acts(actions@) =~= a1 + node_forwards(old(self)@.graph, old(self)@.ins, v as int, k + 1));
                assert forall|j: int| 0 <= j < k + 1 implies self@.ins[#[trigger] self@.graph.nodes@[v as int].inputs@[j] as int].queue.len() == 0 by {
                    let jd = self@.graph.nodes@[v as int].inputs@[j] as int;
                    crate::port::lemma_drain_empty(s2.ins[id as int]);
                    if jd != id as int {
                        assert(self@.ins[jd] == s2.ins[jd]);
                    }
                }
            }
            k = k + 1;
        }
        proof {
            lemma_grows_trans(old(self)@, s1, self@);
            assert forall|x: int| 0 <= x < s1.ins.len() && s1.graph.in_ports@[x].node == v implies
                #[trigger] s1.graph.in_ports@[x].index < n by {}
            assert(self@.ins =~= flushed_node(s1.graph, old(self)@.ins, v as int));
            assert(acts(actions@) =~= acts(old(actions)@) + start_acts(old(self)@, v as int));
        }
    }
}


/// The message of the error sent when a transaction is found hung.
pub const HUNG_MESSAGE: &'static str = "Transaction hung";

/// What a hung transaction sends for the first `n` inputs of the output boundary: on
/// each, the hung error and then the terminator.
pub open spec fn hung_packets(g: Schematic, n: int) -> Seq<PacketModel>
    decreases n,
{
    if n <= 0 {
        Seq::empty()
    } else {
        let name = g.in_ports@[g.nodes@[g.nodes.len() - 1].inputs@[n - 1] as int].name@;
        hung_packets(g, n - 1) + seq![
            PacketModel { port: name, payload: PayloadModel::Error("Transaction hung"@) },
            done_model(name),
        ]
    }
}

proof fn lemma_done_push(m: PortModel, p: PacketModel)
    ensures
        p.is_done() ==> port_done(m.push(p)),
        port_done(m) ==> port_done(m.push(p)),
{
}

/// The output ports after every output port of node `v` whose position is below `upto`
/// has been offered an error with `message` and then its terminator.
pub open spec fn failed_upto(g: Schematic, outs: Seq<PortModel>, v: int, message: Seq<char>, upto: int) -> Seq<
    PortModel,
> {
    Seq::new(
        outs.len(),
        |id: int|
            if g.out_ports@[id].node == v && g.out_ports@[id].index < upto {
                outs[id].push(PacketModel { port: g.out_ports@[id].name@, payload: PayloadModel::Error(message) }).push(
                    done_model(g.out_ports@[id].name@),
                )
            } else {
                outs[id]
            },
    )
}

/// The output ports after every output port of node `v` has been offered an error with
/// `message` and then its terminator.
pub open spec fn failed(g: Schematic, outs: Seq<PortModel>, v: int, message: Seq<char>) -> Seq<PortModel> {
    Seq::new(
        outs.len(),
        |id: int|
            if g.out_ports@[id].node == v {
                outs[id].push(PacketModel { port: g.out_ports@[id].name@, payload: PayloadModel::Error(message) }).push(
                    done_model(g.out_ports@[id].name@),
                )
            } else {
                outs[id]
            },
    )
}

/// The output ports after every output port of the input boundary whose position is below
/// `upto` has been offered its terminator.
pub open spec fn closed_upto(g: Schematic, outs: Seq<PortModel>, upto: int) -> Seq<PortModel> {
    Seq::new(
        outs.len(),
        |id: int|
            if g.out_ports@[id].node == 0 && g.out_ports@[id].index < upto {
                outs[id].push(done_model(g.out_ports@[id].name@))
            } else {
                outs[id]
            },
    )
}

/// The output ports after every output port of the input boundary has been offered its
/// terminator.
pub open spec fn inputs_closed(g: Schematic, outs: Seq<PortModel>) -> Seq<PortModel> {
    Seq::new(
        outs.len(),
        |id: int| if g.out_ports@[id].node == 0 { outs[id].push(done_model(g.out_ports@[id].name@)) } else { outs[id] },
    )
}

/// The actions of offering, on each of the first `k` output ports of node `v` (in state
/// `outs`), an error with `message` and then its terminator: two data events for a port that
/// is not closed, else two reports of dropped packets.
pub open spec fn op_err_acts(g: Schematic, outs: Seq<PortModel>, v: int, message: Seq<char>, k: int) -> Seq<
    ActionModel,
>
    decreases k,
{
    if k <= 0 {
        Seq::empty()
    } else {
        let id = g.nodes@[v].outputs@[k - 1];
        let name = g.out_ports@[id as int].name@;
        op_err_acts(g, outs, v, message, k - 1) + if outs[id as int].status == PortStatus::DoneClosed {
            seq![
                ActionModel::Dropped(PacketModel { port: name, payload: PayloadModel::Error(message) }),
                ActionModel::Dropped(done_model(name)),
            ]
        } else {
            seq![ActionModel::Dispatch(PortDirection::Out, id), ActionModel::Dispatch(PortDirection::Out, id)]
        }
    }
}

/// The actions of offering its terminator to each of the first `k` output ports of the
/// input boundary (in state `outs`).
pub open spec fn close_acts(g: Schematic, outs: Seq<PortModel>, k: int) -> Seq<ActionModel>
    decreases k,
{
    if k <= 0 {
        Seq::empty()
    } else {
        let id = g.nodes@[0].outputs@[k - 1];
        close_acts(g, outs, k - 1) + seq![offer_action(outs[id as int], id, done_model(g.out_ports@[id as int].name@))]
    }
}

impl Transaction {
    /// The operation of node `v` failed: every output port of `v` gets an error with
    /// `message`, then its terminator.
    pub fn handle_op_err(&mut self, v: usize, message: &str, actions: &mut Vec<Action>)
        requires
            old(self)@.wf(),
            no_done(old(actions)@),
        ensures
            final(self)@.wf(),
            old(self)@.grows_to(final(self)@),
            no_done(final(actions)@),
            emitted(final(actions)@) == emitted(old(actions)@),
            acts(final(actions)@) == acts(old(actions)@) + if v < old(self)@.graph.nodes.len() {
                op_err_acts(old(self)@.graph, old(self)@.outs, v as int, message@, old(self)@.graph.nodes@[v as int].outputs.len() as int)
            } else {
                Seq::empty()
            },
            final(self)@ == (TxModel { outs: failed(old(self)@.graph, old(self)@.outs, v as int, message@), ..old(self)@ }),
            final(self)@.ins == old(self)@.ins,
            final(self)@.started == old(self)@.started,
            final(self)@.finished == old(self)@.finished,
            v < old(self)@.graph.nodes.len() ==> forall|k: int| 0 <= k < old(self)@.graph.nodes@[v as int].outputs.len()
                ==> port_done(final(self)@.outs[#[trigger] old(self)@.graph.nodes@[v as int].outputs@[k] as int]),
    {
        proof { lemma_grows_refl(self@); }
        if v >= self.schematic.nodes.len() {
            assert(self@.outs =~= failed(self@.graph, self@.outs, v as int, message@));
            assert(acts(actions@) =~= acts(old(actions)@) + Seq::<ActionModel>::empty());
            return;
        }
        assert(self@.outs =~= failed_upto(self@.graph, self@.outs, v as int, message@, 0));
        let n = self.schematic.nodes[v].outputs.len();
        let mut k: usize = 0;
        while k < n
            invariant
                self@.wf(),
                old(self)@.grows_to(self@),
                self@.ins == old(self)@.ins,
                self@.started == old(self)@.started,
                self@.finished == old(self)@.finished,
                self@.graph == old(self)@.graph,
                v < self@.graph.nodes.len(),
                n == self@.graph.nodes@[v as int].outputs.len(),
                k <= n,
                no_done(actions@),
                acts(actions@) == acts(old(actions)@) + op_err_acts(old(self)@.graph, old(self)@.outs, v as int, message@, k as int),
                self@ == (TxModel { outs: failed_upto(old(self)@.graph, old(self)@.outs, v as int, message@, k as int), ..old(self)@ }),
                emitted(actions@) == emitted(old(actions)@),
                forall|j: int| 0 <= j < k ==> port_done(self@.outs[#[trigger] self@.graph.nodes@[v as int].outputs@[j] as int]),
            decreases n - k,
        {
            let id = self.schematic.nodes[v].outputs[k];
            let err = Packet::error(self.schematic.out_ports[id].name.as_str(), message);
            let done = Packet::done(self.schematic.out_ports[id].name.as_str());
            let ghost s0 = self@;
            self.accept_output(id, err, actions);
            let ghost s1 = self@;
            self.accept_output(id, done, actions);
            proof {
                lemma_grows_trans(s0, s1, self@);
                lemma_grows_trans(old(self)@, s0, self@);
                lemma_done_push(s1.outs[id as int], done@);
                let g = old(self)@.graph;
                assert(g.out_ports@[id as int].index == k);
                assert forall|x: int| 0 <= x < s0.outs.len() && x != id as int && g.out_ports@[x].node == v implies
                    #[trigger] g.out_ports@[x].index != k by {
                    if g.out_ports@[x].index == k {
                        assert(g.nodes@[v as int].outputs@[k as int] == x);
                    }
                }
                assert(self@.outs =~= failed_upto(g, old(self)@.outs, v as int, message@, k + 1));
                assert(s0.outs[id as int] == old(self)@.outs[id as int]);
                assert(acts(actions@) =~= acts(old(actions)@) + op_err_acts(g, old(self)@.outs, v as int, message@, k + 1));
                assert forall|j: int| 0 <= j < k + 1 implies port_done(self@.outs[#[trigger] self@.graph.nodes@[v as int].outputs@[j] as int]) by {
                    let jd = self@.graph.nodes@[v as int].outputs@[j] as int;
                    if jd != id as int {
                        assert(self@.outs[jd] == s0.outs[jd]);
                    } else if j < k {
                    }
                }
            }
            k = k + 1;
        }
        proof {
            let g = old(self)@.graph;
            assert forall|x: int| 0 <= x < old(self)@.outs.len() && g.out_ports@[x].node == v implies
                #[trigger] g.out_ports@[x].index < n by {}
            assert(self@.outs =~= failed(g, old(self)@.outs, v as int, message@));
        }
    }

    /// The caller's stream has ended: every schematic input gets its terminator.
    pub fn close_inputs(&mut self, actions: &mut Vec<Action>)
        requires
            old(self)@.wf(),
            no_done(old(actions)@),
        ensures
            final(self)@.wf(),
            old(self)@.grows_to(final(self)@),
            no_done(final(actions)@),
            emitted(final(actions)@) == emitted(old(actions)@),
            acts(final(actions)@) == acts(old(actions)@) + close_acts(old(self)@.graph, old(self)@.outs, old(self)@.graph.nodes@[0].outputs.len() as int),
            final(self)@ == (TxModel { outs: inputs_closed(old(self)@.graph, old(self)@.outs), ..old(self)@ }),
            final(self)@.ins == old(self)@.ins,
            final(self)@.started == old(self)@.started,
            final(self)@.finished == old(self)@.finished,
            forall|k: int| 0 <= k < old(self)@.graph.nodes@[0].outputs.len()
                ==> port_done(final(self)@.outs[#[trigger] old(self)@.graph.nodes@[0].outputs@[k] as int]),
    {
        proof { lemma_grows_refl(self@); }
        assert(self@.outs =~= closed_upto(self@.graph, self@.outs, 0));
        let n = self.schematic.nodes[0].outputs.len();
        let mut k: usize = 0;
        while k < n
            invariant
                self@.wf(),
                old(self)@.grows_to(self@),
                self@.ins == old(self)@.ins,
                self@.started == old(self)@.started,
                self@.finished == old(self)@.finished,
                self@.graph == old(self)@.graph,
                n == self@.graph.nodes@[0].outputs.len(),
                k <= n,
                no_done(actions@),
                acts(actions@) == acts(old(actions)@) + close_acts(old(self)@.graph, old(self)@.outs, k as int),
                self@ == (TxModel { outs: closed_upto(old(self)@.graph, old(self)@.outs, k as int), ..old(self)@ }),
                emitted(actions@) == emitted(old(actions)@),
                forall|j: int| 0 <= j < k ==> port_done(self@.outs[#[trigger] self@.graph.nodes@[0].outputs@[j] as int]),
            decreases n - k,
        {
            let id = self.schematic.nodes[0].outputs[k];
            let done = Packet::done(self.schematic.out_ports[id].name.as_str());
            let ghost s0 = self@;
            self.accept_output(id, done, actions);
            proof {
                lemma_grows_trans(old(self)@, s0, self@);
                lemma_done_push(s0.outs[id as int], done@);
                let g = old(self)@.graph;
                assert(g.out_ports@[id as int].index == k);
                assert forall|x: int| 0 <= x < s0.outs.len() && x != id as int && g.out_ports@[x].node == 0 implies
                    #[trigger] g.out_ports@[x].index != k by {
                    if g.out_ports@[x].index == k {
                        assert(g.nodes@[0].outputs@[k as int] == x);
                    }
                }
                assert(self@.outs =~= closed_upto(g, old(self)@.outs, k + 1));
                assert(s0.outs[id as int] == old(self)@.outs[id as int]);
                assert(acts(actions@) =~= acts(old(actions)@) + close_acts(g, old(self)@.outs, k + 1));
                assert forall|j: int| 0 <= j < k + 1 implies port_done(self@.outs[#[trigger] self@.graph.nodes@[0].outputs@[j] as int]) by {
                    let jd = self@.graph.nodes@[0].outputs@[j] as int;
                    if jd != id as int {
                        assert(self@.outs[jd] == s0.outs[jd]);
                    } else if j < k {
                        lemma_done_push(s0.outs[id as int], done@);
                    }
                }
            }
            k = k + 1;
        }
        proof {
            let g = old(self)@.graph;
            assert forall|x: int| 0 <= x < old(self)@.outs.len() && g.out_ports@[x].node == 0 implies
                #[trigger] g.out_ports@[x].index < n by {}
            assert(self@.outs =~= inputs_closed(g, old(self)@.outs));
        }
    }

    /// Data event on input port `id`: packets for the output boundary go to the caller;
    /// packets for a running operation are handed to it; an operation that is not running
    /// is started once every input holds a packet or is closed.
    pub fn handle_input_data(&mut self, id: usize, actions: &mut Vec<Action>)
        requires
            old(self)@.wf(),
            id < old(self)@.ins.len(),
            no_done(old(actions)@),
        ensures
            final(self)@ == input_data_state(old(self)@, id as int),
            acts(final(actions)@) == acts(old(actions)@) + input_data_acts(old(self)@, id as int),
            final(self)@.wf(),
            old(self)@.grows_to(final(self)@),
            done_step(final(actions)@, old(self)@, final(self)@),
            final(self)@.outs == old(self)@.outs,
            forall|u: int| 0 <= u < old(self)@.started.len() && !old(self)@.started[u] && #[trigger] final(self)@.started[u]
                ==> u == old(self)@.graph.in_ports@[id as int].node && ready(old(self)@.graph, old(self)@.ins, u),
            ({
                let v = old(self)@.graph.in_ports@[id as int].node as int;
                &&& (v == old(self)@.graph.nodes.len() - 1 || final(self)@.started[v]) ==> final(self)@.ins[id as int].queue.len() == 0
                &&& (v != old(self)@.graph.nodes.len() - 1 && !old(self)@.started[v] && !ready(old(self)@.graph, old(self)@.ins, v))
                    ==> final(self)@ == old(self)@
                &&& v != old(self)@.graph.nodes.len() - 1 ==> final(self)@.finished == old(self)@.finished
                &&& v != old(self)@.graph.nodes.len() - 1 ==> emitted(final(actions)@) == emitted(old(actions)@)
                &&& v == old(self)@.graph.nodes.len() - 1 ==> emitted(final(actions)@) == emitted(old(actions)@) + if old(self)@.closed {
                    Seq::empty()
                } else {
                    handed(old(self)@.ins[id as int], old(self)@.graph.in_ports@[id as int].name@)
                }
                &&& (v != old(self)@.graph.nodes.len() - 1 && old(self)@.started[v]) ==> forwarded(final(actions)@, v as usize)
                    == forwarded(old(actions)@, v as usize) + handed(old(self)@.ins[id as int], old(self)@.graph.in_ports@[id as int].name@)
            }),
    {
        let v = self.schematic.in_ports[id].node;
        if v == self.schematic.nodes.len() - 1 {
            self.handle_schematic_output(id, actions);
            proof { crate::port::lemma_drain_empty(old(self)@.ins[id as int]); }
        } else if self.started[v] {
            self.forward_port(v, id, actions);
            proof { crate::port::lemma_drain_empty(old(self)@.ins[id as int]); }
            assert(!(exists|k: int| 0 <= k < actions@.len() && #[trigger] actions@[k] is EmitDone));
        } else if self.is_ready(v) {
            self.start_instance(v, actions);
            assert(!(exists|k: int| 0 <= k < actions@.len() && #[trigger] actions@[k] is EmitDone));
        } else {
            proof { lemma_grows_refl(self@); }
            assert(!(exists|k: int| 0 <= k < actions@.len() && #[trigger] actions@[k] is EmitDone));
            assert(acts(actions@) =~= acts(old(actions)@) + Seq::<ActionModel>::empty());
        }
    }

    /// The done event has arrived: the transaction is finished and the response stream is
    /// closed, so packets still bound for the caller are dropped.
    pub fn finish(&mut self)
        requires
            old(self)@.wf(),
        ensures
            final(self)@ == (TxModel {
                finished: true,
                closed: true,
                stats: old(self)@.stats.ended("execution"@, old(self)@.last_access),
                ..old(self)@
            }),
            final(self)@.wf(),
            old(self)@.grows_to(final(self)@),
    {
        self.finished = true;
        self.closed = true;
        let at = self.last_access;
        self.stats.end("execution", at);
    }
}


/// The mathematical value of an [`Event`].
pub enum EventModel {
    Input(PacketModel),
    InputClosed,
    Output(usize, PacketModel),
    Data(PortDirection, usize),
    OpError(usize, Seq<char>),
    Done,
}

impl View for Event {
    type V = EventModel;

    open spec fn view(&self) -> EventModel {
        match self {
            Event::Input(p) => EventModel::Input(p@),
            Event::InputClosed => EventModel::InputClosed,
            Event::Output(v, p) => EventModel::Output(*v, p@),
            Event::Data(d, id) => EventModel::Data(*d, *id),
            Event::OpError(v, m) => EventModel::OpError(*v, m@),
            Event::Done => EventModel::Done,
        }
    }
}

/// The state after packet `p` is offered to the output port of node `v` named as `p`'s
/// port, if there is one.
pub open spec fn offered_named(s: TxModel, v: int, p: PacketModel) -> TxModel {
    let g = s.graph;
    if 0 <= v < g.nodes.len() && named_output(g, v, p.port) is Some {
        TxModel { outs: offered(s.outs, g.nodes@[v].outputs@[named_output(g, v, p.port)->Some_0] as int, p), ..s }
    } else {
        s
    }
}

/// The state of a transaction after it has handled event `e` in state `s`.
pub open spec fn next_state(s: TxModel, e: EventModel) -> TxModel {
    match e {
        EventModel::Input(p) => if p.is_noop() {
            s
        } else {
            offered_named(s, 0, p)
        },
        EventModel::InputClosed => TxModel { outs: inputs_closed(s.graph, s.outs), ..s },
        EventModel::Output(v, p) => offered_named(s, v as int, p),
        EventModel::Data(PortDirection::Out, id) => if id < s.outs.len() {
            TxModel {
                outs: s.outs.update(id as int, taken_out(s.outs[id as int])),
                ins: propagated(s.graph, s.ins, id, s.outs[id as int]),
                ..s
            }
        } else {
            s
        },
        EventModel::Data(PortDirection::In, id) => if id < s.ins.len() {
            input_data_state(s, id as int)
        } else {
            s
        },
        EventModel::OpError(v, m) => TxModel { outs: failed(s.graph, s.outs, v as int, m), ..s },
        EventModel::Done => TxModel { finished: true, closed: true, stats: s.stats.ended("execution"@, s.last_access), ..s },
    }
}

/// The actions a transaction in state `s` asks for when it handles event `e`.
pub open spec fn next_actions(s: TxModel, e: EventModel) -> Seq<ActionModel> {
    let g = s.graph;
    match e {
        EventModel::Input(p) => if p.is_noop() {
            Seq::empty()
        } else {
            offered_actions(s, 0, p)
        },
        EventModel::InputClosed => close_acts(g, s.outs, g.nodes@[0].outputs.len() as int),
        EventModel::Output(v, p) => offered_actions(s, v as int, p),
        EventModel::Data(PortDirection::Out, id) => if id < s.outs.len() {
            propagate_acts(g, s.ins, id, s.outs[id as int])
        } else {
            Seq::empty()
        },
        EventModel::Data(PortDirection::In, id) => if id < s.ins.len() {
            input_data_acts(s, id as int)
        } else {
            Seq::empty()
        },
        EventModel::OpError(v, m) => if v < g.nodes.len() {
            op_err_acts(g, s.outs, v as int, m, g.nodes@[v as int].outputs.len() as int)
        } else {
            Seq::empty()
        },
        EventModel::Done => Seq::empty(),
    }
}

/// What a transaction in state `s` sends to the caller when it handles event `e`: only a
/// data event on an input of the output boundary sends anything, and only while the
/// response stream is open.
pub open spec fn next_emitted(s: TxModel, e: EventModel) -> Seq<PacketModel> {
    match e {
        EventModel::Data(PortDirection::In, id) => if id < s.ins.len() && s.graph.in_ports@[id as int].node
            == s.graph.nodes.len() - 1 && !s.closed {
            handed(s.ins[id as int], s.graph.in_ports@[id as int].name@)
        } else {
            Seq::empty()
        },
        _ => Seq::empty(),
    }
}

/// What default-only edge `e` delivers: its default's value for an empty message, under
/// the downstream port's name.
pub open spec fn default_packet(g: Schematic, e: int) -> PacketModel {
    PacketModel {
        port: g.in_ports@[g.edges@[e].to as int].name@,
        payload: PayloadModel::Json(eval_default(g.edges@[e].default->Some_0@, Seq::empty())),
    }
}

/// The input ports after the default-only edges below `upto` have delivered their value
/// and then the terminator.
pub open spec fn fed_upto(g: Schematic, ins: Seq<PortModel>, upto: int) -> Seq<PortModel> {
    Seq::new(
        ins.len(),
        |id: int|
            match feeding_edge(g, id) {
                Some(e) => if e < upto && g.edges@[e].from is None && g.edges@[e].default is Some {
                    ins[id].push(default_packet(g, e)).push(done_model(g.in_ports@[id].name@))
                } else {
                    ins[id]
                },
                None => ins[id],
            },
    )
}

/// The state after a transaction has started: the operations of nodes without inputs run,
/// and every default-only edge has delivered its value and then the terminator.
pub open spec fn start_state(s: TxModel) -> TxModel {
    let g = s.graph;
    TxModel {
        started: Seq::new(
            s.started.len(),
            |v: int| s.started[v] || (0 < v < g.nodes.len() - 1 && g.nodes@[v].inputs.len() == 0),
        ),
        ins: fed_upto(g, s.ins, g.edges.len() as int),
        stats: s.stats.marked("start"@, s.last_access).started("execution"@, s.last_access).marked(
            "start_done"@,
            s.last_access,
        ),
        ..s
    }
}

proof fn lemma_fed_step(g: Schematic, ins: Seq<PortModel>, e: int)
    requires
        g.wf(),
        0 <= e < g.edges.len(),
        ins.len() == g.in_ports.len(),
    ensures
        (g.edges@[e].from is None && g.edges@[e].default is Some) ==> fed_upto(g, ins, e + 1) == fed_upto(g, ins, e).update(
            g.edges@[e].to as int,
            fed_upto(g, ins, e)[g.edges@[e].to as int].push(default_packet(g, e)).push(
                done_model(g.in_ports@[g.edges@[e].to as int].name@),
            ),
        ),
        !(g.edges@[e].from is None && g.edges@[e].default is Some) ==> fed_upto(g, ins, e + 1) == fed_upto(g, ins, e),
        fed_upto(g, ins, e)[g.edges@[e].to as int] == ins[g.edges@[e].to as int],
{
    lemma_feeding_edge(g, e);
    let to = g.edges@[e].to as int;
    assert forall|id: int| 0 <= id < ins.len() && id != to implies #[trigger] feeding_edge(g, id) != Some(e) by {
        if feeding_edge(g, id) == Some(e) {
            let c = choose|c: int| 0 <= c < g.edges.len() && g.edges@[c].to == id;
            assert(g.edges@[c].to == id);
        }
    }
    if g.edges@[e].from is None && g.edges@[e].default is Some {
        assert(fed_upto(g, ins, e + 1) =~= fed_upto(g, ins, e).update(
            to,
            fed_upto(g, ins, e)[to].push(default_packet(g, e)).push(done_model(g.in_ports@[to].name@)),
        ));
    } else {
        assert(fed_upto(g, ins, e + 1) =~= fed_upto(g, ins, e));
    }
}

/// The data events of the default-only edges below `k`, in edge order.
pub open spec fn feed_acts(g: Schematic, k: int) -> Seq<ActionModel>
    decreases k,
{
    if k <= 0 {
        Seq::empty()
    } else {
        feed_acts(g, k - 1) + if g.edges@[k - 1].from is None && g.edges@[k - 1].default is Some {
            seq![ActionModel::Dispatch(PortDirection::In, g.edges@[k - 1].to)]
        } else {
            Seq::empty()
        }
    }
}

/// The start actions for the nodes below `w` (from node 1) that have no inputs and are not
/// running yet in state `s`, in node order.
pub open spec fn boot_acts(s: TxModel, w: int) -> Seq<ActionModel>
    decreases w,
{
    if w <= 1 {
        Seq::empty()
    } else {
        let u = w - 1;
        boot_acts(s, u) + if !s.started[u] && s.graph.nodes@[u].inputs.len() == 0 {
            seq![ActionModel::Start(invocation_for(s, u))]
        } else {
            Seq::empty()
        }
    }
}

impl Transaction {
    /// Offers the value of every default-only edge, then its terminator, to the edge's
    /// downstream port.
    fn feed_defaults(&mut self, actions: &mut Vec<Action>)
        requires
            old(self)@.wf(),
            no_done(old(actions)@),
        ensures
            final(self)@.wf(),
            old(self)@.grows_to(final(self)@),
            no_done(final(actions)@),
            emitted(final(actions)@) == emitted(old(actions)@),
            acts(final(actions)@) == acts(old(actions)@) + feed_acts(old(self)@.graph, old(self)@.graph.edges.len() as int),
            final(self)@ == (TxModel { ins: fed_upto(old(self)@.graph, old(self)@.ins, old(self)@.graph.edges.len() as int), ..old(self)@ }),
            final(self)@.outs == old(self)@.outs,
            final(self)@.started == old(self)@.started,
            final(self)@.finished == old(self)@.finished,
            forall|j: int| 0 <= j < final(self)@.graph.edges.len() && (#[trigger] final(self)@.graph.edges@[j]).from is None
                ==> port_done(final(self)@.ins[final(self)@.graph.edges@[j].to as int]),
    {
        proof { lemma_grows_refl(self@); }
        assert(self@.ins =~= fed_upto(self@.graph, self@.ins, 0));
        let mut e: usize = 0;
        while e < self.schematic.edges.len()
            invariant
                self@.wf(),
                old(self)@.grows_to(self@),
                self@.outs == old(self)@.outs,
                self@.started == old(self)@.started,
                self@.finished == old(self)@.finished,
                self@.graph == old(self)@.graph,
                e <= self@.graph.edges.len(),
                no_done(actions@),
                acts(actions@) == acts(old(actions)@) + feed_acts(old(self)@.graph, e as int),
                self@ == (TxModel { ins: fed_upto(old(self)@.graph, old(self)@.ins, e as int), ..old(self)@ }),
                emitted(actions@) == emitted(old(actions)@),
                forall|j: int| 0 <= j < e && (#[trigger] self@.graph.edges@[j]).from is None
                    ==> port_done(self@.ins[self@.graph.edges@[j].to as int]),
            decreases self@.graph.edges.len() - e,
        {
            let ghost s0 = self@;
            proof { lemma_fed_step(old(self)@.graph, old(self)@.ins, e as int); }
            let edge = &self.schematic.edges[e];
            if edge.from.is_none() {
                if let Some(d) = &edge.default {
                    let to = edge.to;
                    let name = self.schematic.in_ports[to].name.as_str();
                    proof { assert(""@ =~= Seq::<char>::empty()) by { reveal_strlit(""); } }
                    let value = Packet { port: name.to_owned(), payload: Payload::Json(d.evaluate("")) };
                    let done = Packet::done(name);
                    let ghost before = self.ins@;
                    proof {
                        lemma_push_rank(self@.ins[to as int], value@);
                        lemma_push_rank(self@.ins[to as int].push(value@), done@);
                    }
                    self.ins[to].buffer(value);
                    self.ins[to].buffer(done);
                    assert(self.ins@.map_values(|b: PortBuffer| b@) =~= before.map_values(|b: PortBuffer| b@).update(
                        to as int,
                        self.ins@[to as int]@,
                    ));
                    proof { lemma_no_done_push(actions@, Action::Dispatch(PortDirection::In, to)); }
                    actions.push(Action::Dispatch(PortDirection::In, to));
                    proof {
                        lemma_done_push(s0.ins[to as int].push(value@), done@);
                        assert forall|j: int| 0 <= j < e + 1 && (#[trigger] self@.graph.edges@[j]).from is None
                            implies port_done(self@.ins[self@.graph.edges@[j].to as int]) by {
                            let t = self@.graph.edges@[j].to as int;
                            if t != to as int {
                                assert(self@.ins[t] == s0.ins[t]);
                            }
                        }
                    }
                }
            }
            proof {
                assert(acts(actions@) =~= acts(old(actions)@) + feed_acts(old(self)@.graph, e + 1));
            }
            e = e + 1;
        }
    }

    /// Starts the transaction: the operations of nodes without inputs are started, and
    /// every default-only edge delivers its value.
    pub fn start(&mut self) -> (r: Vec<Action>)
        requires
            old(self)@.wf(),
        ensures
            final(self)@ == start_state(old(self)@),
            acts(r@) == boot_acts(old(self)@, old(self)@.graph.nodes.len() - 1) + feed_acts(old(self)@.graph, old(self)@.graph.edges.len() as int),
            final(self)@.wf(),
            old(self)@.grows_to(final(self)@),
            no_done(r@),
            final(self)@.finished == old(self)@.finished,
            forall|v: int| 0 < v < final(self)@.graph.nodes.len() - 1 && (#[trigger] final(self)@.graph.nodes@[v]).inputs.len() == 0
                ==> final(self)@.started[v],
            forall|v: int| 0 <= v < final(self)@.started.len() && #[trigger] final(self)@.started[v] && !old(self)@.started[v]
                ==> 0 < v < final(self)@.graph.nodes.len() - 1 && final(self)@.graph.nodes@[v].inputs.len() == 0,
            forall|j: int| 0 <= j < final(self)@.graph.edges.len() && (#[trigger] final(self)@.graph.edges@[j]).from is None
                ==> port_done(final(self)@.ins[final(self)@.graph.edges@[j].to as int]),
    {
        let mut actions: Vec<Action> = Vec::new();
        proof { lemma_grows_refl(self@); }
        let n = self.schematic.nodes.len();
        proof {
            assert(old(self)@.started =~= Seq::new(
                old(self)@.started.len(),
                |u: int| old(self)@.started[u] || (0 < u < 1 && old(self)@.graph.nodes@[u].inputs.len() == 0),
            ));
        }
        assert(acts(actions@) =~= boot_acts(old(self)@, 1));
        let mut v: usize = 1;
        while v + 1 < n
            invariant
                self@.wf(),
                old(self)@.grows_to(self@),
                self@.graph == old(self)@.graph,
                self@.finished == old(self)@.finished,
                n == self@.graph.nodes.len(),
                1 <= v < n,
                no_done(actions@),
                acts(actions@) == boot_acts(old(self)@, v as int),
                self@ == (TxModel {
                    started: Seq::new(
                        old(self)@.started.len(),
                        |u: int| old(self)@.started[u] || (0 < u < v && old(self)@.graph.nodes@[u].inputs.len() == 0),
                    ),
                    ..old(self)@
                }),
                forall|u: int| 0 < u < v && (#[trigger] self@.graph.nodes@[u]).inputs.len() == 0 ==> self@.started[u],
                forall|u: int| 0 <= u < self@.started.len() && #[trigger] self@.started[u] && !old(self)@.started[u]
                    ==> 0 < u < v && self@.graph.nodes@[u].inputs.len() == 0,
            decreases n - v,
        {
            if !self.started[v] && self.schematic.nodes[v].inputs.len() == 0 {
                let ghost s0 = self@;
                self.start_instance(v, &mut actions);
                proof {
                    lemma_grows_trans(old(self)@, s0, self@);
                    assert forall|x: int| 0 <= x < s0.ins.len() implies #[trigger] s0.graph.in_ports@[x].node != v by {
                        let p = s0.graph.in_ports@[x];
                        assert(p.index < s0.graph.nodes@[p.node as int].inputs.len());
                    }
                    assert(flushed_node(s0.graph, s0.ins, v as int) =~= s0.ins);
                    assert(node_forwards(s0.graph, s0.ins, v as int, 0) =~= Seq::<ActionModel>::empty());
                    assert(invocation_for(s0, v as int) == invocation_for(old(self)@, v as int));
                    assert(s0.started[v as int] == old(self)@.started[v as int]);
                }
            }
            proof {
                assert(acts(actions@) =~= boot_acts(old(self)@, v + 1));
            }
            proof {
                assert(self@.started =~= Seq::new(
                    old(self)@.started.len(),
                    |u: int| old(self)@.started[u] || (0 < u < v + 1 && old(self)@.graph.nodes@[u].inputs.len() == 0),
                ));
            }
            v = v + 1;
        }
        let ghost s1 = self@;
        let ghost b = acts(actions@);
        self.feed_defaults(&mut actions);
        proof { lemma_grows_trans(old(self)@, s1, self@); }
        let ghost s2 = self@;
        let at = self.last_access;
        self.stats.mark("start", at);
        self.stats.start("execution", at);
        self.stats.mark("start_done", at);
        proof {
            reveal_strlit("start");
            reveal_strlit("execution");
            reveal_strlit("start_done");
            assert(self@ == (TxModel { stats: self@.stats, ..s2 }));
        }
        actions
    }

    /// Checks whether the transaction is hung: if its output is not complete and no event
    /// has come for `hang_after` milliseconds up to `now`, every output gets an error and
    /// its terminator, and the done event is asked for.
    pub fn check_stalled(&mut self, now: u64, hang_after: u64) -> (r: (TxState, Vec<Action>))
        requires
            old(self)@.wf(),
        ensures
            final(self)@.wf(),
            old(self)@.grows_to(final(self)@),
            done_step(r.1@, old(self)@, final(self)@),
            r.0 == TxState::OutputComplete <==> outputs_done(old(self)@.graph, old(self)@.ins),
            r.0 == TxState::Hung <==> (!outputs_done(old(self)@.graph, old(self)@.ins)
                && now >= old(self)@.last_access && now - old(self)@.last_access >= hang_after),
            r.0 == TxState::Hung ==> final(self)@.finished,
            r.0 == TxState::Hung ==> emitted(r.1@) == hung_packets(
                old(self)@.graph,
                old(self)@.graph.nodes@[old(self)@.graph.nodes.len() - 1].inputs.len() as int,
            ),
            r.0 != TxState::Hung ==> final(self)@ == old(self)@ && r.1@.len() == 0,
    {
        let mut actions: Vec<Action> = Vec::new();
        if self.done() {
            return (TxState::OutputComplete, actions);
        }
        if now < self.last_access || now - self.last_access < hang_after {
            return (TxState::OutputPending, actions);
        }
        let out = self.schematic.nodes.len() - 1;
        let n = self.schematic.nodes[out].inputs.len();
        let mut k: usize = 0;
        assert(emitted(actions@) =~= Seq::<PacketModel>::empty());
        while k < n
            invariant
                self@ == old(self)@,
                self@.wf(),
                out == self@.graph.nodes.len() - 1,
                n == self@.graph.nodes@[out as int].inputs.len(),
                k <= n,
                no_done(actions@),
                emitted(actions@) == hung_packets(self@.graph, k as int),
            decreases n - k,
        {
            let id = self.schematic.nodes[out].inputs[k];
            let name = self.schematic.in_ports[id].name.as_str();
            let err = Packet::error(name, HUNG_MESSAGE);
            proof {
                reveal_strlit("Transaction hung");
                lemma_no_done_push(actions@, Action::Emit(err));
                lemma_acts_push(actions@, Action::Emit(err), 0);
            }
            actions.push(Action::Emit(err));
            let done = Packet::done(name);
            proof {
                lemma_no_done_push(actions@, Action::Emit(done));
                lemma_acts_push(actions@, Action::Emit(done), 0);
            }
            actions.push(Action::Emit(done));
            proof {
                assert(emitted(actions@) =~= hung_packets(self@.graph, k + 1));
            }
            k = k + 1;
        }
        self.emit_done(&mut actions);
        (TxState::Hung, actions)
    }

    /// Handles one event from the interpreter channel and returns what its driver must do.
    pub fn handle_event(&mut self, event: Event) -> (r: Vec<Action>)
        requires
            old(self)@.wf(),
        ensures
            final(self)@.wf(),
            old(self)@.grows_to(final(self)@),
            done_step(r@, old(self)@, final(self)@),
            final(self)@ == next_state(old(self)@, event@),
            acts(r@) == next_actions(old(self)@, event@),
            emitted(r@) == next_emitted(old(self)@, event@),
            match event {
                Event::Data(PortDirection::Out, id) => id < old(self)@.outs.len() ==> final(self)@ == (TxModel {
                    outs: old(self)@.outs.update(id as int, taken_out(old(self)@.outs[id as int])),
                    ins: propagated(old(self)@.graph, old(self)@.ins, id, old(self)@.outs[id as int]),
                    ..old(self)@
                }),
                Event::Data(PortDirection::In, id) => id < old(self)@.ins.len() ==> {
                    let v = old(self)@.graph.in_ports@[id as int].node;
                    let name = old(self)@.graph.in_ports@[id as int].name@;
                    &&& forall|u: int|
                        0 <= u < old(self)@.started.len() && !old(self)@.started[u] && #[trigger] final(self)@.started[u]
                        ==> u == v && ready(old(self)@.graph, old(self)@.ins, u)
                    &&& v == old(self)@.graph.nodes.len() - 1 ==> emitted(r@) == if old(self)@.closed {
                        Seq::empty()
                    } else {
                        handed(old(self)@.ins[id as int], name)
                    }
                    &&& (v != old(self)@.graph.nodes.len() - 1 && old(self)@.started[v as int]) ==> forwarded(r@, v) == handed(
                        old(self)@.ins[id as int],
                        name,
                    )
                },
                Event::Input(p) => {
                    &&& final(self)@.ins == old(self)@.ins
                    &&& (!p@.is_noop() && named_output(old(self)@.graph, 0, p@.port) is Some ==> final(self)@ == (TxModel {
                        outs: offered(
                            old(self)@.outs,
                            old(self)@.graph.nodes@[0].outputs@[named_output(old(self)@.graph, 0, p@.port)->Some_0] as int,
                            p@,
                        ),
                        ..old(self)@
                    }))
                    &&& (p@.is_noop() || named_output(old(self)@.graph, 0, p@.port) is None ==> final(self)@ == old(self)@)
                },
                Event::Output(v, p) => {
                    &&& (v < old(self)@.graph.nodes.len() && named_output(old(self)@.graph, v as int, p@.port) is Some ==> final(self)@ == (TxModel {
                        outs: offered(
                            old(self)@.outs,
                            old(self)@.graph.nodes@[v as int].outputs@[named_output(old(self)@.graph, v as int, p@.port)->Some_0] as int,
                            p@,
                        ),
                        ..old(self)@
                    }))
                    &&& (!(v < old(self)@.graph.nodes.len() && named_output(old(self)@.graph, v as int, p@.port) is Some) ==> final(self)@ == old(self)@)
                },
                Event::OpError(v, _) => {
                    &&& final(self)@.ins == old(self)@.ins
                    &&& final(self)@.started == old(self)@.started
                    &&& final(self)@.finished == old(self)@.finished
                    &&& (v < old(self)@.graph.nodes.len() ==> forall|k: int|
                        0 <= k < old(self)@.graph.nodes@[v as int].outputs.len() ==> port_done(
                            final(self)@.outs[#[trigger] old(self)@.graph.nodes@[v as int].outputs@[k] as int],
                        ))
                },
                Event::InputClosed => {
                    &&& final(self)@.ins == old(self)@.ins
                    &&& final(self)@.started == old(self)@.started
                    &&& final(self)@.finished == old(self)@.finished
                    &&& forall|k: int|
                        0 <= k < old(self)@.graph.nodes@[0].outputs.len() ==> port_done(
                            final(self)@.outs[#[trigger] old(self)@.graph.nodes@[0].outputs@[k] as int],
                        )
                },
                Event::Done => final(self)@.finished && final(self)@.closed,
            },
    {
        let mut actions: Vec<Action> = Vec::new();
        assert(emitted(actions@) =~= Seq::<PacketModel>::empty());
        assert(acts(actions@) =~= Seq::<ActionModel>::empty());
        assert forall|v: usize| forwarded(actions@, v) =~= Seq::<PacketModel>::empty() by {}
        match event {
            Event::Input(p) => self.accept_input(p, &mut actions),
            Event::InputClosed => self.close_inputs(&mut actions),
            Event::Output(v, p) => self.accept_component_output(v, p, &mut actions),
            Event::Data(PortDirection::Out, id) => {
                if id < self.outs.len() {
                    self.take_component_output(id, &mut actions);
                } else {
                    proof { lemma_grows_refl(self@); }
                }
            },
            Event::Data(PortDirection::In, id) => {
                if id < self.ins.len() {
                    self.handle_input_data(id, &mut actions);
                } else {
                    proof { lemma_grows_refl(self@); }
                }
            },
            Event::OpError(v, message) => self.handle_op_err(v, message.as_str(), &mut actions),
            Event::Done => self.finish(),
        }
        proof {
            if no_done(actions@) {
                assert(!(exists|k: int| 0 <= k < actions@.len() && #[trigger] actions@[k] is EmitDone));
            }
        }
        actions
    }
}

} // verus!
