use std::collections::VecDeque;

use flow_graph_interpreter::default_value::{DefaultValue, TemplatePiece};
use flow_graph_interpreter::definition::{
    ComponentDefinition, ConnectionDefinition, ConnectionTargetDefinition, SchematicDefinition,
};
use flow_graph_interpreter::graph::{PortDirection, Schematic};
use flow_graph_interpreter::packet::{JsonScalar, Packet, Payload};
use flow_graph_interpreter::seed::{child_seed, tx_id};
use flow_graph_interpreter::error::SchematicError;
use flow_graph_interpreter::registry::TransactionRegistry;
use flow_graph_interpreter::transaction::{Action, Event, Transaction, TxState};

fn text(port: &str, s: &str) -> Packet {
    Packet::new(port, Payload::Json(JsonScalar::Text(s.to_owned())))
}

fn conn(from: (&str, &str), to: (&str, &str)) -> ConnectionDefinition {
    ConnectionDefinition::new(
        ConnectionTargetDefinition::new(from.0, from.1),
        ConnectionTargetDefinition::new(to.0, to.1),
    )
}

/// What a run of a transaction produced.
#[derive(Default)]
struct Run {
    emitted: Vec<Packet>,
    dropped: Vec<Packet>,
    started: Vec<usize>,
    done_requests: usize,
}

/// Drives a transaction: feeds the caller's events, performs the actions, and asks `op`
/// for what a running operation emits when a packet is handed to it.
fn drive(
    tx: &mut Transaction,
    inputs: Vec<Event>,
    op: &mut dyn FnMut(&str, Packet) -> Vec<Packet>,
) -> Run {
    let mut run = Run::default();
    let mut queue: VecDeque<Event> = VecDeque::new();
    let start = tx.start();
    let mut pending: VecDeque<Action> = start.into_iter().collect();
    let mut inputs: VecDeque<Event> = inputs.into_iter().collect();
    loop {
        while let Some(a) = pending.pop_front() {
            match a {
                Action::Dispatch(d, id) => queue.push_back(Event::Data(d, id)),
                Action::Start(inv) => run.started.push(inv.node),
                Action::Forward(node, p) => {
                    let operation = tx.schematic().nodes[node].operation.clone();
                    for q in op(&operation, p) {
                        queue.push_back(Event::Output(node, q));
                    }
                },
                Action::Emit(p) => run.emitted.push(p),
                Action::EmitDone => {
                    run.done_requests += 1;
                    queue.push_back(Event::Done);
                },
                Action::Dropped(p) => run.dropped.push(p),
            }
        }
        let next = match queue.pop_front() {
            Some(e) => e,
            None => match inputs.pop_front() {
                Some(e) => e,
                None => break,
            },
        };
        pending.extend(tx.handle_event(next));
    }
    run
}

fn echo_schematic() -> Schematic {
    let mut def = SchematicDefinition::new("echo");
    def.add_instance("echo", ComponentDefinition::new("test", "echo"));
    def.add_connection(conn(("<input>", "input"), ("echo", "input")));
    def.add_connection(conn(("echo", "output"), ("<output>", "output")));
    Schematic::from_definition(&def).unwrap()
}

fn echo_op(_op: &str, p: Packet) -> Vec<Packet> {
    vec![Packet { port: "output".to_owned(), payload: p.payload }]
}

#[test]
fn echo_forwards_packet_then_done() {
    let mut tx = Transaction::new(echo_schematic(), 1, 0);
    let run = drive(
        &mut tx,
        vec![Event::Input(text("input", "hello")), Event::Input(Packet::done("input"))],
        &mut echo_op,
    );
    assert_eq!(run.emitted, vec![text("output", "hello"), Packet::done("output")]);
    assert_eq!(run.done_requests, 1);
    assert!(tx.is_finished());
    assert!(tx.done());
}

#[test]
fn empty_input_yields_only_done() {
    let mut tx = Transaction::new(echo_schematic(), 1, 0);
    let run = drive(&mut tx, vec![Event::InputClosed], &mut echo_op);
    assert_eq!(run.emitted, vec![Packet::done("output")]);
    assert_eq!(run.done_requests, 1);
}

#[test]
fn unknown_input_port_is_dropped() {
    let mut tx = Transaction::new(echo_schematic(), 1, 0);
    let run = drive(
        &mut tx,
        vec![
            Event::Input(text("nope", "x")),
            Event::Input(text("input", "hello")),
            Event::Input(Packet::done("input")),
        ],
        &mut echo_op,
    );
    assert_eq!(run.dropped, vec![text("nope", "x")]);
    assert_eq!(run.emitted, vec![text("output", "hello"), Packet::done("output")]);
}

#[test]
fn noop_input_is_dropped_quietly() {
    let mut tx = Transaction::new(echo_schematic(), 1, 0);
    let run = drive(
        &mut tx,
        vec![Event::Input(Packet::new("input", Payload::Noop)), Event::Input(Packet::done("input"))],
        &mut echo_op,
    );
    assert!(run.dropped.is_empty());
    assert_eq!(run.emitted, vec![Packet::done("output")]);
}

#[test]
fn packet_after_close_is_dropped() {
    let mut tx = Transaction::new(echo_schematic(), 1, 0);
    let run = drive(
        &mut tx,
        vec![
            Event::Input(Packet::done("input")),
            Event::Input(text("input", "late")),
        ],
        &mut echo_op,
    );
    assert_eq!(run.dropped, vec![text("input", "late")]);
    assert_eq!(run.emitted, vec![Packet::done("output")]);
}

#[test]
fn fan_out_joins_in_order() {
    let mut def = SchematicDefinition::new("fan");
    def.add_instance("A", ComponentDefinition::new("test", "prefix_a"));
    def.add_instance("B", ComponentDefinition::new("test", "prefix_b"));
    def.add_instance("concat", ComponentDefinition::new("test", "concat"));
    def.add_connection(conn(("<input>", "input"), ("A", "input")));
    def.add_connection(conn(("<input>", "input"), ("B", "input")));
    def.add_connection(conn(("A", "output"), ("concat", "left")));
    def.add_connection(conn(("B", "output"), ("concat", "right")));
    def.add_connection(conn(("concat", "output"), ("<output>", "output")));
    let schematic = Schematic::from_definition(&def).unwrap();
    let mut tx = Transaction::new(schematic, 7, 0);
    let mut left: VecDeque<String> = VecDeque::new();
    let mut right: VecDeque<String> = VecDeque::new();
    let mut closed = 0;
    let mut op = |op: &str, p: Packet| -> Vec<Packet> {
        let value = match &p.payload {
            Payload::Json(JsonScalar::Text(s)) => Some(s.clone()),
            _ => None,
        };
        match op {
            "prefix_a" | "prefix_b" => {
                let prefix = if op == "prefix_a" { "a:" } else { "b:" };
                match value {
                    Some(s) => vec![text("output", &format!("{}{}", prefix, s))],
                    None => vec![Packet::done("output")],
                }
            },
            _ => {
                match value {
                    Some(s) => {
                        if p.port == "left" {
                            left.push_back(s)
                        } else {
                            right.push_back(s)
                        }
                    },
                    None => closed += 1,
                }
                let mut out = Vec::new();
                while !left.is_empty() && !right.is_empty() {
                    let l = left.pop_front().unwrap();
                    let r = right.pop_front().unwrap();
                    out.push(text("output", &format!("{} {}", l, r)));
                }
                if closed == 2 {
                    closed += 1;
                    out.push(Packet::done("output"));
                }
                out
            },
        }
    };
    let run = drive(
        &mut tx,
        vec![
            Event::Input(text("input", "x")),
            Event::Input(text("input", "y")),
            Event::Input(Packet::done("input")),
        ],
        &mut op,
    );
    assert_eq!(
        run.emitted,
        vec![text("output", "a:x b:x"), text("output", "a:y b:y"), Packet::done("output")]
    );
}

#[test]
fn default_replaces_error() {
    let mut def = SchematicDefinition::new("defaults");
    def.add_instance("fail", ComponentDefinition::new("test", "fail"));
    def.add_connection(conn(("<input>", "input"), ("fail", "input")));
    let mut c = conn(("fail", "output"), ("<output>", "output"));
    c.default = Some(DefaultValue::text("fallback"));
    def.add_connection(c);
    let schematic = Schematic::from_definition(&def).unwrap();
    let mut tx = Transaction::new(schematic, 3, 0);
    let mut op = |_op: &str, p: Packet| -> Vec<Packet> {
        if p.is_done() {
            vec![Packet::error("output", "boom"), Packet::done("output")]
        } else {
            vec![]
        }
    };
    let run = drive(&mut tx, vec![Event::Input(Packet::done("input"))], &mut op);
    assert_eq!(run.emitted, vec![text("output", "fallback"), Packet::done("output")]);
}

#[test]
fn default_interpolates_error_message() {
    let mut def = SchematicDefinition::new("defaults");
    def.add_instance("fail", ComponentDefinition::new("test", "fail"));
    def.add_connection(conn(("<input>", "input"), ("fail", "input")));
    let mut c = conn(("fail", "output"), ("<output>", "output"));
    c.default = Some(DefaultValue::Text(vec![
        TemplatePiece::Text("failed: ".to_owned()),
        TemplatePiece::ErrorMessage,
    ]));
    def.add_connection(c);
    let schematic = Schematic::from_definition(&def).unwrap();
    let mut tx = Transaction::new(schematic, 3, 0);
    let mut op = |_op: &str, p: Packet| -> Vec<Packet> {
        if p.is_done() {
            vec![Packet::error("output", "boom"), Packet::done("output")]
        } else {
            vec![]
        }
    };
    let run = drive(&mut tx, vec![Event::Input(Packet::done("input"))], &mut op);
    assert_eq!(run.emitted, vec![text("output", "failed: boom"), Packet::done("output")]);
}

#[test]
fn error_without_default_passes_through() {
    let mut tx = Transaction::new(echo_schematic(), 1, 0);
    let run = drive(
        &mut tx,
        vec![Event::Input(Packet::error("input", "bad")), Event::Input(Packet::done("input"))],
        &mut echo_op,
    );
    assert_eq!(run.emitted, vec![Packet::error("output", "bad"), Packet::done("output")]);
}

#[test]
fn op_error_sends_error_then_done() {
    let mut tx = Transaction::new(echo_schematic(), 1, 0);
    let mut op = |_op: &str, _p: Packet| -> Vec<Packet> { vec![] };
    let run = drive(
        &mut tx,
        vec![Event::Input(text("input", "x")), Event::OpError(1, "crashed".to_owned())],
        &mut op,
    );
    assert_eq!(run.emitted, vec![Packet::error("output", "crashed"), Packet::done("output")]);
    assert_eq!(run.done_requests, 1);
}

#[test]
fn hung_transaction_reports_error_then_done() {
    let mut def = SchematicDefinition::new("slow");
    def.add_instance("slow", ComponentDefinition::new("test", "slow"));
    def.add_connection(conn(("<input>", "input"), ("slow", "input")));
    def.add_connection(conn(("slow", "output"), ("<output>", "output")));
    let schematic = Schematic::from_definition(&def).unwrap();
    let mut tx = Transaction::new(schematic, 5, 1000);
    let mut op = |_op: &str, _p: Packet| -> Vec<Packet> { vec![] };
    let run = drive(&mut tx, vec![Event::Input(text("input", "x"))], &mut op);
    assert!(run.emitted.is_empty());
    let (state, actions) = tx.check_stalled(1500, 1000);
    assert_eq!(state, TxState::OutputPending);
    assert!(actions.is_empty());
    let (state, actions) = tx.check_stalled(2000, 1000);
    assert_eq!(state, TxState::Hung);
    let mut emitted = Vec::new();
    let mut done = 0;
    for a in actions {
        match a {
            Action::Emit(p) => emitted.push(p),
            Action::EmitDone => done += 1,
            _ => {},
        }
    }
    assert_eq!(emitted, vec![Packet::error("output", "Transaction hung"), Packet::done("output")]);
    assert_eq!(done, 1);
    let (state, actions) = tx.check_stalled(5000, 1000);
    assert_eq!(state, TxState::Hung);
    assert!(!actions.iter().any(|a| matches!(a, Action::EmitDone)));
}

#[test]
fn completed_transaction_is_not_hung() {
    let mut tx = Transaction::new(echo_schematic(), 1, 0);
    drive(&mut tx, vec![Event::Input(Packet::done("input"))], &mut echo_op);
    let (state, actions) = tx.check_stalled(1_000_000, 1);
    assert_eq!(state, TxState::OutputComplete);
    assert!(actions.is_empty());
}

#[test]
fn same_seed_same_output() {
    let inputs = || {
        vec![
            Event::Input(text("input", "a")),
            Event::Input(text("input", "b")),
            Event::Input(Packet::done("input")),
        ]
    };
    let mut t1 = Transaction::new(echo_schematic(), 42, 0);
    let mut t2 = Transaction::new(echo_schematic(), 42, 0);
    let r1 = drive(&mut t1, inputs(), &mut echo_op);
    let r2 = drive(&mut t2, inputs(), &mut echo_op);
    assert_eq!(r1.emitted, r2.emitted);
    assert_eq!(t1.id(), t2.id());
    assert_eq!(t1.id(), tx_id(42));
    assert_ne!(tx_id(42), tx_id(43));
}

#[test]
fn done_is_requested_once() {
    let mut tx = Transaction::new(echo_schematic(), 1, 0);
    let run = drive(
        &mut tx,
        vec![
            Event::Input(Packet::done("input")),
            Event::Input(Packet::done("input")),
            Event::InputClosed,
        ],
        &mut echo_op,
    );
    assert_eq!(run.done_requests, 1);
}

#[test]
fn operation_started_once_when_ready() {
    let mut tx = Transaction::new(echo_schematic(), 1, 0);
    let run = drive(
        &mut tx,
        vec![
            Event::Input(text("input", "a")),
            Event::Input(text("input", "b")),
            Event::Input(Packet::done("input")),
        ],
        &mut echo_op,
    );
    assert_eq!(run.started, vec![1]);
}

#[test]
fn default_only_edge_feeds_output() {
    let mut def = SchematicDefinition::new("Test");
    let mut c = ConnectionDefinition::new(
        ConnectionTargetDefinition::none(),
        ConnectionTargetDefinition::new("<output>", "output"),
    );
    c.default = Some(DefaultValue::text("Default string"));
    def.add_connection(c);
    let schematic = Schematic::from_definition(&def).unwrap();
    let mut tx = Transaction::new(schematic, 1, 0);
    let run = drive(&mut tx, vec![], &mut echo_op);
    assert_eq!(run.emitted, vec![text("output", "Default string"), Packet::done("output")]);
}

#[test]
fn data_event_on_unknown_port_is_ignored() {
    let mut tx = Transaction::new(echo_schematic(), 1, 0);
    let actions = tx.handle_event(Event::Data(PortDirection::In, 99));
    assert!(actions.is_empty());
    let actions = tx.handle_event(Event::Output(99, text("output", "x")));
    assert_eq!(actions.len(), 1);
}

#[test]
fn registry_routes_events_by_id() {
    let mut registry = TransactionRegistry::new();
    let t1 = Transaction::new(echo_schematic(), 1, 0);
    let t2 = Transaction::new(echo_schematic(), 2, 0);
    let (id1, id2) = (t1.id(), t2.id());
    registry.insert(t1);
    registry.insert(t2);
    assert_eq!(registry.find(id2), Some(1));
    let actions = registry.dispatch(id1, Event::Input(text("input", "x"))).unwrap();
    assert!(matches!(actions[..], [Action::Dispatch(PortDirection::Out, 0)]));
    assert_eq!(
        registry.dispatch(12345, Event::InputClosed).unwrap_err(),
        SchematicError::TransactionNotFound(12345)
    );
    let removed = registry.remove(id1).unwrap();
    assert_eq!(removed.id(), id1);
    assert_eq!(registry.find(id1), None);
    assert_eq!(registry.find(id2), Some(0));
}

#[test]
fn start_invocation_carries_transaction_and_seed() {
    let mut def = SchematicDefinition::new("gen");
    def.add_instance("gen", ComponentDefinition::new("ns", "generate"));
    def.add_connection(conn(("gen", "output"), ("<output>", "output")));
    let schematic = Schematic::from_definition(&def).unwrap();
    let mut tx = Transaction::new(schematic, 11, 77);
    let actions = tx.start();
    assert_eq!(actions.len(), 1);
    match &actions[0] {
        Action::Start(inv) => {
            assert_eq!(inv.tx_id, tx.id());
            assert_eq!(inv.node, 1);
            assert_eq!(inv.namespace, "ns");
            assert_eq!(inv.operation, "generate");
            assert_eq!(inv.seed, child_seed(11, 1));
            assert_eq!(inv.timestamp, 77);
        },
        other => panic!("unexpected {:?}", other),
    }
}

#[test]
fn op_error_dispatches_each_packet() {
    let mut tx = Transaction::new(echo_schematic(), 1, 0);
    let actions = tx.handle_event(Event::OpError(1, "bad".to_owned()));
    assert!(matches!(
        actions[..],
        [Action::Dispatch(PortDirection::Out, a), Action::Dispatch(PortDirection::Out, b)] if a == b
    ));
}

#[test]
fn done_event_finishes_and_closes() {
    let mut tx = Transaction::new(echo_schematic(), 1, 5);
    tx.start();
    assert!(!tx.is_finished());
    let actions = tx.handle_event(Event::Done);
    assert!(actions.is_empty());
    assert!(tx.is_finished());
    let stats = tx.statistics();
    let names: Vec<&str> = stats.marks().iter().map(|m| m.0.as_str()).collect();
    assert_eq!(names, vec!["new", "start", "start_done"]);
    assert_eq!(stats.spans()[0].name, "execution");
    assert_eq!(stats.spans()[0].end, Some(5));
}

#[test]
fn closed_stream_reports_only_data_packets() {
    let mut tx = Transaction::new(echo_schematic(), 1, 0);
    let mut run_actions = Vec::new();
    tx.start();
    tx.handle_event(Event::Done);
    // the output boundary's port is node 2's only input, id 1
    let id = tx.schematic().nodes[2].inputs[0];
    let mut pending: VecDeque<Event> = VecDeque::new();
    pending.push_back(Event::Output(1, text("output", "late")));
    pending.push_back(Event::Output(1, Packet::done("output")));
    while let Some(e) = pending.pop_front() {
        for a in tx.handle_event(e) {
            match a {
                Action::Dispatch(d, i) => pending.push_back(Event::Data(d, i)),
                other => run_actions.push(other),
            }
        }
    }
    assert_eq!(id, 1);
    assert_eq!(run_actions, vec![Action::Dropped(text("output", "late"))]);
}

#[test]
fn registry_updates_access_and_checks_stall() {
    let mut registry = TransactionRegistry::new();
    let t = Transaction::new(echo_schematic(), 3, 100);
    let id = t.id();
    registry.insert(t);
    assert_eq!(registry.update_last_access(id, 200), Ok(()));
    assert_eq!(registry.update_last_access(9, 200), Err(SchematicError::TransactionNotFound(9)));
    let (state, actions) = registry.check_stalled(id, 250, 100).unwrap();
    assert_eq!(state, TxState::OutputPending);
    assert!(actions.is_empty());
    let (state, _) = registry.check_stalled(id, 300, 100).unwrap();
    assert_eq!(state, TxState::Hung);
    assert!(registry.check_stalled(9, 300, 100).is_err());
}
