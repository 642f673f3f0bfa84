use flow_graph_interpreter::default_value::{DefaultValue, TemplatePiece};
use flow_graph_interpreter::definition::{
    parse_id, ComponentDefinition, ConnectionDefinition, ConnectionTargetDefinition, ManifestError,
    PortReference, SchematicDefinition,
};
use flow_graph_interpreter::entity::{ComponentEntity, ConversionError, PortEntity, VinoEntity};
use flow_graph_interpreter::graph::{GraphError, PortDirection, PortRef, Schematic};
use flow_graph_interpreter::packet::{JsonScalar, Packet, Payload};
use flow_graph_interpreter::port::{PortBuffer, PortStatus};
use flow_graph_interpreter::seed::{child_seed, mix, tx_id};
use flow_graph_interpreter::settings::ExecutionSettings;
use flow_graph_interpreter::trigger::cli_args;
use flow_graph_interpreter::validator::{SchematicModel, Validator};

#[test]
fn test_parse_id() {
    let (ns, name) = parse_id("namespace::component_name").unwrap();
    assert_eq!(ns, "namespace");
    assert_eq!(name, "component_name");
    let (ns, name) = parse_id("namespace::subns::component_name").unwrap();
    assert_eq!(ns, "namespace::subns");
    assert_eq!(name, "component_name");
    assert_eq!(parse_id("plain"), Err(ManifestError::ComponentIdError("plain".to_owned())));
}

#[test]
fn component_definition_from_id() {
    let c = ComponentDefinition::from_id("ns::sub::op").unwrap();
    assert_eq!(c.namespace, "ns::sub");
    assert_eq!(c.name, "op");
    assert_eq!(c.id, "ns::sub::op");
    assert_eq!(ComponentDefinition::from_id("op"), Err(ManifestError::ComponentIdError("op".to_owned())));
}

#[test]
fn component_definition_new_and_parse() {
    let c = ComponentDefinition::new("test-namespace", "log");
    assert_eq!(c.id, "test-namespace::log");
    assert_eq!(c.parse_id().unwrap(), ("test-namespace".to_owned(), "log".to_owned()));
    assert_eq!(c.config, None);
}

#[test]
fn connection_targets() {
    let t = ConnectionTargetDefinition::new("logger", "input");
    assert!(!t.is_none());
    assert!(t.matches_instance("logger"));
    assert!(!t.matches_instance("other"));
    assert!(t.matches_port("input"));
    assert!(!t.matches_port("output"));
    assert_eq!(t.get_instance(), "logger");
    assert_eq!(t.get_port_owned(), "input");
    let n = ConnectionTargetDefinition::none();
    assert!(n.is_none());
    assert!(!n.matches_instance("<None>"));
    assert_eq!(n.get_instance_owned(), "<None>");
    assert_eq!(n.get_port(), "<None>");
    let p = ConnectionTargetDefinition::from_port(PortReference::new("a", "b"));
    assert_eq!(p, ConnectionTargetDefinition::new("a", "b"));
    let d = PortReference::default();
    assert_eq!(d, PortReference::new("<None>", "<None>"));
}

#[test]
fn parse_v0_targets_and_connections() {
    let t = ConnectionTargetDefinition::from_v0_str("logger[input]").unwrap();
    assert_eq!(t, ConnectionTargetDefinition::new("logger", "input"));
    let t = ConnectionTargetDefinition::from_v0_str("<input>[]").unwrap();
    assert_eq!(t, ConnectionTargetDefinition::new("<input>", ""));
    assert!(ConnectionTargetDefinition::from_v0_str("[port]").is_err());
    assert!(ConnectionTargetDefinition::from_v0_str("logger").is_err());
    assert!(ConnectionTargetDefinition::from_v0_str("a[b]c]").is_err());
    assert_eq!(
        ConnectionTargetDefinition::from_v0_str("bad"),
        Err(ManifestError::ConnectionTargetSyntax("bad".to_owned()))
    );
    let c = ConnectionDefinition::from_v0_str("<input>[input] => logger[input]").unwrap();
    assert_eq!(c.from, ConnectionTargetDefinition::new("<input>", "input"));
    assert_eq!(c.to, ConnectionTargetDefinition::new("logger", "input"));
    assert!(!c.has_default());
    assert!(ConnectionDefinition::from_v0_str("<input>[input] -> logger[input]").is_err());
}

#[test]
fn process_default_values() {
    let mut c = ConnectionDefinition::new(
        ConnectionTargetDefinition::new("a", "out"),
        ConnectionTargetDefinition::new("b", "in"),
    );
    assert_eq!(c.process_default("boom"), Err(ManifestError::NoDefault));
    c.default = Some(DefaultValue::Text(vec![
        TemplatePiece::Text("error: ".to_owned()),
        TemplatePiece::ErrorMessage,
        TemplatePiece::Text("!".to_owned()),
    ]));
    assert!(c.has_default());
    assert_eq!(c.process_default("boom"), Ok(JsonScalar::Text("error: boom!".to_owned())));
    c.default = Some(DefaultValue::Int(-3));
    assert_eq!(c.process_default("boom"), Ok(JsonScalar::Int(-3)));
    assert_eq!(DefaultValue::Bool(true).evaluate("x"), JsonScalar::Bool(true));
    assert_eq!(DefaultValue::Null.evaluate("x"), JsonScalar::Null);
}

#[test]
fn schematic_definition_lookup() {
    let mut def = SchematicDefinition::new("S");
    def.add_instance("a", ComponentDefinition::new("ns", "op"));
    assert_eq!(def.get_name(), "S");
    assert_eq!(def.get_component("a"), Some(ComponentDefinition::new("ns", "op")));
    assert_eq!(def.get_component("b"), None);
    assert_eq!(def.find_instance("a"), Some(0));
}

#[test]
fn builder_indexes_nodes_in_order() {
    let mut def = SchematicDefinition::new("S");
    def.add_instance("a", ComponentDefinition::new("ns", "op_a"));
    def.add_instance("b", ComponentDefinition::new("ns", "op_b"));
    def.add_connection(ConnectionDefinition::new(
        ConnectionTargetDefinition::new("<input>", "in"),
        ConnectionTargetDefinition::new("b", "x"),
    ));
    def.add_connection(ConnectionDefinition::new(
        ConnectionTargetDefinition::new("b", "y"),
        ConnectionTargetDefinition::new("<output>", "out"),
    ));
    let g = Schematic::from_definition(&def).unwrap();
    let names: Vec<&str> = g.nodes.iter().map(|n| n.name.as_str()).collect();
    assert_eq!(names, vec!["<input>", "a", "b", "<output>"]);
    assert_eq!(g.input(), 0);
    assert_eq!(g.output(), 3);
    assert_eq!(g.nodes[2].operation, "op_b");
    assert_eq!(g.edges.len(), 2);
    assert_eq!(g.get_port_name(PortRef { node: 2, direction: PortDirection::In, index: 0 }), Some("x"));
    assert_eq!(g.get_port_name(PortRef { node: 2, direction: PortDirection::Out, index: 0 }), Some("y"));
    assert_eq!(g.get_port_name(PortRef { node: 2, direction: PortDirection::Out, index: 1 }), None);
    assert_eq!(g.connections(2, PortDirection::In), vec![0]);
    assert_eq!(g.connections(2, PortDirection::Out), vec![1]);
    assert_eq!(g.connections(1, PortDirection::Out), Vec::<usize>::new());
}

#[test]
fn builder_errors() {
    let mut def = SchematicDefinition::new("S");
    def.add_connection(ConnectionDefinition::new(
        ConnectionTargetDefinition::new("ghost", "out"),
        ConnectionTargetDefinition::new("<output>", "out"),
    ));
    assert_eq!(Schematic::from_definition(&def).unwrap_err(), GraphError::MissingInstance("ghost".to_owned()));

    let mut def = SchematicDefinition::new("S");
    def.add_connection(ConnectionDefinition::new(
        ConnectionTargetDefinition::new("<input>", "a"),
        ConnectionTargetDefinition::new("<output>", "out"),
    ));
    def.add_connection(ConnectionDefinition::new(
        ConnectionTargetDefinition::new("<input>", "b"),
        ConnectionTargetDefinition::new("<output>", "out"),
    ));
    assert_eq!(Schematic::from_definition(&def).unwrap_err(), GraphError::DuplicateInput(1));

    let mut def = SchematicDefinition::new("S");
    def.add_connection(ConnectionDefinition::new(
        ConnectionTargetDefinition::none(),
        ConnectionTargetDefinition::new("<output>", "out"),
    ));
    assert_eq!(Schematic::from_definition(&def).unwrap_err(), GraphError::MissingUpstream(0));

    let mut def = SchematicDefinition::new("S");
    def.add_connection(ConnectionDefinition::new(
        ConnectionTargetDefinition::new("<output>", "x"),
        ConnectionTargetDefinition::new("<output>", "out"),
    ));
    assert_eq!(Schematic::from_definition(&def).unwrap_err(), GraphError::InvalidEndpoint(0));
}

#[test]
fn port_buffer_semantics() {
    let mut b = PortBuffer::new();
    assert_eq!(b.status(), PortStatus::Open);
    assert!(b.buffer(Packet::new("p", Payload::Json(JsonScalar::Int(1)))));
    assert!(b.buffer(Packet::new("p", Payload::Json(JsonScalar::Int(2)))));
    assert!(b.buffer(Packet::done("p")));
    assert_eq!(b.status(), PortStatus::DoneOpen);
    assert_eq!(b.len(), 2);
    assert_eq!(b.take_packet().unwrap().payload, Payload::Json(JsonScalar::Int(1)));
    assert_eq!(b.status(), PortStatus::DoneOpen);
    assert!(!b.take_done());
    assert_eq!(b.take_packet().unwrap().payload, Payload::Json(JsonScalar::Int(2)));
    assert_eq!(b.status(), PortStatus::DoneClosed);
    assert!(!b.buffer(Packet::new("p", Payload::Json(JsonScalar::Int(3)))));
    assert!(b.is_empty());
    assert!(b.take_packet().is_none());
    assert!(b.take_done());
    assert!(!b.take_done());
}

#[test]
fn closing_port_promotes_on_data() {
    let mut b = PortBuffer::new();
    b.begin_closing();
    assert_eq!(b.status(), PortStatus::Closing);
    b.buffer(Packet::new("p", Payload::Signal("tick".to_owned())));
    assert_eq!(b.status(), PortStatus::DoneOpen);
    let all = b.take_all();
    assert_eq!(all.len(), 1);
    assert_eq!(b.status(), PortStatus::DoneClosed);
}

#[test]
fn entity_urls_and_keys() {
    let c = ComponentEntity { id: "ns::op".to_owned(), reference: "r".to_owned(), name: "op".to_owned() };
    assert_eq!(VinoEntity::Test("t".to_owned()).url(), "wasmbus://test/t");
    assert_eq!(VinoEntity::Schematic("s".to_owned()).url(), "wasmbus://schematic/s");
    assert_eq!(VinoEntity::Component(c.clone()).url(), "wasmbus://component/ns::op");
    assert_eq!(VinoEntity::Provider("p".to_owned()).url(), "wasmbus://provider/p");
    assert_eq!(VinoEntity::Test("t".to_owned()).key(), "test:t");
    assert_eq!(VinoEntity::Component(c.clone()).key(), "component:ns::op");
    assert_eq!(VinoEntity::Provider("p".to_owned()).into_provider(), Ok("p".to_owned()));
    assert_eq!(VinoEntity::Test("t".to_owned()).into_provider(), Err(ConversionError("into_provider")));
    assert_eq!(VinoEntity::Component(c.clone()).into_component(), Ok(c));
    assert_eq!(VinoEntity::Provider("p".to_owned()).into_component(), Err(ConversionError("into_component")));
    let p = PortEntity::new("s".to_owned(), "r".to_owned(), "n".to_owned());
    assert_eq!(p.schematic, "s");
    assert_eq!(p.name, "n");
}

#[test]
fn execution_settings() {
    assert_eq!(ExecutionSettings::new(None).timeout_millis(), None);
    assert_eq!(ExecutionSettings::from_timeout_millis(250).timeout_millis(), Some(250));
    assert_eq!(ExecutionSettings::new(Some(5)), ExecutionSettings::from_timeout_millis(5));
}

#[test]
fn seeds_are_mixed() {
    assert_eq!(mix(0), 0xE220_A839_7B1D_CDAF);
    let bits = (0xE220_A839_7B1D_CDAFu128 << 64) | mix(1) as u128;
    let expected = (bits & 0xFFFF_FFFF_FFFF_0FFF_3FFF_FFFF_FFFF_FFFF) | 0x0000_0000_0000_4000_8000_0000_0000_0000;
    assert_eq!(tx_id(0), expected);
    assert_ne!(tx_id(0), bits);
    assert_eq!((tx_id(5) >> 76) & 0xF, 4);
    assert_eq!((tx_id(5) >> 62) & 0x3, 2);
    assert_ne!(child_seed(1, 1), child_seed(1, 2));
    assert_eq!(child_seed(9, 4), child_seed(9, 4));
}

#[test]
fn cli_arguments_after_separator() {
    let args = vec!["bin".to_owned(), "run".to_owned(), "--".to_owned(), "a".to_owned(), "--".to_owned()];
    assert_eq!(cli_args(args, "app".to_owned()), vec!["app", "a", "--"]);
    let args = vec!["bin".to_owned(), "x".to_owned()];
    assert_eq!(cli_args(args, "app".to_owned()), vec!["app"]);
    assert_eq!(cli_args(vec![], "app".to_owned()), vec!["app"]);
}

#[test]
fn packet_copies_and_flags() {
    let p = Packet::new("port", Payload::Bytes("msgpack".to_owned(), vec![1, 2, 3]));
    assert_eq!(p.duplicate(), p);
    assert!(!p.is_done() && !p.is_error() && !p.is_noop());
    assert!(Packet::error("x", "m").is_error());
    assert!(Packet::new("x", Payload::Noop).is_noop());
}

#[test]
fn reload_keeps_indexing_and_validation() {
    let mut def = SchematicDefinition::new("S");
    def.add_instance("a", ComponentDefinition::new("ns", "op_a"));
    def.add_instance("b", ComponentDefinition::new("ns", "op_b"));
    def.add_connection(ConnectionDefinition::new(
        ConnectionTargetDefinition::new("<input>", "in"),
        ConnectionTargetDefinition::new("a", "x"),
    ));
    let mut c = ConnectionDefinition::new(
        ConnectionTargetDefinition::new("a", "y"),
        ConnectionTargetDefinition::new("b", "x"),
    );
    c.default = Some(DefaultValue::text("d"));
    def.add_connection(c);
    def.add_connection(ConnectionDefinition::new(
        ConnectionTargetDefinition::new("b", "y"),
        ConnectionTargetDefinition::new("<output>", "out"),
    ));
    let g = Schematic::from_definition(&def).unwrap();
    let canon = g.to_definition();
    assert_eq!(canon, def);
    let g2 = Schematic::from_definition(&canon).unwrap();
    let names = |s: &Schematic| s.nodes.iter().map(|n| n.name.clone()).collect::<Vec<_>>();
    assert_eq!(names(&g), names(&g2));
    assert_eq!(g2.edges.len(), g.edges.len());
    let m1 = SchematicModel::new(def);
    let m2 = SchematicModel::new(canon);
    assert_eq!(Validator::validate_early_errors(&m1), Validator::validate_early_errors(&m2));
    assert_eq!(Validator::validate_late_errors(&m1), Validator::validate_late_errors(&m2));
}
