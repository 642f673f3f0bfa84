use flow_graph_interpreter::default_value::DefaultValue;
use flow_graph_interpreter::definition::{
    ComponentDefinition, ConnectionDefinition, ConnectionTargetDefinition, SchematicDefinition,
};
use flow_graph_interpreter::graph::Schematic;
use flow_graph_interpreter::validator::{
    should_omit, ComponentModel, PortSignature, ProviderModel, SchematicModel, ValidationError,
    Validator,
};

fn target(instance: &str, port: &str) -> ConnectionTargetDefinition {
    ConnectionTargetDefinition::new(instance, port)
}

fn sig(name: &str, ty: &str) -> PortSignature {
    PortSignature { name: name.to_owned(), type_string: ty.to_owned() }
}

fn log_model(namespace: &str) -> ComponentModel {
    ComponentModel {
        namespace: namespace.to_owned(),
        name: "log".to_owned(),
        inputs: vec![sig("input", "string")],
        outputs: vec![sig("output", "bytes")],
    }
}

fn logger_schematic() -> SchematicDefinition {
    let mut def = SchematicDefinition::new("Test");
    def.add_instance("logger", ComponentDefinition::new("test-namespace", "log"));
    def.add_connection(ConnectionDefinition::new(target("<input>", "input"), target("logger", "input")));
    def.add_connection(ConnectionDefinition::new(target("logger", "output"), target("<output>", "output")));
    def
}

#[test]
fn test_dangling_refs() {
    let mut def = SchematicDefinition::new("Test");
    def.add_connection(ConnectionDefinition::new(target("dangling1", "output"), target("<output>", "output")));
    let model = SchematicModel::new(def);
    assert_eq!(model.get_name(), "Test");
    let result = Validator::validate_early_errors(&model);
    assert_eq!(
        result,
        Err(ValidationError::EarlyError(
            "Test".to_owned(),
            vec![
                ValidationError::NoInputs,
                ValidationError::DanglingReference(vec!["dangling1".to_owned()]),
            ]
        ))
    );
}

#[test]
fn test_no_upstream() {
    let mut def = SchematicDefinition::new("Test");
    let mut c = ConnectionDefinition::new(ConnectionTargetDefinition::none(), target("<output>", "output"));
    c.default = Some(DefaultValue::text("Default string"));
    def.add_connection(c);
    let model = SchematicModel::new(def);
    assert_eq!(model.get_name(), "Test");
    assert_eq!(Validator::validate_early_errors(&model), Ok(()));
    assert_eq!(Validator::validate_late_errors(&model), Ok(()));
}

#[test]
fn test_missing_models() {
    let mut def = SchematicDefinition::new("Test");
    def.add_instance("logger", ComponentDefinition::new("test-namespace", "log"));
    let model = SchematicModel::new(def);
    assert_eq!(
        Validator::validate_late_errors(&model),
        Err(ValidationError::PostInitError(
            "Test".to_owned(),
            vec![ValidationError::MissingComponentModels(vec!["logger=>test-namespace::log".to_owned()])]
        ))
    );
}

#[test]
fn test_connections() {
    let def = logger_schematic();
    let schematic = Schematic::from_definition(&def).unwrap();
    assert_eq!(schematic.name(), "Test");
    let logger_input = schematic.nodes[1].inputs[0];
    let edge = schematic.edges.iter().find(|e| e.to == logger_input).unwrap();
    let from = &schematic.out_ports[edge.from.unwrap()];
    assert_eq!(schematic.nodes[from.node].name, "<input>");
    assert_eq!(from.name, "input");
}

#[test]
fn test_finish_initialization() {
    let mut model = SchematicModel::new(logger_schematic());
    model.commit_providers(vec![ProviderModel {
        namespace: "test-namespace".to_owned(),
        components: vec![log_model("test-namespace")],
    }]);
    assert_eq!(Validator::_validate(&model), Ok(()));
    assert_eq!(Validator::validate_final_errors(&model), Ok(()));
}

#[test]
fn test_invalid_ports() {
    let mut def = SchematicDefinition::new("Test");
    def.add_instance("logger", ComponentDefinition::new("vino-v0", "log"));
    def.add_connection(ConnectionDefinition::new(target("<input>", "input"), target("logger", "bad_input")));
    def.add_connection(ConnectionDefinition::new(target("logger", "bad_output"), target("<output>", "output")));
    let mut model = SchematicModel::new(def);
    model.commit_providers(vec![ProviderModel {
        namespace: "vino-v0".to_owned(),
        components: vec![log_model("test-namespace")],
    }]);
    let result = Validator::validate_late_errors(&model);
    let first = &model.definition.connections[0];
    let second = &model.definition.connections[1];
    let expected = ValidationError::PostInitError(
        "Test".to_owned(),
        vec![ValidationError::InvalidConnections(vec![
            ValidationError::InvalidInputPort(first.to.clone(), first.clone(), vec![sig("input", "string")]),
            ValidationError::InvalidOutputPort(second.from.clone(), second.clone(), vec![sig("output", "bytes")]),
        ])],
    );
    assert_eq!(result, Err(expected));
}

#[test]
fn test_self() {
    let mut def = SchematicDefinition::new("Test");
    def.add_instance("logger", ComponentDefinition::new("vino", "log"));
    def.add_instance("child_ref", ComponentDefinition::new("self", "child"));
    def.add_connection(ConnectionDefinition::new(target("<input>", "input"), target("logger", "input")));
    def.add_connection(ConnectionDefinition::new(target("logger", "output"), target("child_ref", "child_input")));
    def.add_connection(ConnectionDefinition::new(target("child_ref", "child_output"), target("<output>", "output")));
    let mut model = SchematicModel::new(def);
    model.commit_providers(vec![ProviderModel { namespace: "vino".to_owned(), components: vec![log_model("test-namespace")] }]);
    assert_eq!(Validator::validate_early_errors(&model), Ok(()));
    assert_eq!(Validator::validate_late_errors(&model), Ok(()));
    assert!(Validator::validate_final_errors(&model).is_err());
    model.commit_providers(vec![ProviderModel {
        namespace: "self".to_owned(),
        components: vec![ComponentModel {
            namespace: "child_ref".to_owned(),
            name: "child".to_owned(),
            inputs: vec![sig("child_input", "string")],
            outputs: vec![sig("child_output", "bytes")],
        }],
    }]);
    assert_eq!(Validator::validate_final_errors(&model), Ok(()));
}

#[test]
fn final_phase_reports_missing_self_component() {
    let mut def = SchematicDefinition::new("S");
    def.add_instance("me", ComponentDefinition::new("self", "S"));
    def.add_connection(ConnectionDefinition::new(target("<input>", "input"), target("me", "input")));
    def.add_connection(ConnectionDefinition::new(target("me", "output"), target("<output>", "output")));
    let model = SchematicModel::new(def);
    assert_eq!(Validator::validate_late_errors(&model), Ok(()));
    assert_eq!(
        Validator::validate_final_errors(&model),
        Err(ValidationError::PostInitError(
            "S".to_owned(),
            vec![
                ValidationError::MissingComponentModels(vec!["me=>self::S".to_owned()]),
                ValidationError::InvalidConnections(vec![
                    ValidationError::ReferenceNotFound("me".to_owned()),
                    ValidationError::ReferenceNotFound("me".to_owned()),
                ]),
            ]
        ))
    );
}

#[test]
fn no_outputs_and_unqualified_names() {
    let mut def = SchematicDefinition::new("Empty");
    let mut bad = ComponentDefinition::new("ns", "op");
    bad.id = "unqualified".to_owned();
    def.add_instance("x", bad);
    let model = SchematicModel::new(def);
    assert_eq!(
        Validator::validate_early_errors(&model),
        Err(ValidationError::EarlyError(
            "Empty".to_owned(),
            vec![
                ValidationError::NoOutputs,
                ValidationError::NotFullyQualified(vec!["unqualified".to_owned()]),
            ]
        ))
    );
}

#[test]
fn cycle_without_input_has_no_inputs() {
    let mut def = SchematicDefinition::new("Loop");
    def.add_instance("a", ComponentDefinition::new("ns", "op"));
    def.add_instance("b", ComponentDefinition::new("ns", "op"));
    def.add_connection(ConnectionDefinition::new(target("a", "output"), target("b", "input")));
    def.add_connection(ConnectionDefinition::new(target("b", "output"), target("a", "input")));
    def.add_connection(ConnectionDefinition::new(target("b", "output"), target("<output>", "output")));
    let model = SchematicModel::new(def);
    assert_eq!(
        Validator::validate_early_errors(&model),
        Err(ValidationError::EarlyError("Loop".to_owned(), vec![ValidationError::NoInputs]))
    );
}

#[test]
fn omitted_namespaces() {
    let list = vec!["self".to_owned(), "other".to_owned()];
    assert!(should_omit("self", &list));
    assert!(should_omit("other", &list));
    assert!(!should_omit("vino", &list));
    assert!(!should_omit("self", &vec![]));
}
