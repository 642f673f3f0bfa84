//! Manifest-level definitions of a schematic: instances, connections and providers.
use vstd::prelude::*;

use crate::default_value::{DefaultValue, eval_default};
use crate::packet::JsonScalar;
use crate::text::{concat, copy_string, find_first, find_last, occurs_at, str_eq};

verus! {

/// The reserved instance name of a schematic's input boundary.
pub const SCHEMATIC_INPUT: &'static str = "<input>";

/// The reserved instance name of a schematic's output boundary.
pub const SCHEMATIC_OUTPUT: &'static str = "<output>";

/// The text shown in place of a missing instance or port name.
pub const NONE_NAME: &'static str = "<None>";

/// The separator between a component's namespace and its name.
pub const NS_SEPARATOR: &'static str = "::";

/// Errors in a manifest-level definition.
#[derive(Debug, Clone, PartialEq, Eq)]
pub enum ManifestError {
    /// A component id without a namespace separator.
    ComponentIdError(String),
    /// A connection or connection target that does not follow `instance[port]`.
    ConnectionTargetSyntax(String),
    /// A connection that does not follow `from => to`.
    ConnectionDefinitionSyntax(String),
    /// A default was asked of a connection that has none.
    NoDefault,
}

/// The separator's characters.
pub open spec fn separator() -> Seq<char> {
    seq![':', ':']
}

/// The namespace and name that a fully qualified id splits into, around its last
/// separator; `None` where it holds no separator.
pub open spec fn split_id(id: Seq<char>) -> Option<(Seq<char>, Seq<char>)> {
    if exists|i: int| occurs_at(id, separator(), i) {
        let i = choose|i: int| occurs_at(id, separator(), i) && forall|j: int|
            i < j ==> !occurs_at(id, separator(), j);
        Some((id.subrange(0, i), id.subrange(i + 2, id.len() as int)))
    } else {
        None
    }
}

/// Splits a fully qualified id into its namespace and name, around the last separator.
pub fn parse_id(id: &str) -> (r: Result<(String, String), ManifestError>)
    ensures
        r is Ok <==> split_id(id@) is Some,
        r is Ok ==> r->Ok_0.0@ == split_id(id@)->Some_0.0 && r->Ok_0.1@ == split_id(
            id@,
        )->Some_0.1,
        r is Err ==> r->Err_0 is ComponentIdError && r->Err_0->ComponentIdError_0@ == id@,
{
    proof {
        reveal_strlit("::");
        assert("::"@ =~= separator());
    }
    match find_last(id, "::") {
        None => Err(ManifestError::ComponentIdError(id.to_owned())),
        Some(i) => {
            let ghost k = choose|k: int| occurs_at(id@, separator(), k) && forall|j: int|
                k < j ==> !occurs_at(id@, separator(), j);
            assert(k == i as int) by {
                if k < i as int {
                } else if k > i as int {
                }
            }
            let n = id.unicode_len();
            let ns = id.substring_char(0, i).to_owned();
            let name = id.substring_char(i + 2, n).to_owned();
            Ok((ns, name))
        },
    }
}

/// A reference to a component registered under a provider's namespace.
#[derive(Debug, Clone, PartialEq, Eq)]
pub struct ComponentDefinition {
    pub name: String,
    pub namespace: String,
    /// The fully qualified id: the namespace, the separator and the name.
    pub id: String,
    pub config: Option<String>,
}

impl ComponentDefinition {
    /// The definition of component `name` in namespace `namespace`.
    pub fn new(namespace: &str, name: &str) -> (r: ComponentDefinition)
        ensures
            r.name@ == name@,
            r.namespace@ == namespace@,
            r.id@ == namespace@ + separator() + name@,
            r.config is None,
    {
        proof {
            reveal_strlit("::");
            assert("::"@ =~= separator());
        }
        let with_sep = concat(namespace, "::");
        let id = concat(with_sep.as_str(), name);
        ComponentDefinition {
            name: name.to_owned(),
            namespace: namespace.to_owned(),
            id,
            config: None,
        }
    }

    /// The definition of the component with fully qualified id `id`.
    pub fn from_id(id: &str) -> (r: Result<ComponentDefinition, ManifestError>)
        ensures
            r is Ok <==> split_id(id@) is Some,
            r is Ok ==> r->Ok_0.id@ == id@ && r->Ok_0.namespace@ == split_id(id@)->Some_0.0
                && r->Ok_0.name@ == split_id(id@)->Some_0.1 && r->Ok_0.config is None,
            r is Err ==> r->Err_0 is ComponentIdError && r->Err_0->ComponentIdError_0@ == id@,
    {
        match parse_id(id) {
            Ok((namespace, name)) => Ok(ComponentDefinition { name, namespace, id: id.to_owned(), config: None }),
            Err(e) => Err(e),
        }
    }

    /// Splits the definition's id into namespace and name.
    pub fn parse_id(&self) -> (r: Result<(String, String), ManifestError>)
        ensures
            r is Ok <==> split_id(self.id@) is Some,
            r is Ok ==> r->Ok_0.0@ == split_id(self.id@)->Some_0.0 && r->Ok_0.1@ == split_id(
                self.id@,
            )->Some_0.1,
    {
        parse_id(self.id.as_str())
    }

    /// A copy with the same fields.
    pub fn duplicate(&self) -> (r: ComponentDefinition)
        ensures
            r.name@ == self.name@,
            r.namespace@ == self.namespace@,
            r.id@ == self.id@,
            r.config is Some <==> self.config is Some,
            r.config is Some ==> r.config->Some_0@ == self.config->Some_0@,
    {
        let config = match &self.config {
            Some(c) => Some(copy_string(c)),
            None => None,
        };
        ComponentDefinition {
            name: copy_string(&self.name),
            namespace: copy_string(&self.namespace),
            id: copy_string(&self.id),
            config,
        }
    }
}

/// How a provider is reached.
#[derive(Debug, Clone, Copy, PartialEq, Eq, Structural)]
pub enum ProviderKind {
    /// Built into the host.
    Native,
    /// A separately managed GRPC endpoint.
    GrpcUrl,
    /// A WebAssembly module.
    Wapc,
}

/// A provider: the namespace its components are found on, how to reach it, and its
/// initialization data as key/value pairs.
#[derive(Debug, Clone, PartialEq, Eq)]
pub struct ProviderDefinition {
    pub namespace: String,
    pub kind: ProviderKind,
    pub reference: String,
    pub data: Vec<(String, String)>,
}

/// A port on an instance, by name.
#[derive(Debug, Clone, PartialEq, Eq, Hash)]
pub struct PortReference {
    pub instance: String,
    pub port: String,
}

impl PortReference {
    /// The port `port` on instance `instance`.
    pub fn new(instance: &str, port: &str) -> (r: PortReference)
        ensures
            r.instance@ == instance@,
            r.port@ == port@,
    {
        PortReference { instance: instance.to_owned(), port: port.to_owned() }
    }

    /// A copy with the same fields.
    pub fn duplicate(&self) -> (r: PortReference)
        ensures
            r.instance@ == self.instance@,
            r.port@ == self.port@,
    {
        PortReference { instance: copy_string(&self.instance), port: copy_string(&self.port) }
    }
}

impl Default for PortReference {
    fn default() -> (r: PortReference)
        ensures
            r.instance@ == NONE_NAME@,
            r.port@ == NONE_NAME@,
    {
        PortReference { instance: NONE_NAME.to_owned(), port: NONE_NAME.to_owned() }
    }
}

/// One end of a connection: a port, or nothing (for a connection fed by its default).
#[derive(Debug, Clone, PartialEq, Eq, Hash)]
pub struct ConnectionTargetDefinition {
    target: Option<PortReference>,
}

/// The instance and port names of a target, where it has one.
pub open spec fn target_names(t: Option<PortReference>) -> Option<(Seq<char>, Seq<char>)> {
    match t {
        Some(p) => Some((p.instance@, p.port@)),
        None => None,
    }
}

/// The characters of a target written `instance[port]`.
pub open spec fn target_text(instance: Seq<char>, port: Seq<char>) -> Seq<char> {
    instance + seq!['['] + port + seq![']']
}

/// Whether `s` holds none of the bracket characters.
pub open spec fn bracket_free(s: Seq<char>) -> bool {
    forall|i: int| 0 <= i < s.len() ==> s[i] != '[' && s[i] != ']'
}

/// The instance and port that `s` names when written `instance[port]`, with a non-empty
/// instance and neither part holding a bracket.
pub open spec fn parse_target(s: Seq<char>) -> Option<(Seq<char>, Seq<char>)> {
    if exists|inst: Seq<char>, port: Seq<char>|
        inst.len() > 0 && bracket_free(inst) && bracket_free(port) && s == target_text(
            inst,
            port,
        ) {
        let (inst, port) = choose|inst: Seq<char>, port: Seq<char>|
            inst.len() > 0 && bracket_free(inst) && bracket_free(port) && s == target_text(
                inst,
                port,
            );
        Some((inst, port))
    } else {
        None
    }
}

fn has_bracket(s: &str) -> (r: bool)
    ensures
        r == !bracket_free(s@),
{
    let n = s.unicode_len();
    let mut i: usize = 0;
    while i < n
        invariant
            n == s@.len(),
            i <= n,
            forall|j: int| 0 <= j < i ==> s@[j] != '[' && s@[j] != ']',
        decreases n - i,
    {
        let c = s.get_char(i);
        if c == '[' || c == ']' {
            return true;
        }
        i = i + 1;
    }
    false
}

proof fn lemma_target_text_unique(inst_a: Seq<char>, port_a: Seq<char>, inst_b: Seq<char>, port_b: Seq<char>)
    requires
        bracket_free(inst_a),
        bracket_free(inst_b),
        target_text(inst_a, port_a) == target_text(inst_b, port_b),
    ensures
        inst_a == inst_b,
        port_a == port_b,
{
    let t = target_text(inst_a, port_a);
    assert(t[inst_a.len() as int] == '[');
    assert(t[inst_b.len() as int] == '[');
    if inst_a.len() < inst_b.len() {
        assert(t[inst_a.len() as int] == inst_b[inst_a.len() as int]);
    } else if inst_b.len() < inst_a.len() {
        assert(t[inst_b.len() as int] == inst_a[inst_b.len() as int]);
    }
    assert(inst_a =~= t.subrange(0, inst_a.len() as int));
    assert(inst_b =~= t.subrange(0, inst_b.len() as int));
    assert(port_a =~= t.subrange(inst_a.len() as int + 1, t.len() - 1));
    assert(port_b =~= t.subrange(inst_b.len() as int + 1, t.len() - 1));
}

/// Parses `instance[port]` into its two names.
fn parse_target_text(s: &str) -> (r: Option<(String, String)>)
    ensures
        r is Some <==> parse_target(s@) is Some,
        r is Some ==> r->Some_0.0@ == parse_target(s@)->Some_0.0 && r->Some_0.1@
            == parse_target(s@)->Some_0.1,
{
    proof {
        reveal_strlit("[");
        assert("["@ =~= seq!['[']);
    }
    let n = s.unicode_len();
    let open = find_first(s, "[");
    match open {
        None => {
            proof {
                if parse_target(s@) is Some {
                    let (inst, port) = choose|inst: Seq<char>, port: Seq<char>|
                        inst.len() > 0 && bracket_free(inst) && bracket_free(port) && s@
                            == target_text(inst, port);
                    assert(s@.subrange(inst.len() as int, inst.len() as int + 1) =~= seq!['[']);
                    assert(occurs_at(s@, "["@, inst.len() as int));
                }
            }
            None
        },
        Some(i) => {
            if i == 0 || n < 2 || i >= n - 1 || s.get_char(n - 1) != ']' {
                proof {
                    if parse_target(s@) is Some {
                        let (inst, port) = choose|inst: Seq<char>, port: Seq<char>|
                            inst.len() > 0 && bracket_free(inst) && bracket_free(port) && s@
                                == target_text(inst, port);
                        assert(s@.subrange(inst.len() as int, inst.len() as int + 1) =~= seq!['[']);
                        assert(occurs_at(s@, "["@, inst.len() as int));
                        assert(s@.subrange(i as int, i as int + 1)[0] == s@[i as int]);
                        assert(s@[i as int] == '[');
                        if (i as int) < inst.len() {
                            assert(s@[i as int] == inst[i as int]);
                        }
                        assert(i as int == inst.len());
                        assert(s@[s@.len() - 1] == ']');
                    }
                }
                return None;
            }
            let inst = s.substring_char(0, i);
            let port = s.substring_char(i + 1, n - 1);
            if has_bracket(inst) || has_bracket(port) {
                proof {
                    if parse_target(s@) is Some {
                        let (ci, cp) = choose|ci: Seq<char>, cp: Seq<char>|
                            ci.len() > 0 && bracket_free(ci) && bracket_free(cp) && s@
                                == target_text(ci, cp);
                        assert(s@.subrange(ci.len() as int, ci.len() as int + 1) =~= seq!['[']);
                        assert(occurs_at(s@, "["@, ci.len() as int));
                        assert(s@.subrange(i as int, i as int + 1)[0] == s@[i as int]);
                        assert(s@[i as int] == '[');
                        if (i as int) < ci.len() {
                            assert(s@[i as int] == ci[i as int]);
                        }
                        assert(i as int == ci.len());
                        assert(ci =~= inst@);
                        assert(cp =~= port@);
                    }
                }
                return None;
            }
            proof {
                assert(s@.subrange(i as int, i + 1) =~= "["@);
                assert(s@ =~= target_text(inst@, port@));
                let (ci, cp) = choose|ci: Seq<char>, cp: Seq<char>|
                    ci.len() > 0 && bracket_free(ci) && bracket_free(cp) && s@ == target_text(
                        ci,
                        cp,
                    );
                lemma_target_text_unique(ci, cp, inst@, port@);
            }
            Some((inst.to_owned(), port.to_owned()))
        },
    }
}

impl ConnectionTargetDefinition {
    /// The names of the port this target refers to, if any.
    pub closed spec fn names(&self) -> Option<(Seq<char>, Seq<char>)> {
        target_names(self.target)
    }

    /// A target at port `port` of instance `instance`.
    pub fn new(instance: &str, port: &str) -> (r: ConnectionTargetDefinition)
        ensures
            r.names() == Some((instance@, port@)),
    {
        ConnectionTargetDefinition { target: Some(PortReference::new(instance, port)) }
    }

    /// The target that refers to no port.
    pub fn none() -> (r: ConnectionTargetDefinition)
        ensures
            r.names() is None,
    {
        ConnectionTargetDefinition { target: None }
    }

    pub fn is_none(&self) -> (r: bool)
        ensures
            r == self.names() is None,
    {
        self.target.is_none()
    }

    /// The target at `port`.
    pub fn from_port(port: PortReference) -> (r: ConnectionTargetDefinition)
        ensures
            r.names() == Some((port.instance@, port.port@)),
    {
        ConnectionTargetDefinition { target: Some(port) }
    }

    /// Whether the target is a port of instance `reference`.
    pub fn matches_instance(&self, reference: &str) -> (r: bool)
        ensures
            r == (self.names() is Some && self.names()->Some_0.0 == reference@),
    {
        match &self.target {
            Some(p) => str_eq(p.instance.as_str(), reference),
            None => false,
        }
    }

    /// Whether the target is a port named `port`.
    pub fn matches_port(&self, port: &str) -> (r: bool)
        ensures
            r == (self.names() is Some && self.names()->Some_0.1 == port@),
    {
        match &self.target {
            Some(p) => str_eq(p.port.as_str(), port),
            None => false,
        }
    }

    /// The instance name, or the placeholder for none.
    pub fn get_instance(&self) -> (r: &str)
        ensures
            self.names() is Some ==> r@ == self.names()->Some_0.0,
            self.names() is None ==> r@ == NONE_NAME@,
    {
        match &self.target {
            Some(p) => p.instance.as_str(),
            None => NONE_NAME,
        }
    }

    /// The instance name, or the placeholder for none, owned.
    pub fn get_instance_owned(&self) -> (r: String)
        ensures
            self.names() is Some ==> r@ == self.names()->Some_0.0,
            self.names() is None ==> r@ == NONE_NAME@,
    {
        self.get_instance().to_owned()
    }

    /// The port name, or the placeholder for none.
    pub fn get_port(&self) -> (r: &str)
        ensures
            self.names() is Some ==> r@ == self.names()->Some_0.1,
            self.names() is None ==> r@ == NONE_NAME@,
    {
        match &self.target {
            Some(p) => p.port.as_str(),
            None => NONE_NAME,
        }
    }

    /// The port name, or the placeholder for none, owned.
    pub fn get_port_owned(&self) -> (r: String)
        ensures
            self.names() is Some ==> r@ == self.names()->Some_0.1,
            self.names() is None ==> r@ == NONE_NAME@,
    {
        self.get_port().to_owned()
    }

    /// Parses a target written `instance[port]`.
    pub fn from_v0_str(s: &str) -> (r: Result<ConnectionTargetDefinition, ManifestError>)
        ensures
            r is Ok <==> parse_target(s@) is Some,
            r is Ok ==> r->Ok_0.names() == parse_target(s@),
            r is Err ==> r->Err_0 is ConnectionTargetSyntax && r->Err_0->ConnectionTargetSyntax_0@ == s@,
    {
        match parse_target_text(s) {
            Some((instance, port)) => Ok(
                ConnectionTargetDefinition { target: Some(PortReference { instance, port }) },
            ),
            None => Err(ManifestError::ConnectionTargetSyntax(s.to_owned())),
        }
    }

    /// A copy with the same names.
    pub fn duplicate(&self) -> (r: ConnectionTargetDefinition)
        ensures
            r.names() == self.names(),
    {
        match &self.target {
            Some(p) => ConnectionTargetDefinition { target: Some(p.duplicate()) },
            None => ConnectionTargetDefinition { target: None },
        }
    }
}

/// A link from an upstream port to a downstream port, with the default to deliver in
/// place of an upstream error.
#[derive(Debug, Clone, PartialEq, Eq)]
pub struct ConnectionDefinition {
    pub from: ConnectionTargetDefinition,
    pub to: ConnectionTargetDefinition,
    pub default: Option<DefaultValue>,
}

/// The characters between the two ends of a connection written `from => to`.
pub open spec fn arrow() -> Seq<char> {
    seq![' ', '=', '>', ' ']
}

impl ConnectionDefinition {
    /// A connection from `from` to `to` without a default.
    pub fn new(from: ConnectionTargetDefinition, to: ConnectionTargetDefinition) -> (r:
        ConnectionDefinition)
        ensures
            r.from.names() == from.names(),
            r.to.names() == to.names(),
            r.default is None,
    {
        ConnectionDefinition { from, to, default: None }
    }

    pub fn has_default(&self) -> (r: bool)
        ensures
            r == self.default is Some,
    {
        self.default.is_some()
    }

    /// The value the default yields in place of an error with message `err`.
    pub fn process_default(&self, err: &str) -> (r: Result<JsonScalar, ManifestError>)
        ensures
            self.default is None ==> r == Err::<JsonScalar, ManifestError>(
                ManifestError::NoDefault,
            ),
            self.default is Some ==> r is Ok && r->Ok_0@ == eval_default(
                self.default->Some_0@,
                err@,
            ),
    {
        match &self.default {
            Some(d) => Ok(d.evaluate(err)),
            None => Err(ManifestError::NoDefault),
        }
    }

    /// Parses a connection written `from => to`, each end written `instance[port]`;
    /// the two ends are split at the first arrow.
    pub fn from_v0_str(s: &str) -> (r: Result<ConnectionDefinition, ManifestError>)
        ensures
            r is Ok <==> (contains_arrow(s@) && parse_target(arrow_left(s@)) is Some
                && parse_target(arrow_right(s@)) is Some),
            r is Ok ==> r->Ok_0.from.names() == parse_target(arrow_left(s@)) && r->Ok_0.to.names()
                == parse_target(arrow_right(s@)) && r->Ok_0.default is None,
    {
        proof {
            reveal_strlit(" => ");
            assert(" => "@ =~= arrow());
        }
        match find_first(s, " => ") {
            None => Err(ManifestError::ConnectionDefinitionSyntax(s.to_owned())),
            Some(i) => {
                proof {
                    let k = first_arrow(s@);
                    assert(k == i as int) by {
                        if k < i as int {
                        } else if k > i as int {
                        }
                    }
                }
                let n = s.unicode_len();
                let left = s.substring_char(0, i);
                let right = s.substring_char(i + 4, n);
                let from = ConnectionTargetDefinition::from_v0_str(left);
                let to = ConnectionTargetDefinition::from_v0_str(right);
                match (from, to) {
                    (Ok(from), Ok(to)) => Ok(ConnectionDefinition { from, to, default: None }),
                    _ => Err(ManifestError::ConnectionDefinitionSyntax(s.to_owned())),
                }
            },
        }
    }

    /// A copy with the same ends and default.
    pub fn duplicate(&self) -> (r: ConnectionDefinition)
        ensures
            r.from.names() == self.from.names(),
            r.to.names() == self.to.names(),
            r.default is Some <==> self.default is Some,
            r.default is Some ==> r.default->Some_0@ == self.default->Some_0@,
    {
        let default = match &self.default {
            Some(d) => Some(d.duplicate()),
            None => None,
        };
        ConnectionDefinition { from: self.from.duplicate(), to: self.to.duplicate(), default }
    }
}

/// Whether `s` holds the arrow.
pub open spec fn contains_arrow(s: Seq<char>) -> bool {
    exists|i: int| occurs_at(s, arrow(), i)
}

/// The first position of the arrow in `s`.
pub open spec fn first_arrow(s: Seq<char>) -> int {
    choose|i: int| occurs_at(s, arrow(), i) && forall|j: int| 0 <= j < i ==> !occurs_at(s, arrow(), j)
}

/// What stands before the first arrow.
pub open spec fn arrow_left(s: Seq<char>) -> Seq<char> {
    s.subrange(0, first_arrow(s))
}

/// What stands after the first arrow.
pub open spec fn arrow_right(s: Seq<char>) -> Seq<char> {
    s.subrange(first_arrow(s) + 4, s.len() as int)
}

} // verus!

verus! {

/// A normalized schematic definition: instances in manifest order, connections in
/// manifest order, and the providers the instances are found on.
#[derive(Debug, Clone, PartialEq, Eq)]
pub struct SchematicDefinition {
    pub name: String,
    /// Instance names, each with the component it refers to.
    pub instances: Vec<(String, ComponentDefinition)>,
    pub connections: Vec<ConnectionDefinition>,
    pub providers: Vec<ProviderDefinition>,
    /// Reserved.
    pub constraints: Vec<(String, String)>,
}

impl SchematicDefinition {
    /// An empty schematic named `name`.
    pub fn new(name: &str) -> (r: SchematicDefinition)
        ensures
            r.name@ == name@,
            r.instances.len() == 0,
            r.connections.len() == 0,
            r.providers.len() == 0,
            r.constraints.len() == 0,
    {
        SchematicDefinition {
            name: name.to_owned(),
            instances: Vec::new(),
            connections: Vec::new(),
            providers: Vec::new(),
            constraints: Vec::new(),
        }
    }

    /// The position of the first instance named `instance`, if any.
    pub open spec fn instance_position(&self, instance: Seq<char>) -> Option<int> {
        if exists|k: int| 0 <= k < self.instances.len() && self.instances@[k].0@ == instance {
            Some(
                choose|k: int|
                    0 <= k < self.instances.len() && self.instances@[k].0@ == instance && forall|
                        j: int,
                    |
                        0 <= j < k ==> self.instances@[j].0@ != instance,
            )
        } else {
            None
        }
    }

    /// The schematic's name.
    pub fn get_name(&self) -> (r: String)
        ensures
            r@ == self.name@,
    {
        copy_string(&self.name)
    }

    /// The position of the first instance named `instance`.
    pub fn find_instance(&self, instance: &str) -> (r: Option<usize>)
        ensures
            r is Some <==> self.instance_position(instance@) is Some,
            r is Some ==> r->Some_0 as int == self.instance_position(instance@)->Some_0,
            r is Some ==> r->Some_0 < self.instances.len(),
    {
        let mut k: usize = 0;
        while k < self.instances.len()
            invariant
                k <= self.instances.len(),
                forall|j: int| 0 <= j < k ==> self.instances@[j].0@ != instance@,
            decreases self.instances.len() - k,
        {
            if str_eq(self.instances[k].0.as_str(), instance) {
                proof {
                    let c = self.instance_position(instance@)->Some_0;
                    assert(c == k as int) by {
                        if c < k as int {
                        } else if c > k as int {
                        }
                    }
                }
                return Some(k);
            }
            k = k + 1;
        }
        None
    }

    /// The component that instance `instance` refers to.
    pub fn get_component(&self, instance: &str) -> (r: Option<ComponentDefinition>)
        ensures
            r is Some <==> self.instance_position(instance@) is Some,
            r is Some ==> {
                let k = self.instance_position(instance@)->Some_0;
                &&& r->Some_0.id@ == self.instances@[k].1.id@
                &&& r->Some_0.name@ == self.instances@[k].1.name@
                &&& r->Some_0.namespace@ == self.instances@[k].1.namespace@
            },
    {
        match self.find_instance(instance) {
            Some(k) => Some(self.instances[k].1.duplicate()),
            None => None,
        }
    }

    /// Adds instance `instance` of component `component` after the others.
    pub fn add_instance(&mut self, instance: &str, component: ComponentDefinition)
        ensures
            final(self).instances@.len() == old(self).instances@.len() + 1,
            forall|k: int|
                0 <= k < old(self).instances@.len() ==> final(self).instances@[k] == old(
                    self,
                ).instances@[k],
            final(self).instances@.last().0@ == instance@,
            final(self).instances@.last().1 == component,
            final(self).name == old(self).name,
            final(self).connections == old(self).connections,
    {
        self.instances.push((instance.to_owned(), component));
    }

    /// Adds a connection after the others.
    pub fn add_connection(&mut self, connection: ConnectionDefinition)
        ensures
            final(self).connections@ == old(self).connections@.push(connection),
            final(self).name == old(self).name,
            final(self).instances == old(self).instances,
    {
        self.connections.push(connection);
    }
}

} // verus!
