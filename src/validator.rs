//! Static checks of a schematic before it may run, in three phases: early (before
//! component signatures are known), late (with the `self` namespace left out) and final.
use vstd::prelude::*;

use crate::definition::{
    parse_id, ComponentDefinition, ConnectionDefinition, ConnectionTargetDefinition,
    SchematicDefinition, SCHEMATIC_INPUT, SCHEMATIC_OUTPUT,
};
use crate::text::{concat, copy_string, str_eq};

verus! {

/// The namespace that stands for the schematics of the host itself.
pub const SELF_NAMESPACE: &'static str = "self";

/// A named port of a component's signature, with its declared type.
#[derive(Debug, Clone, PartialEq, Eq)]
pub struct PortSignature {
    pub name: String,
    pub type_string: String,
}

/// A component's signature: its input and output ports.
#[derive(Debug, Clone, PartialEq, Eq)]
pub struct ComponentModel {
    pub namespace: String,
    pub name: String,
    pub inputs: Vec<PortSignature>,
    pub outputs: Vec<PortSignature>,
}

/// The signatures of the components a provider offers on its namespace.
#[derive(Debug, Clone, PartialEq, Eq)]
pub struct ProviderModel {
    pub namespace: String,
    pub components: Vec<ComponentModel>,
}

/// A schematic definition together with the provider signatures known so far.
#[derive(Debug)]
pub struct SchematicModel {
    pub definition: SchematicDefinition,
    pub providers: Vec<ProviderModel>,
}

/// A violation found by the validator.
#[derive(Debug, PartialEq, Eq)]
pub enum ValidationError {
    PostInitError(String, Vec<ValidationError>),
    EarlyError(String, Vec<ValidationError>),
    NoOutputs,
    NoInputs,
    MissingComponentModels(Vec<String>),
    DanglingReference(Vec<String>),
    NotFullyQualified(Vec<String>),
    InvalidOutputPort(ConnectionTargetDefinition, ConnectionDefinition, Vec<PortSignature>),
    InvalidInputPort(ConnectionTargetDefinition, ConnectionDefinition, Vec<PortSignature>),
    InvalidConnections(Vec<ValidationError>),
    /// An instance whose component has no known signature.
    ReferenceNotFound(String),
}

/// The instance a connection end names, or the placeholder for none.
pub open spec fn end_instance(t: ConnectionTargetDefinition) -> Seq<char> {
    match t.names() {
        Some(n) => n.0,
        None => "<None>"@,
    }
}

/// Whether provider `p` of `m` is on namespace `ns` and offers a component named `name`.
pub open spec fn provider_offers(m: &SchematicModel, p: int, ns: Seq<char>, name: Seq<char>) -> bool {
    0 <= p < m.providers.len() && m.providers@[p].namespace@ == ns && exists|c: int|
        0 <= c < m.providers@[p].components.len() && m.providers@[p].components@[c].name@ == name
}

/// Where the signature of component `name` on namespace `ns` is found: the first provider
/// that offers it, and the first such component there.
pub open spec fn model_pos(m: &SchematicModel, ns: Seq<char>, name: Seq<char>) -> Option<(int, int)> {
    if exists|p: int| provider_offers(m, p, ns, name) {
        let p = choose|p: int| provider_offers(m, p, ns, name) && forall|q: int| 0 <= q < p ==> !provider_offers(m, q, ns, name);
        let comps = m.providers@[p].components@;
        let c = choose|c: int| 0 <= c < comps.len() && comps[c].name@ == name && forall|d: int| 0 <= d < c ==> comps[d].name@ != name;
        Some((p, c))
    } else {
        None
    }
}

/// The component definition of instance `r`.
pub open spec fn def_of(m: &SchematicModel, r: Seq<char>) -> Option<ComponentDefinition> {
    match m.definition.instance_position(r) {
        Some(k) => Some(m.definition.instances@[k].1),
        None => None,
    }
}

/// The signature of the component that instance `r` refers to.
pub open spec fn model_of_ref(m: &SchematicModel, r: Seq<char>) -> Option<ComponentModel> {
    match def_of(m, r) {
        Some(d) => match model_pos(m, d.namespace@, d.name@) {
            Some((p, c)) => Some(m.providers@[p].components@[c]),
            None => None,
        },
        None => None,
    }
}

/// Whether `list` holds `ns`.
pub open spec fn omitted(list: Seq<Seq<char>>, ns: Seq<char>) -> bool {
    exists|i: int| 0 <= i < list.len() && list[i] == ns
}

/// Whether instance `r` refers to a component on an omitted namespace.
pub open spec fn omit_ref(m: &SchematicModel, list: Seq<Seq<char>>, r: Seq<char>) -> bool {
    def_of(m, r) is Some && omitted(list, def_of(m, r)->Some_0.namespace@)
}

/// Whether `sigs` holds a port named `name`.
pub open spec fn has_port(sigs: Seq<PortSignature>, name: Seq<char>) -> bool {
    exists|i: int| 0 <= i < sigs.len() && sigs[i].name@ == name
}

/// Whether a connection end names a port that `sigs` holds.
pub open spec fn end_port_in(t: ConnectionTargetDefinition, sigs: Seq<PortSignature>) -> bool {
    t.names() is Some && has_port(sigs, t.names()->Some_0.1)
}

/// The dangling instance names of connection `c`.
pub open spec fn dangling_of(m: &SchematicModel, c: int) -> Seq<Seq<char>> {
    let conn = m.definition.connections@[c];
    let f = end_instance(conn.from);
    let t = end_instance(conn.to);
    (if def_of(m, f) is None && conn.default is None && f != "<input>"@ {
        seq![f]
    } else {
        Seq::empty()
    }) + (if def_of(m, t) is None && t != "<output>"@ {
        seq![t]
    } else {
        Seq::empty()
    })
}

/// The dangling instance names of the first `n` connections, in order.
pub open spec fn dangling_upto(m: &SchematicModel, n: int) -> Seq<Seq<char>>
    decreases n,
{
    if n <= 0 {
        Seq::empty()
    } else {
        dangling_upto(m, n - 1) + dangling_of(m, n - 1)
    }
}

/// The entry for instance `k` if its component has no known signature and is not omitted.
pub open spec fn missing_of(m: &SchematicModel, list: Seq<Seq<char>>, k: int) -> Seq<Seq<char>> {
    let (r, d) = m.definition.instances@[k];
    if model_pos(m, d.namespace@, d.name@) is None && !omitted(list, d.namespace@) {
        seq![r@ + "=>"@ + d.id@]
    } else {
        Seq::empty()
    }
}

/// The missing-signature entries of the first `n` instances, in order.
pub open spec fn missing_upto(m: &SchematicModel, list: Seq<Seq<char>>, n: int) -> Seq<Seq<char>>
    decreases n,
{
    if n <= 0 {
        Seq::empty()
    } else {
        missing_upto(m, list, n - 1) + missing_of(m, list, n - 1)
    }
}

/// Whether `id` holds the namespace separator, and so splits into namespace and name.
pub open spec fn qualified(id: Seq<char>) -> bool {
    exists|i: int| crate::text::occurs_at(id, crate::definition::separator(), i)
}

/// The ids of the first `n` instances that are not fully qualified, in order.
pub open spec fn unqualified_upto(m: &SchematicModel, n: int) -> Seq<Seq<char>>
    decreases n,
{
    if n <= 0 {
        Seq::empty()
    } else {
        unqualified_upto(m, n - 1) + (if !qualified(m.definition.instances@[n - 1].1.id@) {
            seq![m.definition.instances@[n - 1].1.id@]
        } else {
            Seq::empty()
        })
    }
}

/// The names of a connection's two ends and the value of its default.
pub type ConnectionView = (Option<(Seq<char>, Seq<char>)>, Option<(Seq<char>, Seq<char>)>, Option<crate::default_value::DefaultModel>);

/// The view of a connection: its ends' names and its default's value.
pub open spec fn connection_view(c: ConnectionDefinition) -> ConnectionView {
    (c.from.names(), c.to.names(), match c.default {
        Some(d) => Some(d@),
        None => None,
    })
}

/// The names and declared types of a list of port signatures.
pub open spec fn sigs_view(v: Seq<PortSignature>) -> Seq<(Seq<char>, Seq<char>)> {
    v.map_values(|p: PortSignature| (p.name@, p.type_string@))
}

/// A copy of a list of port signatures.
fn copy_sigs(v: &Vec<PortSignature>) -> (r: Vec<PortSignature>)
    ensures
        sigs_view(r@) == sigs_view(v@),
{
    let mut r: Vec<PortSignature> = Vec::new();
    let mut i: usize = 0;
    while i < v.len()
        invariant
            i <= v.len(),
            r.len() == i,
            forall|j: int| 0 <= j < i ==> (#[trigger] r@[j]).name@ == v@[j].name@ && r@[j].type_string@ == v@[j].type_string@,
        decreases v.len() - i,
    {
        r.push(PortSignature { name: copy_string(&v[i].name), type_string: copy_string(&v[i].type_string) });
        i = i + 1;
    }
    assert(sigs_view(r@) =~= sigs_view(v@));
    r
}

/// What the port check reports of one connection end.
pub enum Issue {
    /// The upstream end, the connection, and the output ports available.
    BadOutput(Option<(Seq<char>, Seq<char>)>, ConnectionView, Seq<(Seq<char>, Seq<char>)>),
    /// The downstream end, the connection, and the input ports available.
    BadInput(Option<(Seq<char>, Seq<char>)>, ConnectionView, Seq<(Seq<char>, Seq<char>)>),
    Missing(Seq<char>),
    Other,
}

/// The issue an error of the port check stands for.
pub open spec fn issue_of(e: ValidationError) -> Issue {
    match e {
        ValidationError::InvalidOutputPort(t, c, sigs) => Issue::BadOutput(t.names(), connection_view(c), sigs_view(sigs@)),
        ValidationError::InvalidInputPort(t, c, sigs) => Issue::BadInput(t.names(), connection_view(c), sigs_view(sigs@)),
        ValidationError::ReferenceNotFound(r) => Issue::Missing(r@),
        _ => Issue::Other,
    }
}

/// The issues of connection `c`: an end on a known component must name one of its ports;
/// an end on an unknown component is reported unless it is omitted (or, upstream,
/// covered by a default). The schematic's own boundaries are not checked.
pub open spec fn port_issues_of(m: &SchematicModel, list: Seq<Seq<char>>, c: int) -> Seq<Issue> {
    from_issues(m, list, c) + to_issues(m, list, c)
}

/// The issues of the upstream end of connection `c`.
pub open spec fn from_issues(m: &SchematicModel, list: Seq<Seq<char>>, c: int) -> Seq<Issue> {
    let conn = m.definition.connections@[c];
    let f = end_instance(conn.from);
    if f == "<input>"@ {
        Seq::empty()
    } else if model_of_ref(m, f) is Some {
        if end_port_in(conn.from, model_of_ref(m, f)->Some_0.outputs@) {
            Seq::empty()
        } else {
            seq![Issue::BadOutput(conn.from.names(), connection_view(conn), sigs_view(model_of_ref(m, f)->Some_0.outputs@))]
        }
    } else if conn.default is None && !omit_ref(m, list, f) {
        seq![Issue::Missing(f)]
    } else {
        Seq::empty()
    }
}

/// The issues of the downstream end of connection `c`.
pub open spec fn to_issues(m: &SchematicModel, list: Seq<Seq<char>>, c: int) -> Seq<Issue> {
    let conn = m.definition.connections@[c];
    let t = end_instance(conn.to);
    if t == "<output>"@ {
        Seq::empty()
    } else if model_of_ref(m, t) is Some {
        if end_port_in(conn.to, model_of_ref(m, t)->Some_0.inputs@) {
            Seq::empty()
        } else {
            seq![Issue::BadInput(conn.to.names(), connection_view(conn), sigs_view(model_of_ref(m, t)->Some_0.inputs@))]
        }
    } else if !omit_ref(m, list, t) {
        seq![Issue::Missing(t)]
    } else {
        Seq::empty()
    }
}

/// The issues of the first `n` connections, in order.
pub open spec fn port_issues_upto(m: &SchematicModel, list: Seq<Seq<char>>, n: int) -> Seq<Issue>
    decreases n,
{
    if n <= 0 {
        Seq::empty()
    } else {
        port_issues_upto(m, list, n - 1) + port_issues_of(m, list, n - 1)
    }
}

/// The downstream ends of the connections into the output boundary, in order.
pub open spec fn output_ends_upto(m: &SchematicModel, n: int) -> Seq<Option<(Seq<char>, Seq<char>)>>
    decreases n,
{
    if n <= 0 {
        Seq::empty()
    } else {
        let t = m.definition.connections@[n - 1].to;
        output_ends_upto(m, n - 1) + (if end_instance(t) == "<output>"@ {
            seq![t.names()]
        } else {
            Seq::empty()
        })
    }
}

/// The first connection into port `port`.
pub open spec fn upstream_of(m: &SchematicModel, port: Option<(Seq<char>, Seq<char>)>) -> Option<int> {
    let conns = m.definition.connections@;
    if exists|c: int| 0 <= c < conns.len() && conns[c].to.names() == port {
        Some(choose|c: int| 0 <= c < conns.len() && conns[c].to.names() == port && forall|d: int| 0 <= d < c ==> conns[d].to.names() != port)
    } else {
        None
    }
}

/// Whether port `port` is fed, within `fuel` steps upstream, from the schematic input or
/// from a default-only connection.
#[verifier::opaque]
pub open spec fn fed(m: &SchematicModel, port: Option<(Seq<char>, Seq<char>)>, fuel: nat) -> bool
    decreases fuel,
{
    match upstream_of(m, port) {
        None => false,
        Some(c) => {
            let conn = m.definition.connections@[c];
            if end_instance(conn.from) == "<input>"@ || (conn.from.names() is None && conn.default is Some) {
                true
            } else if fuel == 0 {
                false
            } else {
                exists|d: int| 0 <= d < m.definition.connections.len()
                    && end_instance(m.definition.connections@[d].to) == end_instance(conn.from)
                    && fed(m, m.definition.connections@[d].to.names(), (fuel - 1) as nat)
            }
        }
    }
}

/// The step bound of the upstream search: one more than the number of connections.
pub open spec fn search_fuel(m: &SchematicModel) -> nat {
    m.definition.connections.len() as nat + 1
}

/// Whether every output of the schematic is fed from its input or a default.
pub open spec fn inputs_reach(m: &SchematicModel) -> bool {
    let outs = output_ends_upto(m, m.definition.connections.len() as int);
    forall|i: int| 0 <= i < outs.len() ==> fed(m, #[trigger] outs[i], search_fuel(m))
}


/// Whether `list` holds `ns`.
pub fn should_omit(ns: &str, list: &Vec<String>) -> (r: bool)
    ensures
        r == omitted(list@.map_values(|s: String| s@), ns@),
{
    let ghost l = list@.map_values(|s: String| s@);
    let mut i: usize = 0;
    while i < list.len()
        invariant
            l == list@.map_values(|s: String| s@),
            i <= list.len(),
            forall|j: int| 0 <= j < i ==> l[j] != ns@,
        decreases list.len() - i,
    {
        if str_eq(list[i].as_str(), ns) {
            assert(l[i as int] == ns@);
            return true;
        }
        i = i + 1;
    }
    false
}

/// Whether two connection ends name the same port, or both none.
fn same_end(a: &ConnectionTargetDefinition, b: &ConnectionTargetDefinition) -> (r: bool)
    ensures
        r == (a.names() == b.names()),
{
    if a.is_none() || b.is_none() {
        return a.is_none() && b.is_none();
    }
    str_eq(a.get_instance(), b.get_instance()) && str_eq(a.get_port(), b.get_port())
}

/// Whether `sigs` holds a port that the end `t` names.
fn find_port_sig(t: &ConnectionTargetDefinition, sigs: &Vec<PortSignature>) -> (r: bool)
    ensures
        r == end_port_in(*t, sigs@),
{
    let mut i: usize = 0;
    while i < sigs.len()
        invariant
            i <= sigs.len(),
            forall|j: int| 0 <= j < i ==> !(t.names() is Some && sigs@[j].name@ == t.names()->Some_0.1),
        decreases sigs.len() - i,
    {
        if t.matches_port(sigs[i].name.as_str()) {
            return true;
        }
        i = i + 1;
    }
    false
}

/// The input ports of `to` must include the downstream port of `connection`.
pub fn is_valid_input(connection: &ConnectionDefinition, to: &ComponentModel) -> (r: Result<(), ValidationError>)
    ensures
        r is Ok <==> end_port_in(connection.to, to.inputs@),
        r is Err ==> r->Err_0 is InvalidInputPort && issue_of(r->Err_0) == Issue::BadInput(
            connection.to.names(),
            connection_view(*connection),
            sigs_view(to.inputs@),
        ),
{
    if find_port_sig(&connection.to, &to.inputs) {
        Ok(())
    } else {
        Err(ValidationError::InvalidInputPort(connection.to.duplicate(), connection.duplicate(), copy_sigs(&to.inputs)))
    }
}

/// The output ports of `from` must include the upstream port of `connection`.
pub fn is_valid_output(connection: &ConnectionDefinition, from: &ComponentModel) -> (r: Result<(), ValidationError>)
    ensures
        r is Ok <==> end_port_in(connection.from, from.outputs@),
        r is Err ==> r->Err_0 is InvalidOutputPort && issue_of(r->Err_0) == Issue::BadOutput(
            connection.from.names(),
            connection_view(*connection),
            sigs_view(from.outputs@),
        ),
{
    if find_port_sig(&connection.from, &from.outputs) {
        Ok(())
    } else {
        Err(ValidationError::InvalidOutputPort(connection.from.duplicate(), connection.duplicate(), copy_sigs(&from.outputs)))
    }
}

/// Whether `id` is fully qualified.
fn is_qualified(id: &str) -> (r: bool)
    ensures
        r == qualified(id@),
{
    parse_id(id).is_ok()
}

/// The position of the first component named `name`.
fn find_component(comps: &Vec<ComponentModel>, name: &str) -> (r: Option<usize>)
    ensures
        r is Some ==> r->Some_0 < comps.len() && comps@[r->Some_0 as int].name@ == name@ && forall|d: int|
            0 <= d < r->Some_0 ==> comps@[d].name@ != name@,
        r is None ==> forall|d: int| 0 <= d < comps.len() ==> comps@[d].name@ != name@,
{
    let mut c: usize = 0;
    while c < comps.len()
        invariant
            c <= comps.len(),
            forall|d: int| 0 <= d < c ==> comps@[d].name@ != name@,
        decreases comps.len() - c,
    {
        if str_eq(comps[c].name.as_str(), name) {
            return Some(c);
        }
        c = c + 1;
    }
    None
}

impl SchematicModel {
    /// A model of `definition` with no provider signatures yet.
    pub fn new(definition: SchematicDefinition) -> (r: SchematicModel)
        ensures
            r.definition == definition,
            r.providers.len() == 0,
    {
        SchematicModel { definition, providers: Vec::new() }
    }

    /// The schematic's name.
    pub fn get_name(&self) -> (r: String)
        ensures
            r@ == self.definition.name@,
    {
        copy_string(&self.definition.name)
    }

    /// Adds provider signatures after those already known.
    pub fn commit_providers(&mut self, providers: Vec<ProviderModel>)
        ensures
            final(self).definition == old(self).definition,
            final(self).providers@ == old(self).providers@ + providers@,
    {
        let mut providers = providers;
        self.providers.append(&mut providers);
    }

    /// Where the signature of component `name` on namespace `ns` is found.
    pub fn find_model(&self, ns: &str, name: &str) -> (r: Option<(usize, usize)>)
        ensures
            r is Some <==> model_pos(self, ns@, name@) is Some,
            r is Some ==> model_pos(self, ns@, name@) == Some((r->Some_0.0 as int, r->Some_0.1 as int)),
            r is Some ==> r->Some_0.0 < self.providers.len() && r->Some_0.1 < self.providers@[r->Some_0.0 as int].components.len(),
    {
        let mut p: usize = 0;
        while p < self.providers.len()
            invariant
                p <= self.providers.len(),
                forall|q: int| 0 <= q < p ==> !provider_offers(self, q, ns@, name@),
            decreases self.providers.len() - p,
        {
            let provider = &self.providers[p];
            if str_eq(provider.namespace.as_str(), ns) {
                match find_component(&provider.components, name) {
                    Some(c) => {
                        proof {
                            assert(provider_offers(self, p as int, ns@, name@));
                            let pp = choose|pp: int| provider_offers(self, pp, ns@, name@) && forall|q: int| 0 <= q < pp ==> !provider_offers(self, q, ns@, name@);
                            assert(pp == p as int) by {
                                if pp < p as int {
                                } else if pp > p as int {
                                }
                            }
                            let comps = self.providers@[pp].components@;
                            let cc = choose|cc: int| 0 <= cc < comps.len() && comps[cc].name@ == name@ && forall|d: int| 0 <= d < cc ==> comps[d].name@ != name@;
                            assert(cc == c as int) by {
                                if cc < c as int {
                                } else if cc > c as int {
                                }
                            }
                        }
                        return Some((p, c));
                    },
                    None => {},
                }
            }
            p = p + 1;
        }
        None
    }

    /// The signature of the component that instance `r` refers to.
    pub fn get_component_model_by_ref(&self, r: &str) -> (res: Option<&ComponentModel>)
        ensures
            res is Some <==> model_of_ref(self, r@) is Some,
            res is Some ==> *res->Some_0 == model_of_ref(self, r@)->Some_0,
    {
        match self.definition.find_instance(r) {
            None => None,
            Some(k) => {
                let d = &self.definition.instances[k].1;
                match self.find_model(d.namespace.as_str(), d.name.as_str()) {
                    Some((p, c)) => Some(&self.providers[p].components[c]),
                    None => None,
                }
            },
        }
    }
}

/// The validator of one schematic, with the namespaces whose references it leaves out.
pub struct Validator<'a> {
    model: &'a SchematicModel,
    omit_namespaces: Vec<String>,
}


/// The kind of a validation error, without its payload.
pub open spec fn kind_of(e: ValidationError) -> int {
    match e {
        ValidationError::NoInputs => 0,
        ValidationError::NoOutputs => 1,
        ValidationError::NotFullyQualified(_) => 2,
        ValidationError::DanglingReference(_) => 3,
        ValidationError::MissingComponentModels(_) => 4,
        ValidationError::InvalidConnections(_) => 5,
        _ => 6,
    }
}

/// The views of a list of strings.
pub open spec fn views(v: Vec<String>) -> Seq<Seq<char>> {
    v@.map_values(|s: String| s@)
}

impl<'a> Validator<'a> {
    /// The namespaces left out, as character sequences.
    pub closed spec fn omit_list(&self) -> Seq<Seq<char>> {
        views(self.omit_namespaces)
    }

    /// The model under validation.
    pub closed spec fn model_spec(&self) -> &'a SchematicModel {
        self.model
    }

    /// A validator of `model` that leaves out references to `omit_namespaces`.
    pub fn new(model: &'a SchematicModel, omit_namespaces: Vec<String>) -> (r: Validator<'a>)
        ensures
            r.model_spec() == model,
            r.omit_list() == views(omit_namespaces),
    {
        Validator { model, omit_namespaces }
    }

    /// Whether instance `reference` refers to a component on an omitted namespace.
    pub fn should_omit_ref(&self, reference: &str) -> (r: bool)
        ensures
            r == omit_ref(self.model_spec(), self.omit_list(), reference@),
    {
        match self.model.definition.find_instance(reference) {
            Some(k) => should_omit(self.model.definition.instances[k].1.namespace.as_str(), &self.omit_namespaces),
            None => false,
        }
    }

    /// Whether `def` is on an omitted namespace.
    pub fn should_omit_def(&self, def: &ComponentDefinition) -> (r: bool)
        ensures
            r == omitted(self.omit_list(), def.namespace@),
    {
        should_omit(def.namespace.as_str(), &self.omit_namespaces)
    }

    /// Every connection end must name a declared instance, except the schematic's own
    /// boundaries and an upstream end covered by a default.
    pub fn assert_no_dangling_references(&self) -> (r: Result<(), ValidationError>)
        ensures
            r is Ok <==> dangling_upto(self.model_spec(), self.model_spec().definition.connections.len() as int).len() == 0,
            r is Err ==> r->Err_0 is DanglingReference && views(r->Err_0->DanglingReference_0) == dangling_upto(
                self.model_spec(),
                self.model_spec().definition.connections.len() as int,
            ),
    {
        let m = self.model;
        let conns = &m.definition.connections;
        let mut dangling: Vec<String> = Vec::new();
        let mut c: usize = 0;
        while c < conns.len()
            invariant
                m == self.model_spec(),
                conns == m.definition.connections,
                c <= conns.len(),
                views(dangling) == dangling_upto(m, c as int),
            decreases conns.len() - c,
        {
            let conn = &conns[c];
            let f = conn.from.get_instance();
            let t = conn.to.get_instance();
            let ghost d0 = views(dangling);
            proof { reveal_strlit("<input>"); reveal_strlit("<output>"); reveal_strlit("<None>"); }
            if m.definition.find_instance(f).is_none() && !conn.has_default() && !str_eq(f, SCHEMATIC_INPUT) {
                dangling.push(f.to_owned());
            }
            let ghost d1 = views(dangling);
            if m.definition.find_instance(t).is_none() && !str_eq(t, SCHEMATIC_OUTPUT) {
                dangling.push(t.to_owned());
            }
            proof {
                assert(end_instance(conn.from) == f@);
                assert(end_instance(conn.to) == t@);
                assert(views(dangling) =~= d0 + dangling_of(m, c as int));
            }
            c = c + 1;
        }
        if dangling.len() == 0 {
            Ok(())
        } else {
            Err(ValidationError::DanglingReference(dangling))
        }
    }
}


impl<'a> Validator<'a> {
    /// Every instance must refer to a component whose signature is known, unless its
    /// namespace is left out; each missing one is reported as `instance=>id`.
    pub fn assert_component_models(&self) -> (r: Result<(), ValidationError>)
        ensures
            r is Ok <==> missing_upto(self.model_spec(), self.omit_list(), self.model_spec().definition.instances.len() as int).len() == 0,
            r is Err ==> r->Err_0 is MissingComponentModels && views(r->Err_0->MissingComponentModels_0) == missing_upto(
                self.model_spec(),
                self.omit_list(),
                self.model_spec().definition.instances.len() as int,
            ),
    {
        let m = self.model;
        let instances = &m.definition.instances;
        let mut missing: Vec<String> = Vec::new();
        let mut k: usize = 0;
        while k < instances.len()
            invariant
                m == self.model_spec(),
                instances == m.definition.instances,
                k <= instances.len(),
                views(missing) == missing_upto(m, self.omit_list(), k as int),
            decreases instances.len() - k,
        {
            let (r, d) = &instances[k];
            let ghost m0 = views(missing);
            if m.find_model(d.namespace.as_str(), d.name.as_str()).is_none() && !self.should_omit_def(d) {
                proof { reveal_strlit("=>"); }
                let head = concat(r.as_str(), "=>");
                let entry = concat(head.as_str(), d.id.as_str());
                missing.push(entry);
            }
            proof {
                assert(views(missing) =~= m0 + missing_of(m, self.omit_list(), k as int));
            }
            k = k + 1;
        }
        if missing.len() == 0 {
            Ok(())
        } else {
            Err(ValidationError::MissingComponentModels(missing))
        }
    }

    /// Every instance's component id must be fully qualified.
    pub fn assert_early_qualified_names(&self) -> (r: Result<(), ValidationError>)
        ensures
            r is Ok <==> unqualified_upto(self.model_spec(), self.model_spec().definition.instances.len() as int).len() == 0,
            r is Err ==> r->Err_0 is NotFullyQualified && views(r->Err_0->NotFullyQualified_0) == unqualified_upto(
                self.model_spec(),
                self.model_spec().definition.instances.len() as int,
            ),
    {
        let m = self.model;
        let instances = &m.definition.instances;
        let mut errors: Vec<String> = Vec::new();
        let mut k: usize = 0;
        while k < instances.len()
            invariant
                m == self.model_spec(),
                instances == m.definition.instances,
                k <= instances.len(),
                views(errors) == unqualified_upto(m, k as int),
            decreases instances.len() - k,
        {
            let d = &instances[k].1;
            let ghost e0 = views(errors);
            if !is_qualified(d.id.as_str()) {
                errors.push(copy_string(&d.id));
            }
            proof {
                assert(views(errors) =~= unqualified_upto(m, k + 1)) by {
                    reveal_with_fuel(unqualified_upto, 1);
                }
            }
            k = k + 1;
        }
        if errors.len() == 0 {
            Ok(())
        } else {
            Err(ValidationError::NotFullyQualified(errors))
        }
    }

    /// The downstream ends of the connections into the output boundary, in order.
    pub fn get_schematic_outputs(&self) -> (r: Vec<&ConnectionTargetDefinition>)
        ensures
            r@.map_values(|t: &ConnectionTargetDefinition| t.names()) == output_ends_upto(
                self.model_spec(),
                self.model_spec().definition.connections.len() as int,
            ),
    {
        let conns = &self.model.definition.connections;
        let mut r: Vec<&ConnectionTargetDefinition> = Vec::new();
        let mut c: usize = 0;
        while c < conns.len()
            invariant
                conns == self.model_spec().definition.connections,
                c <= conns.len(),
                r@.map_values(|t: &ConnectionTargetDefinition| t.names()) == output_ends_upto(self.model_spec(), c as int),
            decreases conns.len() - c,
        {
            proof { reveal_strlit("<output>"); reveal_strlit("<None>"); }
            let t = &conns[c].to;
            let inst = t.get_instance();
            if str_eq(inst, SCHEMATIC_OUTPUT) {
                r.push(t);
            }
            proof {
                assert(end_instance(*t) == inst@);
                assert(r@.map_values(|t: &ConnectionTargetDefinition| t.names()) =~= output_ends_upto(self.model_spec(), c + 1));
            }
            c = c + 1;
        }
        r
    }

    /// The schematic must have at least one output.
    pub fn assert_early_schematic_outputs(&self) -> (r: Result<(), ValidationError>)
        ensures
            r is Ok <==> output_ends_upto(self.model_spec(), self.model_spec().definition.connections.len() as int).len() > 0,
            r is Err ==> r->Err_0 is NoOutputs,
    {
        let ports = self.get_schematic_outputs();
        if ports.len() == 0 {
            Err(ValidationError::NoOutputs)
        } else {
            Ok(())
        }
    }
}


/// The issues of a list of errors.
pub open spec fn issues(v: Vec<ValidationError>) -> Seq<Issue> {
    v@.map_values(|e: ValidationError| issue_of(e))
}

impl<'a> Validator<'a> {
    /// The issues of the upstream end of connection `c`, appended to `errors`.
    fn check_from_port(&self, c: usize, errors: &mut Vec<ValidationError>)
        requires
            c < self.model_spec().definition.connections.len(),
        ensures
            issues(*final(errors)) == issues(*old(errors)) + from_issues(self.model_spec(), self.omit_list(), c as int),
    {
        proof { reveal_strlit("<input>"); reveal_strlit("<None>"); }
        let m = self.model;
        let connection = &m.definition.connections[c];
        let ghost e0 = issues(*errors);
        let f = connection.from.get_instance();
        assert(end_instance(connection.from) == f@);
        if !str_eq(f, SCHEMATIC_INPUT) {
            match m.get_component_model_by_ref(f) {
                Some(from) => {
                    if let Err(e) = is_valid_output(connection, from) {
                        errors.push(e);
                    }
                },
                None => {
                    if !connection.has_default() && !self.should_omit_ref(f) {
                        errors.push(ValidationError::ReferenceNotFound(f.to_owned()));
                    }
                },
            }
        }
        assert(issues(*errors) =~= e0 + from_issues(m, self.omit_list(), c as int));
    }

    /// The issues of the downstream end of connection `c`, appended to `errors`.
    fn check_to_port(&self, c: usize, errors: &mut Vec<ValidationError>)
        requires
            c < self.model_spec().definition.connections.len(),
        ensures
            issues(*final(errors)) == issues(*old(errors)) + to_issues(self.model_spec(), self.omit_list(), c as int),
    {
        proof { reveal_strlit("<output>"); reveal_strlit("<None>"); }
        let m = self.model;
        let connection = &m.definition.connections[c];
        let ghost e0 = issues(*errors);
        let t = connection.to.get_instance();
        assert(end_instance(connection.to) == t@);
        if !str_eq(t, SCHEMATIC_OUTPUT) {
            match m.get_component_model_by_ref(t) {
                Some(to) => {
                    if let Err(e) = is_valid_input(connection, to) {
                        errors.push(e);
                    }
                },
                None => {
                    if !self.should_omit_ref(t) {
                        errors.push(ValidationError::ReferenceNotFound(t.to_owned()));
                    }
                },
            }
        }
        assert(issues(*errors) =~= e0 + to_issues(m, self.omit_list(), c as int));
    }

    /// Every connection end on a known component must name one of its ports; an end on
    /// an unknown component is reported unless left out or covered by a default.
    pub fn assert_ports_used(&self) -> (r: Result<(), ValidationError>)
        ensures
            r is Ok <==> port_issues_upto(self.model_spec(), self.omit_list(), self.model_spec().definition.connections.len() as int).len() == 0,
            r is Err ==> r->Err_0 is InvalidConnections && issues(r->Err_0->InvalidConnections_0) == port_issues_upto(
                self.model_spec(),
                self.omit_list(),
                self.model_spec().definition.connections.len() as int,
            ),
    {
        let n = self.model.definition.connections.len();
        let mut errors: Vec<ValidationError> = Vec::new();
        let mut c: usize = 0;
        proof { assert(issues(errors) =~= Seq::<Issue>::empty()); }
        while c < n
            invariant
                n == self.model_spec().definition.connections.len(),
                c <= n,
                issues(errors) == port_issues_upto(self.model_spec(), self.omit_list(), c as int),
            decreases n - c,
        {
            let ghost e0 = issues(errors);
            self.check_from_port(c, &mut errors);
            self.check_to_port(c, &mut errors);
            assert(issues(errors) =~= port_issues_upto(self.model_spec(), self.omit_list(), c + 1));
            c = c + 1;
        }
        if errors.len() == 0 {
            Ok(())
        } else {
            Err(ValidationError::InvalidConnections(errors))
        }
    }

    /// The first connection into the port that `port` names.
    fn get_upstream_connection(&self, port: &ConnectionTargetDefinition) -> (r: Option<usize>)
        ensures
            r is Some <==> upstream_of(self.model_spec(), port.names()) is Some,
            r is Some ==> r->Some_0 as int == upstream_of(self.model_spec(), port.names())->Some_0,
            r is Some ==> r->Some_0 < self.model_spec().definition.connections.len(),
    {
        let conns = &self.model.definition.connections;
        let mut c: usize = 0;
        while c < conns.len()
            invariant
                conns == self.model_spec().definition.connections,
                c <= conns.len(),
                forall|d: int| 0 <= d < c ==> conns@[d].to.names() != port.names(),
            decreases conns.len() - c,
        {
            if same_end(&conns[c].to, port) {
                proof {
                    let k = upstream_of(self.model_spec(), port.names())->Some_0;
                    assert(k == c as int) by {
                        if k < c as int {
                        } else if k > c as int {
                        }
                    }
                }
                return Some(c);
            }
            c = c + 1;
        }
        None
    }

    /// Whether the port that `port` names is fed, within `fuel` steps upstream, from the
    /// schematic input or from a default-only connection. The bound makes the search end
    /// on a cycle of connections; on an acyclic schematic a bound of one more than the
    /// number of connections is never reached.
    #[verifier::rlimit(40)]
    pub fn validate_port_has_upstream_input(&self, port: &ConnectionTargetDefinition, fuel: usize) -> (r: bool)
        ensures
            r == fed(self.model_spec(), port.names(), fuel as nat),
        decreases fuel,
    {
        proof { reveal_strlit("<input>"); reveal_strlit("<None>"); reveal(fed); }
        let m = self.model;
        let c = match self.get_upstream_connection(port) {
            Some(c) => c,
            None => return false,
        };
        let connection = &m.definition.connections[c];
        let upstream = connection.from.get_instance();
        assert(end_instance(connection.from) == upstream@);
        if str_eq(upstream, SCHEMATIC_INPUT) || (connection.from.is_none() && connection.has_default()) {
            return true;
        }
        if fuel == 0 {
            return false;
        }
        let conns = &m.definition.connections;
        let mut d: usize = 0;
        while d < conns.len()
            invariant
                m == self.model_spec(),
                conns == m.definition.connections,
                upstream@ == end_instance(connection.from),
                upstream_of(m, port.names()) == Some(c as int),
                c < conns.len(),
                *connection == conns@[c as int],
                !(end_instance(connection.from) == "<input>"@ || (connection.from.names() is None && connection.default is Some)),
                fuel > 0,
                d <= conns.len(),
                forall|j: int| 0 <= j < d ==> !(end_instance(conns@[j].to) == upstream@ && fed(m, conns@[j].to.names(), (fuel - 1) as nat)),
            decreases conns.len() - d,
        {
            let inst = conns[d].to.get_instance();
            assert(end_instance(conns@[d as int].to) == inst@);
            if str_eq(inst, upstream) && self.validate_port_has_upstream_input(&conns[d].to, fuel - 1) {
                proof {
                    assert(fed(m, conns@[d as int].to.names(), (fuel - 1) as nat));
                    assert(upstream_of(m, port.names()) == Some(c as int));
                    reveal(fed);
                    assert(fed(m, port.names(), fuel as nat));
                }
                return true;
            }
            d = d + 1;
        }
        proof { reveal(fed); }
        false
    }

    /// Every output of the schematic must be fed from its input or from a default.
    pub fn assert_early_schematic_inputs(&self) -> (r: Result<(), ValidationError>)
        requires
            self.model_spec().definition.connections.len() + 1 < usize::MAX,
        ensures
            r is Ok <==> inputs_reach(self.model_spec()),
            r is Err ==> r->Err_0 is NoInputs,
    {
        let ports = self.get_schematic_outputs();
        let fuel = self.model.definition.connections.len() + 1;
        let ghost outs = output_ends_upto(self.model_spec(), self.model_spec().definition.connections.len() as int);
        let mut i: usize = 0;
        while i < ports.len()
            invariant
                outs == ports@.map_values(|t: &ConnectionTargetDefinition| t.names()),
                fuel as nat == search_fuel(self.model_spec()),
                outs == output_ends_upto(self.model_spec(), self.model_spec().definition.connections.len() as int),
                i <= ports.len(),
                forall|j: int| 0 <= j < i ==> fed(self.model_spec(), #[trigger] outs[j], search_fuel(self.model_spec())),
            decreases ports.len() - i,
        {
            assert(outs[i as int] == ports@[i as int].names());
            if !self.validate_port_has_upstream_input(ports[i], fuel) {
                return Err(ValidationError::NoInputs);
            }
            i = i + 1;
        }
        Ok(())
    }
}


/// `seq![k]` when `fails`, else nothing.
pub open spec fn kind_if(fails: bool, k: int) -> Seq<int> {
    if fails {
        seq![k]
    } else {
        Seq::empty()
    }
}

/// The kinds of the early errors of `m`, in the order they are reported.
pub open spec fn early_kinds(m: &SchematicModel) -> Seq<int> {
    let n = m.definition.connections.len() as int;
    kind_if(!inputs_reach(m), 0) + kind_if(output_ends_upto(m, n).len() == 0, 1) + kind_if(
        unqualified_upto(m, m.definition.instances.len() as int).len() > 0,
        2,
    ) + kind_if(dangling_upto(m, n).len() > 0, 3)
}

/// Whether an early error carries the payload its check reports.
pub open spec fn early_payload(m: &SchematicModel, e: ValidationError) -> bool {
    match e {
        ValidationError::NotFullyQualified(v) => views(v) == unqualified_upto(m, m.definition.instances.len() as int),
        ValidationError::DanglingReference(v) => views(v) == dangling_upto(m, m.definition.connections.len() as int),
        _ => true,
    }
}

/// The kinds of the late errors of `m` with the namespaces `list` left out.
pub open spec fn late_kinds(m: &SchematicModel, list: Seq<Seq<char>>) -> Seq<int> {
    kind_if(missing_upto(m, list, m.definition.instances.len() as int).len() > 0, 4) + kind_if(
        port_issues_upto(m, list, m.definition.connections.len() as int).len() > 0,
        5,
    )
}

/// Whether a late error carries the payload its check reports.
pub open spec fn late_payload(m: &SchematicModel, list: Seq<Seq<char>>, e: ValidationError) -> bool {
    match e {
        ValidationError::MissingComponentModels(v) => views(v) == missing_upto(m, list, m.definition.instances.len() as int),
        ValidationError::InvalidConnections(v) => issues(v) == port_issues_upto(m, list, m.definition.connections.len() as int),
        _ => true,
    }
}

/// The namespace list of the late phase: the host's own namespace.
pub open spec fn self_list() -> Seq<Seq<char>> {
    seq!["self"@]
}

fn push_err(errors: &mut Vec<ValidationError>, r: Result<(), ValidationError>)
    ensures
        r is Ok ==> *final(errors) == *old(errors),
        r is Err ==> final(errors)@ == old(errors)@.push(r->Err_0),
{
    if let Err(e) = r {
        errors.push(e);
    }
}

impl<'a> Validator<'a> {
    /// The late checks, with the given namespaces left out.
    fn late_errors(model: &'a SchematicModel, omit: Vec<String>) -> (r: Result<(), ValidationError>)
        ensures
            r is Ok <==> late_kinds(model, views(omit)).len() == 0,
            r is Err ==> r->Err_0 is PostInitError && r->Err_0->PostInitError_0@ == model.definition.name@
                && r->Err_0->PostInitError_1@.map_values(|e: ValidationError| kind_of(e)) == late_kinds(model, views(omit))
                && forall|i: int| 0 <= i < r->Err_0->PostInitError_1@.len() ==> late_payload(model, views(omit), #[trigger] r->Err_0->PostInitError_1@[i]),
    {
        let validator = Validator::new(model, omit);
        let name = model.get_name();
        let mut errors: Vec<ValidationError> = Vec::new();
        let ghost list = validator.omit_list();
        push_err(&mut errors, validator.assert_component_models());
        let ghost e1 = errors@;
        push_err(&mut errors, validator.assert_ports_used());
        proof {
            assert(errors@.map_values(|e: ValidationError| kind_of(e)) =~= late_kinds(model, list));
            assert forall|i: int| 0 <= i < errors@.len() implies late_payload(model, list, #[trigger] errors@[i]) by {
                if i < e1.len() {
                    assert(errors@[i] == e1[i]);
                }
            }
        }
        if errors.len() == 0 {
            Ok(())
        } else {
            Err(ValidationError::PostInitError(name, errors))
        }
    }

    /// The early checks: outputs fed from the input, some output, qualified component
    /// ids, and no dangling references. Failures are collected, not cut short.
    pub fn validate_early_errors(model: &'a SchematicModel) -> (r: Result<(), ValidationError>)
        requires
            model.definition.connections.len() + 1 < usize::MAX,
        ensures
            r is Ok <==> early_kinds(model).len() == 0,
            r is Err ==> r->Err_0 is EarlyError && r->Err_0->EarlyError_0@ == model.definition.name@
                && r->Err_0->EarlyError_1@.map_values(|e: ValidationError| kind_of(e)) == early_kinds(model)
                && forall|i: int| 0 <= i < r->Err_0->EarlyError_1@.len() ==> early_payload(model, #[trigger] r->Err_0->EarlyError_1@[i]),
    {
        let mut omit: Vec<String> = Vec::new();
        omit.push(SELF_NAMESPACE.to_owned());
        let validator = Validator::new(model, omit);
        let name = model.get_name();
        let mut errors: Vec<ValidationError> = Vec::new();
        push_err(&mut errors, validator.assert_early_schematic_inputs());
        let ghost e1 = errors@;
        push_err(&mut errors, validator.assert_early_schematic_outputs());
        let ghost e2 = errors@;
        push_err(&mut errors, validator.assert_early_qualified_names());
        let ghost e3 = errors@;
        push_err(&mut errors, validator.assert_no_dangling_references());
        proof {
            assert(errors@.map_values(|e: ValidationError| kind_of(e)) =~= early_kinds(model));
            assert forall|i: int| 0 <= i < errors@.len() implies early_payload(model, #[trigger] errors@[i]) by {
                if i < e1.len() {
                    assert(errors@[i] == e1[i]);
                } else if i < e2.len() {
                    assert(errors@[i] == e2[i]);
                } else if i < e3.len() {
                    assert(errors@[i] == e3[i]);
                }
            }
        }
        if errors.len() == 0 {
            Ok(())
        } else {
            Err(ValidationError::EarlyError(name, errors))
        }
    }

    /// The late checks, with references to the `self` namespace left out: every
    /// component's signature is known, and every connection names existing ports.
    pub fn validate_late_errors(model: &'a SchematicModel) -> (r: Result<(), ValidationError>)
        ensures
            r is Ok <==> late_kinds(model, self_list()).len() == 0,
            r is Err ==> r->Err_0 is PostInitError && r->Err_0->PostInitError_0@ == model.definition.name@
                && r->Err_0->PostInitError_1@.map_values(|e: ValidationError| kind_of(e)) == late_kinds(model, self_list())
                && forall|i: int| 0 <= i < r->Err_0->PostInitError_1@.len() ==> late_payload(model, self_list(), #[trigger] r->Err_0->PostInitError_1@[i]),
    {
        let mut omit: Vec<String> = Vec::new();
        omit.push(SELF_NAMESPACE.to_owned());
        proof {
            reveal_strlit("self");
            assert(views(omit) =~= self_list());
        }
        Self::late_errors(model, omit)
    }

    /// The late checks with nothing left out; run once the `self` signatures are known.
    pub fn validate_final_errors(model: &'a SchematicModel) -> (r: Result<(), ValidationError>)
        ensures
            r is Ok <==> late_kinds(model, Seq::empty()).len() == 0,
            r is Err ==> r->Err_0 is PostInitError && r->Err_0->PostInitError_0@ == model.definition.name@
                && r->Err_0->PostInitError_1@.map_values(|e: ValidationError| kind_of(e)) == late_kinds(model, Seq::empty())
                && forall|i: int| 0 <= i < r->Err_0->PostInitError_1@.len() ==> late_payload(model, Seq::empty(), #[trigger] r->Err_0->PostInitError_1@[i]),
    {
        let omit: Vec<String> = Vec::new();
        proof { assert(views(omit) =~= Seq::<Seq<char>>::empty()); }
        Self::late_errors(model, omit)
    }

    /// The early checks; if they fail, their error unchanged, and otherwise the result of
    /// the late checks.
    pub fn _validate(model: &'a SchematicModel) -> (r: Result<(), ValidationError>)
        requires
            model.definition.connections.len() + 1 < usize::MAX,
        ensures
            r is Ok <==> early_kinds(model).len() == 0 && late_kinds(model, self_list()).len() == 0,
            early_kinds(model).len() > 0 ==> r is Err && r->Err_0 is EarlyError && r->Err_0->EarlyError_0@ == model.definition.name@
                && r->Err_0->EarlyError_1@.map_values(|e: ValidationError| kind_of(e)) == early_kinds(model)
                && forall|i: int| 0 <= i < r->Err_0->EarlyError_1@.len() ==> early_payload(model, #[trigger] r->Err_0->EarlyError_1@[i]),
            early_kinds(model).len() == 0 && late_kinds(model, self_list()).len() > 0 ==> r is Err && r->Err_0 is PostInitError
                && r->Err_0->PostInitError_0@ == model.definition.name@
                && r->Err_0->PostInitError_1@.map_values(|e: ValidationError| kind_of(e)) == late_kinds(model, self_list())
                && forall|i: int| 0 <= i < r->Err_0->PostInitError_1@.len() ==> late_payload(model, self_list(), #[trigger] r->Err_0->PostInitError_1@[i]),
    {
        match Self::validate_early_errors(model) {
            Err(e) => Err(e),
            Ok(()) => Self::validate_late_errors(model),
        }
    }
}

} // verus!
