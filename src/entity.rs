//! Entities an invocation can come from or go to, with their URLs and keys.
use vstd::prelude::*;

use crate::text::concat;

verus! {

/// The scheme of entity URLs.
pub const URL_SCHEME: &'static str = "wasmbus";

/// A failed conversion, naming what was asked for.
#[derive(Debug, Clone, Copy, PartialEq, Eq)]
pub struct ConversionError(pub &'static str);

/// A component as the target of an invocation.
#[derive(Debug, Clone, PartialEq, Eq)]
pub struct ComponentEntity {
    pub id: String,
    pub reference: String,
    pub name: String,
}

/// The entity an invocation comes from or goes to.
#[derive(Debug, Clone, PartialEq, Eq)]
pub enum VinoEntity {
    Test(String),
    Schematic(String),
    Component(ComponentEntity),
    Provider(String),
}

/// A port of an instance within a schematic.
#[derive(Debug, Clone, PartialEq, Eq, Hash, Default)]
pub struct PortEntity {
    pub schematic: String,
    pub reference: String,
    pub name: String,
}

/// The kind word and name of an entity, as its URL and key show them.
pub open spec fn entity_parts(e: VinoEntity) -> (Seq<char>, Seq<char>) {
    match e {
        VinoEntity::Test(n) => ("test"@, n@),
        VinoEntity::Schematic(n) => ("schematic"@, n@),
        VinoEntity::Component(c) => ("component"@, c.id@),
        VinoEntity::Provider(n) => ("provider"@, n@),
    }
}

impl VinoEntity {
    fn parts(&self) -> (r: (&'static str, &str))
        ensures
            r.0@ == entity_parts(*self).0,
            r.1@ == entity_parts(*self).1,
    {
        match self {
            VinoEntity::Test(n) => ("test", n.as_str()),
            VinoEntity::Schematic(n) => ("schematic", n.as_str()),
            VinoEntity::Component(c) => ("component", c.id.as_str()),
            VinoEntity::Provider(n) => ("provider", n.as_str()),
        }
    }

    /// The entity's URL: `wasmbus://<kind>/<name>`, a component named by its id.
    pub fn url(&self) -> (r: String)
        ensures
            r@ == "wasmbus"@ + "://"@ + entity_parts(*self).0 + "/"@ + entity_parts(*self).1,
    {
        let (kind, name) = self.parts();
        let a = concat(URL_SCHEME, "://");
        let b = concat(a.as_str(), kind);
        let c = concat(b.as_str(), "/");
        proof { reveal_strlit("wasmbus"); }
        concat(c.as_str(), name)
    }

    /// The entity's key: `<kind>:<name>`, a component named by its id.
    pub fn key(&self) -> (r: String)
        ensures
            r@ == entity_parts(*self).0 + ":"@ + entity_parts(*self).1,
    {
        let (kind, name) = self.parts();
        let a = concat(kind, ":");
        concat(a.as_str(), name)
    }

    /// The provider's name, if the entity is a provider.
    pub fn into_provider(self) -> (r: Result<String, ConversionError>)
        ensures
            self is Provider ==> r is Ok && r->Ok_0 == self->Provider_0,
            !(self is Provider) ==> r == Err::<String, ConversionError>(ConversionError("into_provider")),
    {
        match self {
            VinoEntity::Provider(s) => Ok(s),
            _ => Err(ConversionError("into_provider")),
        }
    }

    /// The component, if the entity is a component.
    pub fn into_component(self) -> (r: Result<ComponentEntity, ConversionError>)
        ensures
            self is Component ==> r is Ok && r->Ok_0 == self->Component_0,
            !(self is Component) ==> r == Err::<ComponentEntity, ConversionError>(ConversionError("into_component")),
    {
        match self {
            VinoEntity::Component(s) => Ok(s),
            _ => Err(ConversionError("into_component")),
        }
    }
}

impl PortEntity {
    /// The port `name` of instance `reference` in schematic `schematic`.
    pub fn new(schematic: String, reference: String, name: String) -> (r: PortEntity)
        ensures
            r.schematic == schematic,
            r.reference == reference,
            r.name == name,
    {
        PortEntity { schematic, reference, name }
    }
}

} // verus!
