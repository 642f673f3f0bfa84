//! Packets: port-tagged payloads that flow along the edges of a schematic.
use vstd::prelude::*;

use crate::text::copy_string;

verus! {

/// A JSON scalar, as produced by edge defaults and by components that do not encode.
#[derive(Debug, Clone, PartialEq, Eq)]
pub enum JsonScalar {
    Null,
    Bool(bool),
    Int(i64),
    Text(String),
}

/// The mathematical value of a [`JsonScalar`].
pub enum ScalarModel {
    Null,
    Bool(bool),
    Int(i64),
    Text(Seq<char>),
}

/// What a packet carries.
#[derive(Debug, Clone, PartialEq, Eq)]
pub enum Payload {
    /// Opaque bytes, with the name of the codec that produced them.
    Bytes(String, Vec<u8>),
    /// A typed JSON scalar.
    Json(JsonScalar),
    /// An in-band error with its message.
    Error(String),
    /// The terminator of a port's stream.
    Done,
    /// A packet that carries nothing and is dropped on arrival.
    Noop,
    /// A signal of the named kind.
    Signal(String),
}

/// The mathematical value of a [`Payload`].
pub enum PayloadModel {
    Bytes(Seq<char>, Seq<u8>),
    Json(ScalarModel),
    Error(Seq<char>),
    Done,
    Noop,
    Signal(Seq<char>),
}

/// A payload tagged with the name of the port it travels on.
#[derive(Debug, Clone, PartialEq, Eq)]
pub struct Packet {
    pub port: String,
    pub payload: Payload,
}

/// The mathematical value of a [`Packet`].
pub struct PacketModel {
    pub port: Seq<char>,
    pub payload: PayloadModel,
}

impl View for JsonScalar {
    type V = ScalarModel;

    open spec fn view(&self) -> ScalarModel {
        match self {
            JsonScalar::Null => ScalarModel::Null,
            JsonScalar::Bool(b) => ScalarModel::Bool(*b),
            JsonScalar::Int(i) => ScalarModel::Int(*i),
            JsonScalar::Text(s) => ScalarModel::Text(s@),
        }
    }
}

impl View for Payload {
    type V = PayloadModel;

    open spec fn view(&self) -> PayloadModel {
        match self {
            Payload::Bytes(c, b) => PayloadModel::Bytes(c@, b@),
            Payload::Json(j) => PayloadModel::Json(j@),
            Payload::Error(m) => PayloadModel::Error(m@),
            Payload::Done => PayloadModel::Done,
            Payload::Noop => PayloadModel::Noop,
            Payload::Signal(k) => PayloadModel::Signal(k@),
        }
    }
}

impl View for Packet {
    type V = PacketModel;

    open spec fn view(&self) -> PacketModel {
        PacketModel { port: self.port@, payload: self.payload@ }
    }
}

impl PacketModel {
    pub open spec fn is_done(self) -> bool {
        self.payload is Done
    }

    pub open spec fn is_error(self) -> bool {
        self.payload is Error
    }

    pub open spec fn is_noop(self) -> bool {
        self.payload is Noop
    }
}

fn copy_bytes(b: &Vec<u8>) -> (r: Vec<u8>)
    ensures
        r@ == b@,
{
    let mut r: Vec<u8> = Vec::new();
    let mut i: usize = 0;
    while i < b.len()
        invariant
            i <= b.len(),
            r@ == b@.subrange(0, i as int),
        decreases b.len() - i,
    {
        r.push(b[i]);
        i = i + 1;
        assert(r@ =~= b@.subrange(0, i as int));
    }
    assert(r@ =~= b@);
    r
}

impl JsonScalar {
    /// A copy with the same value.
    pub fn duplicate(&self) -> (r: JsonScalar)
        ensures
            r@ == self@,
    {
        match self {
            JsonScalar::Null => JsonScalar::Null,
            JsonScalar::Bool(b) => JsonScalar::Bool(*b),
            JsonScalar::Int(i) => JsonScalar::Int(*i),
            JsonScalar::Text(s) => JsonScalar::Text(copy_string(s)),
        }
    }
}

impl Payload {
    /// A copy with the same value.
    pub fn duplicate(&self) -> (r: Payload)
        ensures
            r@ == self@,
    {
        match self {
            Payload::Bytes(c, b) => Payload::Bytes(copy_string(c), copy_bytes(b)),
            Payload::Json(j) => Payload::Json(j.duplicate()),
            Payload::Error(m) => Payload::Error(copy_string(m)),
            Payload::Done => Payload::Done,
            Payload::Noop => Payload::Noop,
            Payload::Signal(k) => Payload::Signal(copy_string(k)),
        }
    }
}

impl Packet {
    /// A packet on `port` with the given payload.
    pub fn new(port: &str, payload: Payload) -> (r: Packet)
        ensures
            r@.port == port@,
            r@.payload == payload@,
    {
        Packet { port: port.to_owned(), payload }
    }

    /// The terminator of `port`'s stream.
    pub fn done(port: &str) -> (r: Packet)
        ensures
            r@ == (PacketModel { port: port@, payload: PayloadModel::Done }),
    {
        Packet { port: port.to_owned(), payload: Payload::Done }
    }

    /// An in-band error on `port` with the given message.
    pub fn error(port: &str, message: &str) -> (r: Packet)
        ensures
            r@ == (PacketModel { port: port@, payload: PayloadModel::Error(message@) }),
    {
        Packet { port: port.to_owned(), payload: Payload::Error(message.to_owned()) }
    }

    /// A copy with the same value.
    pub fn duplicate(&self) -> (r: Packet)
        ensures
            r@ == self@,
    {
        Packet { port: copy_string(&self.port), payload: self.payload.duplicate() }
    }

    pub fn is_done(&self) -> (r: bool)
        ensures
            r == self@.is_done(),
    {
        match self.payload {
            Payload::Done => true,
            _ => false,
        }
    }

    pub fn is_error(&self) -> (r: bool)
        ensures
            r == self@.is_error(),
    {
        match self.payload {
            Payload::Error(_) => true,
            _ => false,
        }
    }

    pub fn is_noop(&self) -> (r: bool)
        ensures
            r == self@.is_noop(),
    {
        match self.payload {
            Payload::Noop => true,
            _ => false,
        }
    }
}

} // verus!
