//! A flow-graph interpreter core: packets, port buffers, schematic graphs,
//! a schematic validator and a per-transaction execution engine.
pub mod default_value;
pub mod definition;
pub mod entity;
pub mod error;
pub mod graph;
pub mod interface;
pub mod laws;
pub mod packet;
pub mod port;
pub mod registry;
pub mod seed;
pub mod settings;
pub mod statistics;
pub mod text;
pub mod transaction;
pub mod trigger;
pub mod validator;
