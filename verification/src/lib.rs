//! Serialization of record instances into ordered key/value mappings.
//!
//! A record is described by plain values: an optional enumerable backing
//! store, a fixed-layout marker and the declared field schema. The
//! serializers decide which entries are emitted, under which key, and hand
//! each value on as a [`value::ValueSerializer`] that carries the advanced
//! recursion state.

pub mod error;
pub mod state;
pub mod text;
pub mod value;
pub mod record;
pub mod dataclass;
