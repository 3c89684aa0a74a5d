use vstd::prelude::*;

verus! {

/// The faults that end the serialization of a record.
#[derive(Clone, Copy, Debug, PartialEq, Eq)]
pub enum SerializeError {
    /// The recursion depth budget is exhausted.
    RecursionLimit,
    /// A key of a backing store is not text-typed.
    KeyMustBeStr,
    /// A key or a field name is text-typed but does not decode to valid text.
    InvalidStr,
}

} // verus!
