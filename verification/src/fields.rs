//! The fuzzers' view of the program inputs: each input field's place in a
//! frame, how its values are modelled, and the part it plays.
use vstd::prelude::*;

verus! {

/// The part an input plays in reaching the program's deep states.
#[derive(Debug, Clone, Copy, PartialEq, Eq, Structural)]
pub enum FieldRole {
    /// Must stay low (e.g. a reset or stop) for state to accumulate.
    Inhibitor,
    /// A trigger that must pulse.
    Activator,
    /// Drives the accumulating state.
    Driver,
    Other,
}

/// How values of an input field are generated.
#[derive(Debug, Clone)]
pub enum FieldValueModel {
    /// A one-byte flag.
    Bool,
    /// A 16-bit integer, preferably one of the target values.
    I16 { targets: Vec<i16> },
    /// Raw bytes.
    Raw,
}

/// An input field as the mutators and frame generators use it (the
/// ranking score the fuzzers attach to it is kept beside it by the caller).
#[derive(Debug, Clone)]
pub struct InputFieldSpec {
    pub name: String,
    /// Offset within a frame.
    pub offset: usize,
    pub size: usize,
    pub model: FieldValueModel,
    pub role: FieldRole,
}

} // verus!
