use vstd::prelude::*;

verus! {

/// Every failure that the step core reports to its caller.
#[derive(Clone, Copy, Debug, PartialEq, Eq, Structural)]
pub enum GrapevineError {
    /// A phrase over 180 bytes or a username over 30 bytes.
    LengthExceeded,
    /// The private input carries no data and is not marked as chaff.
    UninitializedInput,
    /// The native evaluator was run without a usable private input.
    PrivateInputNotSet,
    /// A value could not be read, or the private input was not set, while
    /// building constraints.
    AssignmentMissing,
    /// A negative integer was converted into a field element.
    NegativeValue,
    /// An integer at or above the field modulus was converted into a field element.
    NotInField,
    /// The first slot of a pair is present while the second is absent.
    IncompleteLink,
    /// The circuit executor produced no usable witness.
    WitnessCalculationError,
    /// The constraints could not be generated or are not satisfied.
    Unsatisfiable,
}

/// The text that describes each error.
pub open spec fn error_text(e: GrapevineError) -> Seq<char> {
    match e {
        GrapevineError::LengthExceeded => "Phrase must be <= 180 bytes and usernames <= 30 bytes"@,
        GrapevineError::UninitializedInput => "Private input is neither populated nor chaff"@,
        GrapevineError::PrivateInputNotSet => "No private input provided to F circuit!"@,
        GrapevineError::AssignmentMissing => "Assignment missing while generating constraints"@,
        GrapevineError::NegativeValue => "BigInt is negative"@,
        GrapevineError::NotInField => "Could not get F from bigint"@,
        GrapevineError::IncompleteLink => "First slot is set but the second slot is empty"@,
        GrapevineError::WitnessCalculationError => "Failed to calculate witness"@,
        GrapevineError::Unsatisfiable => "Constraint system is unsatisfiable"@,
    }
}

impl GrapevineError {
    /// A human-readable description of the error.
    pub fn message(&self) -> (r: String)
        ensures
            r@ == error_text(*self),
    {
        match self {
            GrapevineError::LengthExceeded => "Phrase must be <= 180 bytes and usernames <= 30 bytes".to_string(),
            GrapevineError::UninitializedInput => "Private input is neither populated nor chaff".to_string(),
            GrapevineError::PrivateInputNotSet => "No private input provided to F circuit!".to_string(),
            GrapevineError::AssignmentMissing => "Assignment missing while generating constraints".to_string(),
            GrapevineError::NegativeValue => "BigInt is negative".to_string(),
            GrapevineError::NotInField => "Could not get F from bigint".to_string(),
            GrapevineError::IncompleteLink => "First slot is set but the second slot is empty".to_string(),
            GrapevineError::WitnessCalculationError => "Failed to calculate witness".to_string(),
            GrapevineError::Unsatisfiable => "Constraint system is unsatisfiable".to_string(),
        }
    }
}

} // verus!
