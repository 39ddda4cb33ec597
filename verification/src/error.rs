use vstd::prelude::*;

verus! {

/// Everything that can go wrong when building an engine or checking an input.
#[derive(Debug, PartialEq, Eq, Structural, PartialOrd, Ord, Hash)]
pub enum LuhnError {
    /// The alphabet holds no character at all.
    EmptyAlphabet,
    /// The alphabet holds this character more than once.
    DuplicateCharacter(char),
    /// The input is too short to work on.
    EmptyInput,
    /// The input holds this character, which the alphabet lacks.
    InvalidCharacter(char),
}

} // verus!
