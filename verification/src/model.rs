//! The mathematical meaning of every operation, over sequences of characters.
//!
//! An engine is modelled by its alphabet in ascending order. A character's
//! codepoint is its position in that sequence, and the size of the alphabet is
//! the base of all checksum arithmetic.

use vstd::prelude::*;

use crate::error::LuhnError;

verus! {

/// The order in which an engine keeps its characters: by character value.
pub open spec fn char_order() -> spec_fn(char, char) -> bool {
    |a: char, b: char| a <= b
}

/// Each character is smaller than all that follow it.
pub open spec fn strictly_ascending(s: Seq<char>) -> bool {
    forall|i: int, j: int| 0 <= i < j < s.len() ==> s[i] < s[j]
}

/// The characters of `alphabet`, rearranged in ascending order.
pub open spec fn sorted_alphabet(alphabet: Seq<char>) -> Seq<char> {
    alphabet.sort_by(char_order())
}

/// `i` is the first position of `alphabet` whose character already occurred
/// to its left.
pub open spec fn is_first_repeat(alphabet: Seq<char>, i: int) -> bool {
    &&& 0 <= i < alphabet.len()
    &&& alphabet.take(i).no_duplicates()
    &&& alphabet.take(i).contains(alphabet[i])
}

/// Why `alphabet` cannot be made into an engine, if it cannot.
pub open spec fn alphabet_defect(alphabet: Seq<char>) -> Option<LuhnError> {
    if alphabet.len() == 0 {
        Some(LuhnError::EmptyAlphabet)
    } else if !alphabet.no_duplicates() {
        let i = choose|i: int| is_first_repeat(alphabet, i);
        Some(LuhnError::DuplicateCharacter(alphabet[i]))
    } else {
        None
    }
}

/// What an engine can be built on: at least one character, none of them twice.
pub open spec fn is_alphabet(alphabet: Seq<char>) -> bool {
    alphabet.len() > 0 && alphabet.no_duplicates()
}

/// Every character of `input` belongs to `alphabet`.
pub open spec fn drawn_from(alphabet: Seq<char>, input: Seq<char>) -> bool {
    forall|i: int| 0 <= i < input.len() ==> alphabet.contains(#[trigger] input[i])
}

/// `i` is the leftmost position of `input` whose character `alphabet` lacks.
pub open spec fn is_first_stranger(alphabet: Seq<char>, input: Seq<char>, i: int) -> bool {
    &&& 0 <= i < input.len()
    &&& drawn_from(alphabet, input.take(i))
    &&& !alphabet.contains(input[i])
}

/// The codepoint of `ch`: its position in `alphabet`.
pub open spec fn codepoint_of(alphabet: Seq<char>, ch: char) -> int {
    alphabet.index_of(ch)
}

/// The multiplier of the character at position `i`, counted from the left:
/// one, two, one, two and so on.
pub open spec fn factor_at(i: int) -> int {
    if i % 2 == 0 {
        1
    } else {
        2
    }
}

/// The sum of the two base-`n` digits of `factor * codepoint`.
pub open spec fn addend(n: int, factor: int, codepoint: int) -> int {
    (factor * codepoint) / n + (factor * codepoint) % n
}

/// The contribution of the character at position `i` of `input`.
pub open spec fn addend_at(alphabet: Seq<char>, input: Seq<char>, i: int) -> int {
    addend(alphabet.len() as int, factor_at(i), codepoint_of(alphabet, input[i]))
}

/// The sum of the contributions of all characters of `input`.
pub open spec fn luhn_sum(alphabet: Seq<char>, input: Seq<char>) -> int
    decreases input.len(),
{
    if input.len() == 0 {
        0
    } else {
        luhn_sum(alphabet, input.drop_last()) + addend_at(alphabet, input, input.len() - 1)
    }
}

/// The codepoint that brings the sum of `input` up to a multiple of the base.
pub open spec fn check_codepoint(alphabet: Seq<char>, input: Seq<char>) -> int {
    let n = alphabet.len() as int;
    (n - luhn_sum(alphabet, input) % n) % n
}

/// The check character of `input`, or the reason why it has none.
pub open spec fn luhn_generate(alphabet: Seq<char>, input: Seq<char>) -> Result<char, LuhnError> {
    if input.len() == 0 {
        Err(LuhnError::EmptyInput)
    } else if !drawn_from(alphabet, input) {
        let i = choose|i: int| is_first_stranger(alphabet, input, i);
        Err(LuhnError::InvalidCharacter(input[i]))
    } else {
        Ok(alphabet[check_codepoint(alphabet, input)])
    }
}

/// Whether the last character of `input` is the check character of the rest.
pub open spec fn luhn_validate(alphabet: Seq<char>, input: Seq<char>) -> Result<bool, LuhnError> {
    if input.len() <= 1 {
        Err(LuhnError::EmptyInput)
    } else {
        match luhn_generate(alphabet, input.drop_last()) {
            Ok(expected) => Ok(input.last() == expected),
            Err(e) => Err(e),
        }
    }
}

/// Whether `check` is the check character of `input`.
pub open spec fn luhn_validate_with(alphabet: Seq<char>, input: Seq<char>, check: char) -> Result<
    bool,
    LuhnError,
> {
    if input.len() <= 1 {
        Err(LuhnError::EmptyInput)
    } else {
        match luhn_generate(alphabet, input) {
            Ok(expected) => Ok(check == expected),
            Err(e) => Err(e),
        }
    }
}

} // verus!
