//! Laws of the model: what holds of every alphabet and every input.
//!
//! The first two say that "the first offender" names one position only, so
//! that the errors of the model are determined. The others relate building,
//! generating and validating to each other.

use vstd::arithmetic::div_mod::lemma_mod_bound;
use vstd::prelude::*;
use vstd::seq_lib::{lemma_sorted_unique, to_multiset_len};

use crate::error::LuhnError;
use crate::lemmas::{
    lemma_ascending_is_alphabet, lemma_ascending_is_sorted_alphabet, lemma_char_order_total,
};
use crate::model::{
    char_order, check_codepoint, drawn_from, is_alphabet, is_first_repeat, is_first_stranger,
    luhn_generate, luhn_sum, luhn_validate, luhn_validate_with, sorted_alphabet,
    strictly_ascending,
};

verus! {

/// An alphabet has at most one first repeat, and has one only if it holds a
/// character twice.
pub proof fn lemma_first_repeat(alphabet: Seq<char>, i: int)
    requires
        is_first_repeat(alphabet, i),
    ensures
        !alphabet.no_duplicates(),
        (choose|k: int| is_first_repeat(alphabet, k)) == i,
{
    let j = choose|j: int| 0 <= j < alphabet.take(i).len() && alphabet.take(i)[j] == alphabet[i];
    assert(alphabet[j] == alphabet[i]);
    let k = choose|k: int| is_first_repeat(alphabet, k);
    if k < i {
        let m = choose|m: int|
            0 <= m < alphabet.take(k).len() && alphabet.take(k)[m] == alphabet[k];
        assert(alphabet.take(i)[m] == alphabet.take(i)[k]);
    } else if i < k {
        assert(alphabet.take(k)[j] == alphabet.take(k)[i]);
    }
}

/// An input has at most one first stranger, and has one only if it is not
/// drawn from the alphabet.
pub proof fn lemma_first_stranger(alphabet: Seq<char>, input: Seq<char>, i: int)
    requires
        is_first_stranger(alphabet, input, i),
    ensures
        !drawn_from(alphabet, input),
        (choose|k: int| is_first_stranger(alphabet, input, k)) == i,
{
    let k = choose|k: int| is_first_stranger(alphabet, input, k);
    if k < i {
        assert(input.take(i)[k] == input[k]);
    } else if i < k {
        assert(input.take(k)[i] == input[i]);
    }
}

/// Sorting an alphabet keeps its characters, each exactly once, and puts them
/// in ascending order: what an engine holds is an alphabet again.
pub proof fn lemma_sorted_alphabet(alphabet: Seq<char>)
    requires
        is_alphabet(alphabet),
    ensures
        strictly_ascending(sorted_alphabet(alphabet)),
        is_alphabet(sorted_alphabet(alphabet)),
        sorted_alphabet(alphabet).len() == alphabet.len(),
        sorted_alphabet(alphabet).to_multiset() == alphabet.to_multiset(),
        forall|c: char| #[trigger] sorted_alphabet(alphabet).contains(c) <==> alphabet.contains(c),
{
    broadcast use vstd::seq_lib::group_to_multiset_ensures;

    let sorted = sorted_alphabet(alphabet);
    lemma_char_order_total();
    alphabet.lemma_sort_by_ensures(char_order());
    alphabet.lemma_multiset_has_no_duplicates();
    sorted.lemma_multiset_has_no_duplicates_conv();
    to_multiset_len(alphabet);
    to_multiset_len(sorted);
    assert forall|i: int, j: int| 0 <= i < j < sorted.len() implies sorted[i] < sorted[j] by {
        assert(char_order()(sorted[i], sorted[j]));
    }
    assert forall|c: char| #[trigger] sorted.contains(c) <==> alphabet.contains(c) by {
        assert(sorted.to_multiset().count(c) == alphabet.to_multiset().count(c));
    }
}

/// An alphabet that already ascends is kept as it is.
pub proof fn lemma_ascending_alphabet_is_kept(alphabet: Seq<char>)
    requires
        strictly_ascending(alphabet),
    ensures
        sorted_alphabet(alphabet) == alphabet,
        alphabet.no_duplicates(),
{
    lemma_ascending_is_alphabet(alphabet);
    lemma_ascending_is_sorted_alphabet(alphabet, alphabet);
}

/// The order in which an alphabet's characters are given makes no
/// difference: two alphabets that hold the same characters are both accepted
/// or both refused, and if accepted give one and the same engine, which
/// generates and validates alike on every input.
pub proof fn lemma_order_is_irrelevant(first: Seq<char>, second: Seq<char>)
    requires
        first.to_multiset() == second.to_multiset(),
    ensures
        is_alphabet(first) <==> is_alphabet(second),
        sorted_alphabet(first) == sorted_alphabet(second),
        forall|input: Seq<char>| #[trigger]
            luhn_generate(sorted_alphabet(first), input) == luhn_generate(
                sorted_alphabet(second),
                input,
            ),
        forall|input: Seq<char>| #[trigger]
            luhn_validate(sorted_alphabet(first), input) == luhn_validate(
                sorted_alphabet(second),
                input,
            ),
        forall|input: Seq<char>, check: char| #[trigger]
            luhn_validate_with(sorted_alphabet(first), input, check) == luhn_validate_with(
                sorted_alphabet(second),
                input,
                check,
            ),
{
    broadcast use vstd::seq_lib::group_to_multiset_ensures;

    lemma_char_order_total();
    first.lemma_sort_by_ensures(char_order());
    second.lemma_sort_by_ensures(char_order());
    lemma_sorted_unique(sorted_alphabet(first), sorted_alphabet(second), char_order());
    to_multiset_len(first);
    to_multiset_len(second);
    if first.no_duplicates() {
        first.lemma_multiset_has_no_duplicates();
        second.lemma_multiset_has_no_duplicates_conv();
    }
    if second.no_duplicates() {
        second.lemma_multiset_has_no_duplicates();
        first.lemma_multiset_has_no_duplicates_conv();
    }
}

/// On an input of at least one character, all drawn from the alphabet,
/// generating never fails, and the check character belongs to the alphabet.
pub proof fn lemma_generate_succeeds(alphabet: Seq<char>, payload: Seq<char>)
    requires
        payload.len() >= 1,
        drawn_from(alphabet, payload),
    ensures
        luhn_generate(alphabet, payload) matches Ok(check) && alphabet.contains(check),
{
    assert(alphabet.contains(payload[0]));
    let n = alphabet.len() as int;
    let cp = check_codepoint(alphabet, payload);
    assert(0 <= cp < n) by {
        lemma_mod_bound(n - luhn_sum(alphabet, payload) % n, n);
    }
    assert(alphabet[cp] == luhn_generate(alphabet, payload)->Ok_0);
}

/// A payload followed by its own check character validates.
pub proof fn lemma_generate_then_validate(alphabet: Seq<char>, payload: Seq<char>)
    requires
        luhn_generate(alphabet, payload) is Ok,
    ensures
        luhn_validate(alphabet, payload.push(luhn_generate(alphabet, payload)->Ok_0)) == Ok::<
            bool,
            LuhnError,
        >(true),
{
    let check = luhn_generate(alphabet, payload)->Ok_0;
    assert(payload.push(check).drop_last() =~= payload);
}

/// A payload of two characters or more validates with its own check
/// character.
pub proof fn lemma_generate_then_validate_with(alphabet: Seq<char>, payload: Seq<char>)
    requires
        luhn_generate(alphabet, payload) is Ok,
        payload.len() >= 2,
    ensures
        luhn_validate_with(alphabet, payload, luhn_generate(alphabet, payload)->Ok_0) == Ok::<
            bool,
            LuhnError,
        >(true),
{
}

} // verus!
