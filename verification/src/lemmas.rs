//! Facts about ascending sequences and the running sum, on which the
//! engine's proofs rest.

use vstd::prelude::*;
use vstd::relations::{
    antisymmetric, reflexive, sorted_by, strongly_connected, total_ordering, transitive,
};
use vstd::seq_lib::lemma_sorted_unique;

use crate::model::{
    addend, addend_at, char_order, luhn_sum, sorted_alphabet, strictly_ascending,
};

verus! {

/// An ascending sequence holds no character twice, and is sorted in the
/// order that engines keep.
pub(crate) proof fn lemma_ascending_is_alphabet(s: Seq<char>)
    requires
        strictly_ascending(s),
    ensures
        s.no_duplicates(),
        sorted_by(s, char_order()),
{
    assert forall|i: int, j: int| 0 <= i < s.len() && 0 <= j < s.len() && i != j implies s[i]
        != s[j] by {
        if i < j {
            assert(s[i] < s[j]);
        } else {
            assert(s[j] < s[i]);
        }
    }
    assert forall|i: int, j: int| 0 <= i < j < s.len() implies #[trigger] char_order()(
        s[i],
        s[j],
    ) by {
        assert(s[i] < s[j]);
    }
}

/// An ascending sequence is no longer than there are characters.
pub(crate) proof fn lemma_ascending_bound(s: Seq<char>)
    requires
        strictly_ascending(s),
    ensures
        s.len() <= 0x11_0000,
{
    if s.len() > 0 {
        lemma_ascending_climbs(s, s.len() - 1);
        lemma_char_range(s.last());
    }
}

/// In an ascending sequence the character at position `i` has at least the
/// value `i`.
proof fn lemma_ascending_climbs(s: Seq<char>, i: int)
    requires
        strictly_ascending(s),
        0 <= i < s.len(),
    ensures
        i <= s[i] as int,
    decreases i,
{
    if i > 0 {
        lemma_ascending_climbs(s, i - 1);
        assert(s[i - 1] < s[i]);
    } else {
        lemma_char_range(s[0]);
    }
}

/// A character's value lies between zero and the largest code point.
proof fn lemma_char_range(c: char)
    ensures
        0 <= c as int <= 0x10_FFFF,
{
}

/// Reading one more character adds that character's contribution to the sum.
pub(crate) proof fn lemma_luhn_sum_step(alphabet: Seq<char>, input: Seq<char>, i: int)
    requires
        0 <= i < input.len(),
    ensures
        luhn_sum(alphabet, input.take(i + 1)) == luhn_sum(alphabet, input.take(i)) + addend_at(
            alphabet,
            input,
            i,
        ),
{
    assert(input.take(i + 1).drop_last() =~= input.take(i));
}

/// The two base-`n` digits of the product of a factor and a codepoint sum to
/// less than `n`.
pub(crate) proof fn lemma_addend_bound(n: int, factor: int, codepoint: int)
    requires
        1 <= factor <= 2,
        0 <= codepoint < n,
    ensures
        0 <= addend(n, factor, codepoint) < n,
{
    let p = factor * codepoint;
    assert(0 <= p <= 2 * n - 2) by (nonlinear_arith)
        requires
            1 <= factor <= 2,
            0 <= codepoint < n,
            p == factor * codepoint,
    ;
    if p < n {
        assert(p / n == 0 && p % n == p) by (nonlinear_arith)
            requires
                0 <= p < n,
        ;
    } else {
        assert(p / n == 1 && p % n == p - n) by (nonlinear_arith)
            requires
                n <= p < 2 * n,
        ;
    }
}

/// Comparing characters by value orders them totally.
pub(crate) proof fn lemma_char_order_total()
    ensures
        total_ordering(char_order()),
{
    let leq = char_order();
    assert(reflexive(leq));
    assert(antisymmetric(leq));
    assert(transitive(leq));
    assert(strongly_connected(leq));
}

/// What results from putting a character into an ascending sequence, between
/// the smaller characters and the larger ones, ascends as well.
pub(crate) proof fn lemma_insert_keeps_ascending(s: Seq<char>, at: int, ch: char)
    requires
        strictly_ascending(s),
        0 <= at <= s.len(),
        forall|k: int| 0 <= k < at ==> s[k] < ch,
        forall|k: int| at <= k < s.len() ==> ch < s[k],
    ensures
        strictly_ascending(s.insert(at, ch)),
{
    let t = s.insert(at, ch);
    assert forall|i: int, j: int| 0 <= i < j < t.len() implies t[i] < t[j] by {
        let a = if i < at { s[i] } else if i == at { ch } else { s[i - 1] };
        let b = if j < at { s[j] } else if j == at { ch } else { s[j - 1] };
        assert(t[i] == a);
        assert(t[j] == b);
    }
}

/// An ascending sequence that holds the characters of `alphabet`, each as
/// often as `alphabet` does, is `alphabet` sorted.
pub(crate) proof fn lemma_ascending_is_sorted_alphabet(alphabet: Seq<char>, s: Seq<char>)
    requires
        strictly_ascending(s),
        s.to_multiset() == alphabet.to_multiset(),
    ensures
        s == sorted_alphabet(alphabet),
{
    lemma_char_order_total();
    lemma_ascending_is_alphabet(s);
    alphabet.lemma_sort_by_ensures(char_order());
    lemma_sorted_unique(s, sorted_alphabet(alphabet), char_order());
}

} // verus!
