//! The checksum engine: an alphabet, frozen in ascending order, and the
//! operations that compute and check a check character over it.

use vstd::arithmetic::div_mod::{lemma_add_mod_noop, lemma_small_mod};
use vstd::prelude::*;
use vstd::seq_lib::{
    to_multiset_build, to_multiset_contains, to_multiset_insert, to_multiset_len,
};
use vstd::string::*;

use crate::error::LuhnError;
use crate::laws::{lemma_first_repeat, lemma_first_stranger};
use crate::lemmas::{
    lemma_addend_bound, lemma_ascending_bound, lemma_ascending_is_alphabet,
    lemma_ascending_is_sorted_alphabet, lemma_insert_keeps_ascending, lemma_luhn_sum_step,
};
use crate::model::{
    addend_at, alphabet_defect, codepoint_of, drawn_from, factor_at, is_alphabet, luhn_generate,
    luhn_sum, luhn_validate, luhn_validate_with, sorted_alphabet, strictly_ascending,
};

verus! {

/// Generates and validates Luhn mod N check characters over one alphabet.
///
/// The alphabet is fixed when the engine is built and never changes after.
#[derive(Debug)]
pub struct Luhn {
    alphabet: Vec<char>,
}

impl View for Luhn {
    type V = Seq<char>;

    /// The alphabet in ascending order.
    closed spec fn view(&self) -> Seq<char> {
        self.alphabet@
    }
}

/// Looks for `ch` in an ascending vector by halving the range in which it can
/// be. Gives `Ok` with its position if it is there, and otherwise `Err` with
/// the position at which it would have to be inserted.
fn locate(sorted: &Vec<char>, ch: char) -> (r: Result<usize, usize>)
    requires
        strictly_ascending(sorted@),
    ensures
        match r {
            Ok(i) => i < sorted@.len() && sorted@[i as int] == ch,
            Err(i) => {
                &&& i <= sorted@.len()
                &&& !sorted@.contains(ch)
                &&& forall|k: int| 0 <= k < i ==> sorted@[k] < ch
                &&& forall|k: int| i <= k < sorted@.len() ==> ch < sorted@[k]
            },
        },
{
    let mut low: usize = 0;
    let mut high: usize = sorted.len();
    while low < high
        invariant
            low <= high <= sorted@.len(),
            strictly_ascending(sorted@),
            forall|k: int| 0 <= k < low ==> sorted@[k] < ch,
            forall|k: int| high <= k < sorted@.len() ==> ch < sorted@[k],
        decreases high - low,
    {
        let mid: usize = low + (high - low) / 2;
        let probe: char = sorted[mid];
        if probe == ch {
            return Ok(mid);
        } else if probe < ch {
            low = mid + 1;
        } else {
            high = mid;
        }
    }
    Err(low)
}

impl Luhn {
    /// What holds of every engine: its alphabet is not empty and ascends.
    #[verifier::type_invariant]
    spec fn ordered(&self) -> bool {
        self.alphabet@.len() > 0 && strictly_ascending(self.alphabet@)
    }

    /// Builds an engine over the characters of `alphabet`.
    ///
    /// Fails on an empty alphabet, and on the first character, read from the
    /// left, that has occurred before it. The engine keeps the characters in
    /// ascending order, whatever order they came in: each is moved into its
    /// place among those read before it, so building takes time quadratic in
    /// the size of the alphabet at worst.
    pub fn new(alphabet: &str) -> (r: Result<Luhn, LuhnError>)
        ensures
            r is Ok <==> is_alphabet(alphabet@),
            match r {
                Ok(engine) => engine@ == sorted_alphabet(alphabet@),
                Err(e) => alphabet_defect(alphabet@) == Some(e),
            },
    {
        if alphabet.is_empty() {
            return Err(LuhnError::EmptyAlphabet);
        }
        let mut chars: Vec<char> = Vec::new();
        assert(chars@ =~= alphabet@.take(0));

        for ch in it: alphabet.chars()
            invariant
                it.seq() == alphabet@,
                alphabet@.len() > 0,
                strictly_ascending(chars@),
                chars@.to_multiset() == alphabet@.take(it.index()).to_multiset(),
                alphabet@.take(it.index()).no_duplicates(),
        {
            let ghost i = it.index();
            let ghost seen = alphabet@.take(i);
            proof {
                to_multiset_contains(chars@, ch);
                to_multiset_contains(seen, ch);
            }
            match locate(&chars, ch) {
                Ok(_) => {
                    proof {
                        lemma_first_repeat(alphabet@, i);
                    }
                    return Err(LuhnError::DuplicateCharacter(ch));
                },
                Err(at) => {
                    proof {
                        lemma_insert_keeps_ascending(chars@, at as int, ch);
                        to_multiset_insert(chars@, at as int, ch);
                        to_multiset_build(seen, ch);
                        assert(alphabet@.take(i + 1) =~= seen.push(ch));
                    }
                    chars.insert(at, ch);
                },
            }
        }

        proof {
            assert(alphabet@.take(alphabet@.len() as int) =~= alphabet@);
            to_multiset_len(chars@);
            to_multiset_len(alphabet@);
            lemma_ascending_is_sorted_alphabet(alphabet@, chars@);
        }
        Ok(Luhn { alphabet: chars })
    }

    /// The position of `ch` in the alphabet.
    fn codepoint_from_character(&self, ch: char) -> (r: Result<usize, LuhnError>)
        ensures
            match r {
                Ok(i) => i < self@.len() && self@[i as int] == ch && i == codepoint_of(self@, ch),
                Err(e) => !self@.contains(ch) && e == LuhnError::InvalidCharacter(ch),
            },
    {
        proof {
            use_type_invariant(self);
        }
        match locate(&self.alphabet, ch) {
            Ok(idx) => {
                proof {
                    lemma_ascending_is_alphabet(self.alphabet@);
                }
                Ok(idx)
            },
            Err(_) => Err(LuhnError::InvalidCharacter(ch)),
        }
    }

    /// The character at position `cp` of the alphabet.
    fn character_from_codepoint(&self, cp: usize) -> (ch: char)
        requires
            cp < self@.len(),
        ensures
            ch == self@[cp as int],
    {
        self.alphabet[cp]
    }

    /// Computes the check character that makes `s` pass validation.
    ///
    /// Fails on an empty input, and on the leftmost character of `s` that the
    /// alphabet lacks. The running sum is kept below the size of the alphabet,
    /// so no input is too long for it.
    pub fn generate(&self, s: &str) -> (r: Result<char, LuhnError>)
        ensures
            r == luhn_generate(self@, s@),
    {
        proof {
            use_type_invariant(self);
            lemma_ascending_bound(self.alphabet@);
        }
        if s.is_empty() {
            return Err(LuhnError::EmptyInput);
        }
        let n: usize = self.alphabet.len();
        let mut factor: usize = 1;
        let mut sum: usize = 0;
        assert(0int % (n as int) == 0) by (nonlinear_arith)
            requires
                n > 0,
        ;

        for ch in it: s.chars()
            invariant
                it.seq() == s@,
                n == self@.len(),
                0 < n <= 0x11_0000,
                factor == factor_at(it.index()),
                sum == luhn_sum(self@, s@.take(it.index())) % (n as int),
                drawn_from(self@, s@.take(it.index())),
        {
            let ghost i = it.index();
            let codepoint: usize = match self.codepoint_from_character(ch) {
                Ok(codepoint) => codepoint,
                Err(e) => {
                    proof {
                        lemma_first_stranger(self@, s@, i);
                    }
                    return Err(e);
                },
            };

            let mut addend: usize = factor * codepoint;
            factor = if factor == 2 { 1 } else { 2 };
            addend = addend / n + addend % n;
            proof {
                lemma_addend_bound(n as int, factor_at(i), codepoint as int);
                lemma_luhn_sum_step(self@, s@, i);
                assert(addend == addend_at(self@, s@, i));
                lemma_add_mod_noop(luhn_sum(self@, s@.take(i)), addend as int, n as int);
                lemma_small_mod(addend as nat, n as nat);
                assert forall|k: int| 0 <= k < s@.take(i + 1).len() implies self@.contains(
                    #[trigger] s@.take(i + 1)[k],
                ) by {
                    if k < i {
                        assert(s@.take(i)[k] == s@[k]);
                    }
                }
            }
            sum = (sum + addend) % n;
        }

        assert(s@.take(s@.len() as int) =~= s@);
        let check_codepoint: usize = (n - sum) % n;
        Ok(self.character_from_codepoint(check_codepoint))
    }

    /// Tells whether the last character of `s` is the check character of the
    /// characters before it.
    ///
    /// Fails on an input of fewer than two characters, and as `generate` does
    /// on the characters before the last.
    pub fn validate(&self, s: &str) -> (r: Result<bool, LuhnError>)
        ensures
            r == luhn_validate(self@, s@),
    {
        let len: usize = s.unicode_len();
        if len <= 1 {
            return Err(LuhnError::EmptyInput);
        }
        let head = s.substring_char(0, len - 1);
        let luhn = s.get_char(len - 1);
        assert(head@ =~= s@.drop_last());

        match self.generate(head) {
            Ok(expected) => Ok(luhn == expected),
            Err(e) => Err(e),
        }
    }

    /// Tells whether `check` is the check character of `s`.
    ///
    /// Fails on an input of fewer than two characters, and as `generate` does
    /// on `s`.
    pub fn validate_with(&self, s: &str, check: char) -> (r: Result<bool, LuhnError>)
        ensures
            r == luhn_validate_with(self@, s@, check),
    {
        if s.unicode_len() <= 1 {
            return Err(LuhnError::EmptyInput);
        }
        match self.generate(s) {
            Ok(expected) => Ok(check == expected),
            Err(e) => Err(e),
        }
    }
}

} // verus!
