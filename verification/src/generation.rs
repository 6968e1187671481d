//! The generation number of a component.

use crate::error::ParseError;
use vstd::prelude::*;

verus! {

/// Whether `b` is one of the bytes `'0'..='9'`.
pub open spec fn is_digit(b: u8) -> bool {
    0x30 <= b <= 0x39
}

/// Whether every byte of `s` is a decimal digit.
pub open spec fn all_digits(s: Seq<u8>) -> bool {
    forall|i: int| 0 <= i < s.len() ==> is_digit(#[trigger] s[i])
}

/// The number that the digits of `s` spell in base 10, most significant
/// digit first. The empty sequence spells 0.
pub open spec fn decimal_value(s: Seq<u8>) -> nat
    decreases s.len(),
{
    if s.len() == 0 {
        0
    } else {
        (10 * decimal_value(s.drop_last()) + (s.last() - 0x30)) as nat
    }
}

/// The generation that the text `s` denotes, if any: `s` is a non-empty
/// run of decimal digits whose value is at least 1 and fits in a `u32`.
/// A sign, a blank or any other byte makes the text invalid.
pub open spec fn generation_of(s: Seq<u8>) -> Option<u32> {
    if s.len() > 0 && all_digits(s) && 1 <= decimal_value(s) <= u32::MAX {
        Some(decimal_value(s) as u32)
    } else {
        None
    }
}

/// Reading more digits never makes the value smaller.
pub proof fn lemma_decimal_value_prefix(s: Seq<u8>, n: int)
    requires
        all_digits(s),
        0 <= n <= s.len(),
    ensures
        decimal_value(s.take(n)) <= decimal_value(s),
    decreases s.len(),
{
    if n == s.len() {
        assert(s.take(n) =~= s);
    } else {
        let t = s.drop_last();
        assert(all_digits(t)) by {
            assert forall|i: int| 0 <= i < t.len() implies is_digit(#[trigger] t[i]) by {
                assert(t[i] == s[i]);
            }
        }
        lemma_decimal_value_prefix(t, n);
        assert(t.take(n) =~= s.take(n));
        assert(is_digit(s[s.len() - 1]));
    }
}

/// The digits of `n` in base 10, most significant first, without
/// leading zeros. Zero is the single digit `0`.
pub open spec fn decimal_digits(n: nat) -> Seq<u8>
    decreases n,
{
    if n < 10 {
        seq![(0x30 + n) as u8]
    } else {
        decimal_digits(n / 10).push((0x30 + n % 10) as u8)
    }
}

/// The digits of a number spell that number.
pub proof fn lemma_decimal_digits(n: nat)
    ensures
        decimal_digits(n).len() > 0,
        all_digits(decimal_digits(n)),
        decimal_value(decimal_digits(n)) == n,
    decreases n,
{
    if n < 10 {
        let d = decimal_digits(n);
        assert(d.drop_last() =~= Seq::<u8>::empty());
        assert(decimal_value(d.drop_last()) == 0);
    } else {
        lemma_decimal_digits(n / 10);
        let front = decimal_digits(n / 10);
        let d = decimal_digits(n);
        assert(d.drop_last() =~= front);
        assert(all_digits(d)) by {
            assert forall|i: int| 0 <= i < d.len() implies is_digit(#[trigger] d[i]) by {
                if i < front.len() {
                    assert(d[i] == front[i]);
                }
            }
        }
    }
}

/// Writing a generation out and reading it back gives the generation.
pub proof fn lemma_generation_round_trip(g: u32)
    requires
        g >= 1,
    ensures
        generation_of(decimal_digits(g as nat)) == Some(g),
{
    lemma_decimal_digits(g as nat);
}

/// Writes `n` in base 10.
pub fn u32_to_ascii(n: u32) -> (text: Vec<u8>)
    ensures
        text@ == decimal_digits(n as nat),
    decreases n,
{
    if n < 10 {
        let mut text: Vec<u8> = Vec::new();
        text.push(0x30 + n as u8);
        assert(text@ =~= decimal_digits(n as nat));
        text
    } else {
        let mut text = u32_to_ascii(n / 10);
        text.push(0x30 + (n % 10) as u8);
        text
    }
}

/// SBAT component generation.
///
/// This is the machine-comparable version number of a component. It is
/// always a positive integer.
#[derive(Clone, Copy, Debug, PartialEq, Eq, Ord)]
pub struct Generation(u32);

impl View for Generation {
    type V = u32;

    closed spec fn view(&self) -> u32 {
        self.0
    }
}

impl Default for Generation {
    fn default() -> (g: Generation)
        ensures
            g@ == 1,
    {
        Generation(1)
    }
}

impl Generation {
    #[verifier::type_invariant]
    spec fn positive(self) -> bool {
        self.0 >= 1
    }

    /// Create a `Generation` from a `u32`. An error is returned if the
    /// input is zero.
    pub fn new(val: u32) -> (r: Result<Generation, ParseError>)
        ensures
            match r {
                Ok(g) => val != 0 && g@ == val,
                Err(e) => val == 0 && e == ParseError::InvalidGeneration,
            },
    {
        if val == 0 {
            Err(ParseError::InvalidGeneration)
        } else {
            Ok(Generation(val))
        }
    }

    /// Parse ASCII text as a `Generation`.
    pub fn from_ascii(s: &[u8]) -> (r: Result<Generation, ParseError>)
        ensures
            match r {
                Ok(g) => generation_of(s@) == Some(g@),
                Err(e) => generation_of(s@) is None && e == ParseError::InvalidGeneration,
            },
    {
        if s.len() == 0 {
            return Err(ParseError::InvalidGeneration);
        }
        let mut val: u64 = 0;
        let mut i: usize = 0;
        while i < s.len()
            invariant
                i <= s.len(),
                all_digits(s@.take(i as int)),
                val == decimal_value(s@.take(i as int)),
                val <= u32::MAX,
            decreases s.len() - i,
        {
            let b = s[i];
            if b < 0x30 || b > 0x39 {
                assert(!is_digit(s@[i as int]));
                return Err(ParseError::InvalidGeneration);
            }
            proof {
                let t = s@.take(i + 1);
                assert(t.drop_last() =~= s@.take(i as int));
                assert(t.last() == b);
                assert(all_digits(t)) by {
                    assert forall|j: int| 0 <= j < t.len() implies is_digit(#[trigger] t[j]) by {
                        if j < i {
                            assert(s@.take(i as int)[j] == t[j]);
                        }
                    }
                }
            }
            val = val * 10 + (b - 0x30) as u64;
            if val > u32::MAX as u64 {
                proof {
                    if all_digits(s@) {
                        lemma_decimal_value_prefix(s@, i + 1);
                    }
                }
                return Err(ParseError::InvalidGeneration);
            }
            i += 1;
        }
        assert(s@.take(i as int) =~= s@);
        if val == 0 {
            Err(ParseError::InvalidGeneration)
        } else {
            Ok(Generation(val as u32))
        }
    }

    /// The generation as decimal ASCII text, without leading zeros.
    pub fn to_ascii(self) -> (text: Vec<u8>)
        ensures
            text@ == decimal_digits(self@ as nat),
            generation_of(text@) == Some(self@),
    {
        proof {
            use_type_invariant(&self);
            lemma_generation_round_trip(self.0);
        }
        u32_to_ascii(self.0)
    }

    /// Get the generation value as a `u32`.
    pub fn to_u32(self) -> (v: u32)
        ensures
            v == self@,
            v >= 1,
    {
        proof {
            use_type_invariant(&self);
        }
        self.0
    }
}

} // verus!
