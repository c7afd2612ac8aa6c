//! Numerals of JSON: decimal and hex digit strings that fit 64 bits.
use vstd::prelude::*;
use crate::felt::hex_digit_value;

verus! {

/// The value of `c` as a digit in the given radix, where it is one.
pub open spec fn digit_in_radix(c: u8, radix: nat) -> Option<nat> {
    match hex_digit_value(c) {
        Some(d) => if d < radix {
            Some(d)
        } else {
            None
        },
        None => None,
    }
}

/// The number that the digits `s` spell in the given radix.
pub open spec fn radix_value(s: Seq<u8>, radix: nat) -> nat
    decreases s.len(),
{
    if s.len() == 0 {
        0
    } else {
        radix_value(s.drop_last(), radix) * radix + match digit_in_radix(s.last(), radix) {
            Some(d) => d,
            None => 0,
        }
    }
}

/// Whether `s` is one digit or more, all of the given radix.
pub open spec fn is_numeral(s: Seq<u8>, radix: nat) -> bool {
    &&& s.len() > 0
    &&& forall|i: int| 0 <= i < s.len() ==> digit_in_radix(#[trigger] s[i], radix) is Some
}

/// The number that `s` spells, where `s` is a numeral whose number fits 64 bits.
pub open spec fn numeral_u64(s: Seq<u8>, radix: nat) -> Option<nat> {
    if is_numeral(s, radix) && radix_value(s, radix) <= u64::MAX {
        Some(radix_value(s, radix))
    } else {
        None
    }
}

/// Digits spell at least what any of their prefixes spells.
proof fn lemma_radix_value_prefix(s: Seq<u8>, n: int, radix: nat)
    requires
        0 <= n <= s.len(),
        radix >= 1,
    ensures
        radix_value(s.take(n), radix) <= radix_value(s, radix),
    decreases s.len(),
{
    if n < s.len() {
        lemma_radix_value_prefix(s.drop_last(), n, radix);
        assert(s.drop_last().take(n) =~= s.take(n));
        let x = radix_value(s.drop_last(), radix);
        assert(x * radix >= x) by (nonlinear_arith)
            requires
                radix >= 1,
                x >= 0,
        ;
    } else {
        assert(s.take(n) =~= s);
    }
}

/// The number that the bytes of `s` from `start` on spell in radix 10 or 16.
pub(crate) fn parse_u64(s: &[u8], start: usize, radix: u8) -> (r: Option<u64>)
    requires
        start <= s.len(),
        radix == 10 || radix == 16,
    ensures
        match r {
            Some(v) => numeral_u64(s@.skip(start as int), radix as nat) == Some(v as nat),
            None => numeral_u64(s@.skip(start as int), radix as nat) is None,
        },
{
    let ghost digits = s@.skip(start as int);
    if start == s.len() {
        return None;
    }
    let mut acc: u128 = 0;
    let mut i: usize = start;
    proof {
        assert(digits.take(0) =~= Seq::<u8>::empty());
    }
    while i < s.len()
        invariant
            start <= i <= s.len(),
            radix == 10 || radix == 16,
            digits == s@.skip(start as int),
            acc == radix_value(digits.take(i - start), radix as nat),
            acc <= u64::MAX,
            forall|j: int| 0 <= j < i - start ==> digit_in_radix(#[trigger] digits[j], radix as nat) is Some,
        decreases s.len() - i,
    {
        let c = s[i];
        let ghost next = digits.take(i - start + 1);
        proof {
            assert(next.drop_last() =~= digits.take(i - start));
            assert(next.last() == c);
            assert(digits[i - start] == c);
        }
        let d: u8 = if 0x30 <= c && c <= 0x39 {
            c - 0x30
        } else if 0x61 <= c && c <= 0x66 {
            c - 0x57
        } else if 0x41 <= c && c <= 0x46 {
            c - 0x37
        } else {
            return None;
        };
        if d >= radix {
            return None;
        }
        assert(acc * radix <= 0xffff_ffff_ffff_ffff * 16) by (nonlinear_arith)
            requires
                acc <= 0xffff_ffff_ffff_ffff,
                radix <= 16,
        ;
        acc = acc * (radix as u128) + d as u128;
        if acc > u64::MAX as u128 {
            proof {
                lemma_radix_value_prefix(digits, i - start + 1, radix as nat);
            }
            return None;
        }
        i += 1;
    }
    proof {
        assert(digits =~= digits.take(s.len() - start));
    }
    Some(acc as u64)
}

} // verus!
