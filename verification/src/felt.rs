//! Elements of the Starknet prime field in their canonical 32-byte form.
use vstd::prelude::*;
use crate::big_endian::{be_value, pow256, less_than_be, lemma_be_value_concat, lemma_be_value_zeros, lemma_be_value_injective, lemma_be_value_bound, lemma_pow256_monotonic, lemma_pow256_add, lemma_pow256_values};
use vstd::std_specs::cmp::PartialEqSpecImpl;
use vstd::string::StringSliceAdditionalSpecFns;
use crate::error::Error;

verus! {

/// The Starknet prime, `2^251 + 17 * 2^192 + 1`.
pub open spec fn prime() -> nat {
    0x800000000000011000000000000000000000000000000000000000000000001nat
}

/// The big-endian bytes of the prime.
pub fn prime_bytes() -> (p: [u8; 32])
    ensures
        be_value(p@) == prime(),
{
    let p: [u8; 32] = [
        0x08, 0, 0, 0, 0, 0, 0, 0x11,
        0, 0, 0, 0, 0, 0, 0, 0,
        0, 0, 0, 0, 0, 0, 0, 0,
        0, 0, 0, 0, 0, 0, 0, 0x01,
    ];
    proof {
        lemma_be_value_literal(p@);
        lemma_pow256_values();
    }
    p
}

/// The number spelled by a string whose only non-zero bytes are at places 0, 7 and 31.
pub(crate) proof fn lemma_be_value_literal(s: Seq<u8>)
    requires
        s.len() == 32,
        forall|i: int| 0 <= i < 32 && i != 0 && i != 7 && i != 31 ==> s[i] == 0,
    ensures
        be_value(s) == s[0] * pow256(31) + s[7] * pow256(24) + s[31],
{
    let a = s.take(1);
    let b = s.subrange(1, 7);
    let c = s.subrange(7, 8);
    let d = s.subrange(8, 31);
    let e = s.subrange(31, 32);
    assert(s =~= (((a + b) + c) + d) + e);
    lemma_be_value_concat(((a + b) + c) + d, e);
    lemma_be_value_concat((a + b) + c, d);
    lemma_be_value_concat(a + b, c);
    lemma_be_value_concat(a, b);
    lemma_be_value_zeros(b);
    lemma_be_value_zeros(d);
    reveal_with_fuel(be_value, 2);
    assert(be_value(a) == s[0]) by {
        assert(a.drop_last() =~= Seq::<u8>::empty());
    }
    assert(be_value(c) == s[7]) by {
        assert(c.drop_last() =~= Seq::<u8>::empty());
    }
    assert(be_value(e) == s[31]) by {
        assert(e.drop_last() =~= Seq::<u8>::empty());
    }
    lemma_pow256_add(6, 1);
    lemma_pow256_add(7, 23);
    lemma_pow256_add(30, 1);
    lemma_pow256_add(23, 1);
    assert(pow256(1) == 256) by {
        reveal_with_fuel(pow256, 3);
    }
    let x = s[0] as nat;
    let y = s[7] as nat;
    let q6 = pow256(6);
    let q23 = pow256(23);
    assert(((x * q6) * 256 + y) * q23 * 256 == x * (((q6 * 256) * q23) * 256) + y * (q23 * 256))
        by (nonlinear_arith);
    assert(pow256(30) == pow256(7) * pow256(23));
}


/// A field element: a number below the prime, held as 32 big-endian bytes.
#[derive(Debug, Clone, Copy, Eq, Hash)]
pub struct Felt {
    bytes: [u8; 32],
}

pub type ClassHash = Felt;

pub type Balance = Felt;

impl View for Felt {
    type V = nat;

    /// The number that the element stands for.
    open spec fn view(&self) -> nat {
        be_value(self.spec_bytes())
    }
}

impl PartialEq for Felt {
    fn eq(&self, other: &Felt) -> (r: bool) {
        let mut i: usize = 0;
        while i < 32
            invariant
                i <= 32,
                self.bytes@.take(i as int) == other.bytes@.take(i as int),
            decreases 32 - i,
        {
            if self.bytes[i] != other.bytes[i] {
                proof {
                    if self@ == other@ {
                        lemma_be_value_injective(self.bytes@, other.bytes@);
                    }
                }
                return false;
            }
            assert(self.bytes@.take(i + 1) =~= self.bytes@.take(i as int).push(self.bytes@[i as int]));
            assert(other.bytes@.take(i + 1) =~= other.bytes@.take(i as int).push(other.bytes@[i as int]));
            i += 1;
        }
        assert(self.bytes@ =~= self.bytes@.take(32));
        assert(other.bytes@ =~= other.bytes@.take(32));
        true
    }
}

impl PartialEqSpecImpl for Felt {
    open spec fn obeys_eq_spec() -> bool {
        true
    }

    open spec fn eq_spec(&self, other: &Felt) -> bool {
        self@ == other@
    }
}

impl Default for Felt {
    fn default() -> (r: Felt)
        ensures
            r@ == 0,
    {
        Felt::zero()
    }
}

impl Felt {
    /// The canonical bytes, most significant first.
    pub closed spec fn spec_bytes(self) -> Seq<u8> {
        self.bytes@
    }

    #[verifier::type_invariant]
    spec fn canonical(self) -> bool {
        be_value(self.bytes@) < prime()
    }

    /// The element of the given bytes, where these spell a number below the prime.
    pub fn new(bytes: [u8; 32]) -> (r: Result<Felt, Error>)
        ensures
            be_value(bytes@) < prime() ==> (r matches Ok(f) && f.spec_bytes() == bytes@),
            be_value(bytes@) >= prime() ==> r == Err::<Felt, Error>(Error::InvalidFeltEncoding),
    {
        let p = prime_bytes();
        if less_than_be(&bytes, &p) {
            Ok(Felt { bytes })
        } else {
            Err(Error::InvalidFeltEncoding)
        }
    }

    /// The element of bytes that are known to spell a number below the prime.
    pub(crate) fn from_canonical_bytes(bytes: [u8; 32]) -> (r: Felt)
        requires
            be_value(bytes@) < prime(),
        ensures
            r.spec_bytes() == bytes@,
    {
        Felt { bytes }
    }

    /// The element zero.
    pub fn zero() -> (r: Felt)
        ensures
            r@ == 0,
    {
        let bytes: [u8; 32] = [0u8; 32];
        proof {
            lemma_be_value_zeros(bytes@);
        }
        Felt { bytes }
    }

    /// The canonical bytes of the element.
    pub fn bytes(&self) -> (r: [u8; 32])
        ensures
            r@ == self.spec_bytes(),
            be_value(r@) == self@,
            self@ < prime(),
    {
        proof {
            use_type_invariant(self);
        }
        self.bytes
    }

    /// The element that stands for `n`.
    pub fn from_u128(n: u128) -> (r: Felt)
        ensures
            r@ == n,
    {
        let high: [u8; 16] = [0u8; 16];
        let low = u128_to_be_bytes(n);
        let bytes = join_halves(&high, &low);
        proof {
            lemma_be_value_concat(high@, low@);
            lemma_be_value_zeros(high@);
            lemma_pow256_values();
            assert(0 * pow256(16) == 0);
        }
        Felt { bytes }
    }

    /// The element that `text` spells: `0x` and at most 64 hex digits of either
    /// case, the number below the prime.
    pub fn from_prefixed_hex_bytes(text: &[u8]) -> (r: Result<Felt, Error>)
        ensures
            match parse_prefixed_hex(text@) {
                Some(v) => r matches Ok(f) && f@ == v,
                None => r == Err::<Felt, Error>(Error::InvalidFeltEncoding),
            },
    {
        if text.len() < 2 || text.len() > 66 || text[0] != 0x30 || text[1] != 0x78 {
            return Err(Error::InvalidFeltEncoding);
        }
        let ghost digits = text@.skip(2);
        let mut high: u128 = 0;
        let mut low: u128 = 0;
        let mut i: usize = 2;
        proof {
            assert(digits.take(0) =~= Seq::<u8>::empty());
        }
        while i < text.len()
            invariant
                2 <= i <= text.len(),
                digits == text@.skip(2),
                is_hex_digits(digits.take(i - 2)),
                high * 0x1_0000_0000_0000_0000_0000_0000_0000_0000 + low == hex_value(
                    digits.take(i - 2),
                ),
            decreases text.len() - i,
        {
            let ghost seen = digits.take(i - 2);
            let ghost next = digits.take(i - 1);
            proof {
                assert(next.drop_last() =~= seen);
                assert(next.last() == text@[i as int]);
            }
            let d = match hex_digit_of(text[i]) {
                Some(d) => d,
                None => {
                    assert(digits[i - 2] == text@[i as int]);
                    return Err(Error::InvalidFeltEncoding);
                },
            };
            if high >= 0x1000_0000_0000_0000_0000_0000_0000_0000 {
                proof {
                    lemma_hex_value_prefix(digits, i - 2);
                }
                return Err(Error::InvalidFeltEncoding);
            }
            let carry: u128 = low / 0x1000_0000_0000_0000_0000_0000_0000_0000;
            let kept: u128 = low % 0x1000_0000_0000_0000_0000_0000_0000_0000;
            high = high * 16 + carry;
            low = kept * 16 + d as u128;
            proof {
                assert forall|j: int| 0 <= j < next.len() implies hex_digit_value(next[j]) is Some by {
                    if j < seen.len() {
                        assert(next[j] == seen[j]);
                    }
                }
            }
            i += 1;
        }
        proof {
            assert(digits =~= digits.take(text.len() - 2));
        }
        let high_bytes = u128_to_be_bytes(high);
        let low_bytes = u128_to_be_bytes(low);
        let bytes = join_halves(&high_bytes, &low_bytes);
        proof {
            lemma_be_value_concat(high_bytes@, low_bytes@);
            lemma_pow256_values();
        }
        match Felt::new(bytes) {
            Ok(f) => Ok(f),
            Err(_) => Err(Error::InvalidFeltEncoding),
        }
    }

    /// The element that `hex_str` spells; see `from_prefixed_hex_bytes`.
    pub fn from_prefixed_hex_str(hex_str: &str) -> (r: Result<Felt, Error>)
        ensures
            match parse_prefixed_hex(hex_str.spec_bytes()) {
                Some(v) => r matches Ok(f) && f@ == v,
                None => r == Err::<Felt, Error>(Error::InvalidFeltEncoding),
            },
    {
        Felt::from_prefixed_hex_bytes(hex_str.as_bytes())
    }

    /// The element in hex: `0x`, then its lower-case digits without leading
    /// zeros, a single `0` for zero.
    pub fn to_prefixed_hex_bytes(&self) -> (r: Vec<u8>)
        ensures
            is_minimal_prefixed_hex(r@),
            parse_prefixed_hex(r@) == Some(self@),
    {
        proof {
            use_type_invariant(self);
        }
        let mut all: Vec<u8> = Vec::new();
        let mut i: usize = 0;
        proof {
            assert(self.bytes@.take(0) =~= Seq::<u8>::empty());
        }
        while i < 32
            invariant
                i <= 32,
                all@ == hex_pairs(self.bytes@.take(i as int)),
                all@.len() == 2 * i,
            decreases 32 - i,
        {
            let b = self.bytes[i];
            proof {
                let next = self.bytes@.take(i + 1);
                assert(next.drop_last() =~= self.bytes@.take(i as int));
                assert(next.last() == b);
            }
            all.push(lower_hex_digit(b / 16));
            all.push(lower_hex_digit(b % 16));
            i += 1;
        }
        proof {
            assert(self.bytes@ =~= self.bytes@.take(32));
            lemma_hex_pairs(self.bytes@);
        }
        let mut start: usize = 0;
        while start < 63 && all[start] == 0x30
            invariant
                start <= 63,
                all@.len() == 64,
                forall|j: int| 0 <= j < start ==> all@[j] == 0x30,
            decreases 63 - start,
        {
            start += 1;
        }
        let mut r: Vec<u8> = Vec::new();
        r.push(0x30);
        r.push(0x78);
        let mut k: usize = start;
        proof {
            assert(all@.subrange(start as int, start as int) =~= Seq::<u8>::empty());
        }
        while k < 64
            invariant
                start <= k <= 64,
                all@.len() == 64,
                r@ == seq![0x30u8, 0x78u8] + all@.subrange(start as int, k as int),
            decreases 64 - k,
        {
            r.push(all[k]);
            assert(all@.subrange(start as int, k + 1) =~= all@.subrange(start as int, k as int).push(
                all@[k as int],
            ));
            k += 1;
        }
        proof {
            let digits = all@.skip(start as int);
            assert(all@.subrange(start as int, 64) =~= digits);
            assert(r@.skip(2) =~= digits);
            lemma_hex_value_leading_zeros(all@, start as int);
            assert forall|j: int| 0 <= j < digits.len() implies is_lower_hex_digit(digits[j]) by {
                assert(digits[j] == all@[start + j]);
            }
        }
        r
    }

    /// The element in hex as a string; see `to_prefixed_hex_bytes`.
    pub fn to_prefixed_hex_str(&self) -> (r: String)
        ensures
            is_minimal_prefixed_hex(ascii_bytes(r@)),
            parse_prefixed_hex(ascii_bytes(r@)) == Some(self@),
    {
        let bytes = self.to_prefixed_hex_bytes();
        let ghost text = bytes@;
        proof {
            assert forall|j: int| 0 <= j < text.len() implies text[j] < 128 by {
                if j >= 2 {
                    assert(text.skip(2)[j - 2] == text[j]);
                }
            }
        }
        let r = ascii_string(bytes);
        proof {
            assert(ascii_bytes(r@) =~= text);
        }
        r
    }
}

/// The value of a hex digit of either case.
pub open spec fn hex_digit_value(c: u8) -> Option<nat> {
    if 0x30 <= c <= 0x39 {
        Some((c - 0x30) as nat)
    } else if 0x61 <= c <= 0x66 {
        Some((c - 0x57) as nat)
    } else if 0x41 <= c <= 0x46 {
        Some((c - 0x37) as nat)
    } else {
        None
    }
}

/// Whether `c` is one of `0` to `9` or `a` to `f`.
pub open spec fn is_lower_hex_digit(c: u8) -> bool {
    0x30 <= c <= 0x39 || 0x61 <= c <= 0x66
}

/// Whether every byte of `s` is a hex digit.
pub open spec fn is_hex_digits(s: Seq<u8>) -> bool {
    forall|i: int| 0 <= i < s.len() ==> hex_digit_value(#[trigger] s[i]) is Some
}

/// The number that the hex digits `s` spell.
pub open spec fn hex_value(s: Seq<u8>) -> nat
    decreases s.len(),
{
    if s.len() == 0 {
        0
    } else {
        hex_value(s.drop_last()) * 16 + match hex_digit_value(s.last()) {
            Some(d) => d,
            None => 0,
        }
    }
}

/// The field element that a text spells: `0x`, then at most 64 hex digits
/// whose number is below the prime. Nothing for any other text.
pub open spec fn parse_prefixed_hex(text: Seq<u8>) -> Option<nat> {
    if 2 <= text.len() <= 66 && text[0] == 0x30 && text[1] == 0x78 && is_hex_digits(text.skip(2))
        && hex_value(text.skip(2)) < prime() {
        Some(hex_value(text.skip(2)))
    } else {
        None
    }
}

/// Whether a text is `0x` and lower-case hex digits without a needless zero in front.
pub open spec fn is_minimal_prefixed_hex(text: Seq<u8>) -> bool {
    &&& text.len() >= 3
    &&& text[0] == 0x30
    &&& text[1] == 0x78
    &&& forall|i: int| 2 <= i < text.len() ==> is_lower_hex_digit(#[trigger] text[i])
    &&& text.len() == 3 || text[2] != 0x30
}

/// The bytes of a text of ASCII characters.
pub open spec fn ascii_bytes(s: Seq<char>) -> Seq<u8> {
    Seq::new(s.len(), |i: int| s[i] as u8)
}

/// The two lower-case hex digits of each byte, in order.
pub open spec fn hex_pairs(bytes: Seq<u8>) -> Seq<u8>
    decreases bytes.len(),
{
    if bytes.len() == 0 {
        Seq::empty()
    } else {
        hex_pairs(bytes.drop_last()).push(lower_digit(bytes.last() as int / 16)).push(
            lower_digit(bytes.last() as int % 16),
        )
    }
}

/// The lower-case hex digit of a number below 16.
pub open spec fn lower_digit(n: int) -> u8 {
    if n < 10 {
        (0x30 + n) as u8
    } else {
        (0x57 + n) as u8
    }
}

/// The hex pairs of a byte string are lower-case digits that spell its number.
proof fn lemma_hex_pairs(bytes: Seq<u8>)
    ensures
        hex_pairs(bytes).len() == 2 * bytes.len(),
        forall|i: int| 0 <= i < hex_pairs(bytes).len() ==> is_lower_hex_digit(#[trigger] hex_pairs(bytes)[i]),
        hex_value(hex_pairs(bytes)) == be_value(bytes),
    decreases bytes.len(),
{
    if bytes.len() > 0 {
        lemma_hex_pairs(bytes.drop_last());
        let front = hex_pairs(bytes.drop_last());
        let hi = lower_digit(bytes.last() as int / 16);
        let lo = lower_digit(bytes.last() as int % 16);
        let mid = front.push(hi);
        assert(hex_pairs(bytes) == mid.push(lo));
        assert(mid.push(lo).drop_last() =~= mid);
        assert(mid.drop_last() =~= front);
        assert(hex_digit_value(hi) == Some((bytes.last() as int / 16) as nat));
        assert(hex_digit_value(lo) == Some((bytes.last() as int % 16) as nat));
        assert(hex_value(mid) == hex_value(front) * 16 + bytes.last() as int / 16);
        assert forall|i: int| 0 <= i < hex_pairs(bytes).len() implies is_lower_hex_digit(
            #[trigger] hex_pairs(bytes)[i],
        ) by {
            if i < front.len() {
                assert(hex_pairs(bytes)[i] == front[i]);
            }
        }
    }
}

/// Digits spell at least what any of their prefixes spells.
proof fn lemma_hex_value_prefix(s: Seq<u8>, n: int)
    requires
        0 <= n <= s.len(),
    ensures
        hex_value(s.take(n)) <= hex_value(s),
    decreases s.len(),
{
    if n < s.len() {
        lemma_hex_value_prefix(s.drop_last(), n);
        assert(s.drop_last().take(n) =~= s.take(n));
    } else {
        assert(s.take(n) =~= s);
    }
}

/// Zeros in front do not change what digits spell.
proof fn lemma_hex_value_leading_zeros(s: Seq<u8>, n: int)
    requires
        0 <= n <= s.len(),
        forall|j: int| 0 <= j < n ==> s[j] == 0x30,
    ensures
        hex_value(s.skip(n)) == hex_value(s),
    decreases s.len(),
{
    if n < s.len() {
        lemma_hex_value_leading_zeros(s.drop_last(), n);
        assert(s.drop_last().skip(n) =~= s.skip(n).drop_last());
    } else {
        assert(s.skip(n) =~= Seq::<u8>::empty());
        if s.len() > 0 {
            lemma_hex_value_leading_zeros(s.drop_last(), n - 1);
            assert(s.drop_last().skip(n - 1) =~= Seq::<u8>::empty());
        }
    }
}

/// The value of a hex digit of either case, where `c` is one.
fn hex_digit_of(c: u8) -> (r: Option<u8>)
    ensures
        match r {
            Some(d) => hex_digit_value(c) == Some(d as nat) && d < 16,
            None => hex_digit_value(c) is None,
        },
{
    if 0x30 <= c && c <= 0x39 {
        Some(c - 0x30)
    } else if 0x61 <= c && c <= 0x66 {
        Some(c - 0x57)
    } else if 0x41 <= c && c <= 0x46 {
        Some(c - 0x37)
    } else {
        None
    }
}

/// The lower-case hex digit of `n`.
fn lower_hex_digit(n: u8) -> (r: u8)
    requires
        n < 16,
    ensures
        r == lower_digit(n as int),
{
    if n < 10 {
        0x30 + n
    } else {
        0x57 + n
    }
}

/// The 16 big-endian bytes of `n`.
pub fn u128_to_be_bytes(n: u128) -> (bytes: [u8; 16])
    ensures
        be_value(bytes@) == n,
{
    let mut bytes: [u8; 16] = [0u8; 16];
    let mut rest: u128 = n;
    let mut i: usize = 16;
    proof {
        lemma_pow256_values();
        assert(bytes@.skip(16) =~= Seq::<u8>::empty());
        assert(be_value(bytes@.skip(16)) == 0);
        assert(pow256(0) == 1);
        assert(rest * pow256(0) == rest);
    }
    while i > 0
        invariant
            i <= 16,
            rest * pow256((16 - i) as nat) + be_value(bytes@.skip(i as int)) == n,
            rest < pow256(i as nat),
        decreases i,
    {
        i -= 1;
        let ghost before = bytes@;
        let low: u8 = (rest % 256) as u8;
        bytes[i] = low;
        proof {
            let tail = before.skip(i + 1);
            assert(bytes@.skip(i as int) =~= seq![low] + tail);
            lemma_be_value_concat(seq![low], tail);
            assert(be_value(seq![low]) == low) by {
                reveal_with_fuel(be_value, 2);
                assert(seq![low].drop_last() =~= Seq::<u8>::empty());
            }
            let p = pow256((15 - i) as nat);
            assert(pow256((16 - i) as nat) == 256 * p);
            let q = rest / 256;
            assert(rest == q * 256 + low);
            assert((q * 256 + low) * p == q * (256 * p) + low * p) by (nonlinear_arith);
            assert(pow256((i + 1) as nat) == 256 * pow256(i as nat));
        }
        rest = rest / 256;
    }
    proof {
        assert(rest == 0);
        assert(bytes@.skip(0) =~= bytes@);
        assert(0 * pow256(16) == 0);
    }
    bytes
}

/// The number that the 16 bytes of `bytes` from `start` on spell.
pub(crate) fn be_u128(bytes: &[u8; 32], start: usize) -> (r: u128)
    requires
        start == 0 || start == 16,
    ensures
        r == be_value(bytes@.subrange(start as int, start + 16)),
{
    let ghost half = bytes@.subrange(start as int, start + 16);
    let mut acc: u128 = 0;
    let mut i: usize = 0;
    proof {
        assert(half.take(0) =~= Seq::<u8>::empty());
    }
    while i < 16
        invariant
            i <= 16,
            start == 0 || start == 16,
            half == bytes@.subrange(start as int, start + 16),
            acc == be_value(half.take(i as int)),
        decreases 16 - i,
    {
        let b = bytes[start + i];
        proof {
            let next = half.take(i + 1);
            assert(next.drop_last() =~= half.take(i as int));
            assert(next.last() == b);
            lemma_be_value_bound(next);
            lemma_pow256_monotonic((i + 1) as nat, 16);
            lemma_pow256_values();
        }
        acc = acc * 256 + b as u128;
        i += 1;
    }
    proof {
        assert(half.take(16) =~= half);
    }
    acc
}

/// The 32 bytes made of `high` and then `low`.
pub fn join_halves(high: &[u8; 16], low: &[u8; 16]) -> (bytes: [u8; 32])
    ensures
        bytes@ == high@ + low@,
{
    let mut bytes: [u8; 32] = [0u8; 32];
    let mut i: usize = 0;
    while i < 16
        invariant
            i <= 16,
            forall|j: int| 0 <= j < i ==> bytes@[j] == high@[j] && bytes@[16 + j] == low@[j],
        decreases 16 - i,
    {
        bytes[i] = high[i];
        bytes[i + 16] = low[i];
        i += 1;
    }
    assert(bytes@ =~= high@ + low@);
    bytes
}

/// Calls `String::from_utf8` on bytes that are all ASCII. Believed: the
/// string holds one character for each byte, the character of that code.
#[verifier::external_body]
fn ascii_string(bytes: Vec<u8>) -> (r: String)
    requires
        forall|i: int| 0 <= i < bytes@.len() ==> bytes@[i] < 128,
    ensures
        r@.len() == bytes@.len(),
        forall|i: int| 0 <= i < bytes@.len() ==> r@[i] as u8 == bytes@[i],
{
    String::from_utf8(bytes).unwrap()
}

} // verus!
