//! Big-endian byte strings read as natural numbers.
use vstd::prelude::*;

verus! {

/// 256 to the power `n`.
pub open spec fn pow256(n: nat) -> nat
    decreases n,
{
    if n == 0 {
        1
    } else {
        256 * pow256((n - 1) as nat)
    }
}

/// The number that `s` spells, most significant byte first.
pub open spec fn be_value(s: Seq<u8>) -> nat
    decreases s.len(),
{
    if s.len() == 0 {
        0
    } else {
        be_value(s.drop_last()) * 256 + s.last() as nat
    }
}

pub proof fn lemma_pow256_positive(n: nat)
    ensures
        pow256(n) > 0,
    decreases n,
{
    if n > 0 {
        lemma_pow256_positive((n - 1) as nat);
    }
}

/// A greater exponent gives no smaller power.
pub proof fn lemma_pow256_monotonic(a: nat, b: nat)
    requires
        a <= b,
    ensures
        pow256(a) <= pow256(b),
    decreases b,
{
    if a < b {
        lemma_pow256_monotonic(a, (b - 1) as nat);
        lemma_pow256_positive((b - 1) as nat);
    }
}

pub proof fn lemma_pow256_add(a: nat, b: nat)
    ensures
        pow256(a + b) == pow256(a) * pow256(b),
    decreases b,
{
    if b == 0 {
        assert(pow256(a) * 1 == pow256(a));
    } else {
        lemma_pow256_add(a, (b - 1) as nat);
        let x = pow256(a);
        let y = pow256((b - 1) as nat);
        assert(pow256(a + b) == 256 * pow256((a + b - 1) as nat));
        assert(256 * (x * y) == x * (256 * y)) by (nonlinear_arith);
    }
}

/// The powers of 256 that the constants of this library are made of.
pub proof fn lemma_pow256_values()
    ensures
        pow256(1) == 0x100,
        pow256(4) == 0x1_0000_0000,
        pow256(8) == 0x1_0000_0000_0000_0000,
        pow256(16) == 0x1_0000_0000_0000_0000_0000_0000_0000_0000,
        pow256(20) == 0x1_0000_0000_0000_0000_0000_0000_0000_0000_0000_0000,
        pow256(24) == 0x1_0000_0000_0000_0000_0000_0000_0000_0000_0000_0000_0000_0000,
        pow256(31) == 0x1_0000_0000_0000_0000_0000_0000_0000_0000_0000_0000_0000_0000_0000_0000_0000_00,
        pow256(32) == 0x1_0000_0000_0000_0000_0000_0000_0000_0000_0000_0000_0000_0000_0000_0000_0000_0000,
{
    assert(pow256(1) == 0x100 && pow256(3) == 0x100_0000 && pow256(4) == 0x1_0000_0000) by {
        reveal_with_fuel(pow256, 5);
    }
    lemma_pow256_add(4, 4);
    lemma_pow256_add(8, 8);
    lemma_pow256_add(16, 4);
    lemma_pow256_add(20, 4);
    lemma_pow256_add(24, 4);
    lemma_pow256_add(28, 3);
    lemma_pow256_add(28, 4);
    let b4 = pow256(4);
    let b8 = pow256(8);
    let b16 = pow256(16);
    let b20 = pow256(20);
    let b24 = pow256(24);
    let b28 = pow256(28);
    assert(b8 == 0x1_0000_0000_0000_0000) by (nonlinear_arith)
        requires
            b8 == b4 * b4,
            b4 == 0x1_0000_0000,
    ;
    assert(b16 == 0x1_0000_0000_0000_0000_0000_0000_0000_0000) by (nonlinear_arith)
        requires
            b16 == b8 * b8,
            b8 == 0x1_0000_0000_0000_0000,
    ;
    assert(b20 == 0x1_0000_0000_0000_0000_0000_0000_0000_0000_0000_0000) by (nonlinear_arith)
        requires
            b20 == b16 * b4,
            b16 == 0x1_0000_0000_0000_0000_0000_0000_0000_0000,
            b4 == 0x1_0000_0000,
    ;
    assert(b24 == 0x1_0000_0000_0000_0000_0000_0000_0000_0000_0000_0000_0000_0000) by (nonlinear_arith)
        requires
            b24 == b20 * b4,
            b20 == 0x1_0000_0000_0000_0000_0000_0000_0000_0000_0000_0000,
            b4 == 0x1_0000_0000,
    ;
    assert(b28 == 0x1_0000_0000_0000_0000_0000_0000_0000_0000_0000_0000_0000_0000_0000_0000) by (nonlinear_arith)
        requires
            b28 == b24 * b4,
            b24 == 0x1_0000_0000_0000_0000_0000_0000_0000_0000_0000_0000_0000_0000,
            b4 == 0x1_0000_0000,
    ;
    let b3 = pow256(3);
    let b31 = pow256(31);
    let b32 = pow256(32);
    assert(b31 == 0x1_0000_0000_0000_0000_0000_0000_0000_0000_0000_0000_0000_0000_0000_0000_0000_00) by (nonlinear_arith)
        requires
            b31 == b28 * b3,
            b28 == 0x1_0000_0000_0000_0000_0000_0000_0000_0000_0000_0000_0000_0000_0000_0000,
            b3 == 0x100_0000,
    ;
    assert(b32 == 0x1_0000_0000_0000_0000_0000_0000_0000_0000_0000_0000_0000_0000_0000_0000_0000_0000) by (nonlinear_arith)
        requires
            b32 == b28 * b4,
            b28 == 0x1_0000_0000_0000_0000_0000_0000_0000_0000_0000_0000_0000_0000_0000_0000,
            b4 == 0x1_0000_0000,
    ;
}

/// A byte string of length `n` spells a number below `256^n`.
pub proof fn lemma_be_value_bound(s: Seq<u8>)
    ensures
        be_value(s) < pow256(s.len()),
    decreases s.len(),
{
    if s.len() > 0 {
        lemma_be_value_bound(s.drop_last());
    }
}

pub proof fn lemma_be_value_push(s: Seq<u8>, b: u8)
    ensures
        be_value(s.push(b)) == be_value(s) * 256 + b as nat,
{
    assert(s.push(b).drop_last() =~= s);
}

/// Concatenation shifts the front part by the length of the back part.
pub proof fn lemma_be_value_concat(a: Seq<u8>, b: Seq<u8>)
    ensures
        be_value(a + b) == be_value(a) * pow256(b.len()) + be_value(b),
    decreases b.len(),
{
    if b.len() == 0 {
        assert(a + b =~= a);
        assert(be_value(a) * 1 == be_value(a));
    } else {
        lemma_be_value_concat(a, b.drop_last());
        assert((a + b).drop_last() =~= a + b.drop_last());
        let x = be_value(a);
        let p = pow256(b.drop_last().len());
        assert(pow256(b.len()) == 256 * p);
        assert((x * p) * 256 == x * (256 * p)) by (nonlinear_arith);
    }
}

/// A string of zero bytes spells zero.
pub proof fn lemma_be_value_zeros(s: Seq<u8>)
    requires
        forall|i: int| 0 <= i < s.len() ==> s[i] == 0,
    ensures
        be_value(s) == 0,
    decreases s.len(),
{
    if s.len() > 0 {
        lemma_be_value_zeros(s.drop_last());
    }
}

/// Of two strings of one length, the one with the smaller byte at the first
/// place where they differ spells the smaller number.
pub proof fn lemma_be_value_first_difference(a: Seq<u8>, b: Seq<u8>, i: int)
    requires
        a.len() == b.len(),
        0 <= i < a.len(),
        a.take(i) == b.take(i),
        a[i] < b[i],
    ensures
        be_value(a) < be_value(b),
{
    let n = a.len();
    let rest = (n - i - 1) as nat;
    let pa = a.take(i + 1);
    let pb = b.take(i + 1);
    assert(a =~= pa + a.skip(i + 1));
    assert(b =~= pb + b.skip(i + 1));
    lemma_be_value_concat(pa, a.skip(i + 1));
    lemma_be_value_concat(pb, b.skip(i + 1));
    lemma_be_value_bound(a.skip(i + 1));
    lemma_be_value_bound(b.skip(i + 1));
    assert(pa.drop_last() =~= a.take(i));
    assert(pb.drop_last() =~= b.take(i));
    let p = pow256(rest);
    let va = be_value(pa);
    let vb = be_value(pb);
    assert(va + 1 <= vb);
    assert((va + 1) * p <= vb * p) by (nonlinear_arith)
        requires
            va + 1 <= vb,
            p >= 0,
    ;
    assert((va + 1) * p == va * p + p) by (nonlinear_arith);
}

/// Two strings of one length that spell the same number are the same string.
pub proof fn lemma_be_value_injective(a: Seq<u8>, b: Seq<u8>)
    requires
        a.len() == b.len(),
        be_value(a) == be_value(b),
    ensures
        a == b,
    decreases a.len(),
{
    if a.len() > 0 {
        lemma_be_value_injective(a.drop_last(), b.drop_last());
        assert(a =~= a.drop_last().push(a.last()));
        assert(b =~= b.drop_last().push(b.last()));
    } else {
        assert(a =~= b);
    }
}

/// Whether `a` spells a smaller number than `b`.
pub fn less_than_be(a: &[u8; 32], b: &[u8; 32]) -> (r: bool)
    ensures
        r == (be_value(a@) < be_value(b@)),
{
    let mut i: usize = 0;
    while i < 32
        invariant
            i <= 32,
            a@.take(i as int) == b@.take(i as int),
        decreases 32 - i,
    {
        if a[i] < b[i] {
            proof {
                lemma_be_value_first_difference(a@, b@, i as int);
            }
            return true;
        }
        if a[i] > b[i] {
            proof {
                lemma_be_value_first_difference(b@, a@, i as int);
            }
            return false;
        }
        assert(a@.take(i + 1) =~= a@.take(i as int).push(a@[i as int]));
        assert(b@.take(i + 1) =~= b@.take(i as int).push(b@[i as int]));
        i += 1;
    }
    assert(a@ =~= a@.take(32));
    assert(b@ =~= b@.take(32));
    false
}

} // verus!
