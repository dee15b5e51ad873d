//! Integers as sequences of octets.

use vstd::prelude::*;

verus! {

/// The number that `s` writes in base 256, most significant octet first.
pub open spec fn be_value(s: Seq<u8>) -> nat
    decreases s.len(),
{
    if s.len() == 0 {
        0
    } else {
        be_value(s.drop_last()) * 256 + s.last() as nat
    }
}

/// The last `n` base 256 digits of `x`, most significant octet first.
pub open spec fn be_bytes(x: nat, n: nat) -> Seq<u8>
    decreases n,
{
    if n == 0 {
        Seq::empty()
    } else {
        be_bytes(x / 256, (n - 1) as nat).push((x % 256) as u8)
    }
}

/// The number that `s` writes in base 256, least significant octet first.
pub open spec fn le_value(s: Seq<u8>) -> nat {
    be_value(s.reverse())
}

/// The last `n` base 256 digits of `x`, least significant octet first.
pub open spec fn le_bytes(x: nat, n: nat) -> Seq<u8> {
    be_bytes(x, n).reverse()
}

/// `be_bytes` yields `n` octets, and reading them back gives the number where
/// it fits.
pub proof fn lemma_be_bytes(x: nat, n: nat)
    ensures
        be_bytes(x, n).len() == n,
        be_value(be_bytes(x, n)) <= x,
    decreases n,
{
    if n > 0 {
        lemma_be_bytes(x / 256, (n - 1) as nat);
        assert(be_bytes(x, n).drop_last() == be_bytes(x / 256, (n - 1) as nat));
    }
}

/// The octets of a number that is itself read from octets.
pub proof fn lemma_be_value_bytes(s: Seq<u8>)
    ensures
        be_bytes(be_value(s), s.len()) == s,
    decreases s.len(),
{
    if s.len() > 0 {
        lemma_be_value_bytes(s.drop_last());
        let v = be_value(s);
        assert(v / 256 == be_value(s.drop_last()));
        assert(v % 256 == s.last());
        assert(be_bytes(v, s.len()) == s.drop_last().push(s.last()));
        assert(s.drop_last().push(s.last()) == s);
    } else {
        assert(be_bytes(0, 0) == s);
    }
}

/// Reading back the octets of a number whose higher digits are zero.
pub proof fn lemma_be_bytes_value(x: nat, n: nat)
    requires
        x < be_limit(n),
    ensures
        be_value(be_bytes(x, n)) == x,
    decreases n,
{
    if n > 0 {
        assert(x / 256 < be_limit((n - 1) as nat)) by (nonlinear_arith)
            requires
                x < 256 * be_limit((n - 1) as nat),
        ;
        lemma_be_bytes_value(x / 256, (n - 1) as nat);
        assert(be_bytes(x, n).drop_last() == be_bytes(x / 256, (n - 1) as nat));
    }
}

/// How many numbers `n` octets can write.
pub open spec fn be_limit(n: nat) -> nat
    decreases n,
{
    if n == 0 {
        1
    } else {
        256 * be_limit((n - 1) as nat)
    }
}

/// What `s` writes is below the limit of its length.
pub proof fn lemma_be_value_bound(s: Seq<u8>)
    ensures
        be_value(s) < be_limit(s.len()),
    decreases s.len(),
{
    if s.len() > 0 {
        lemma_be_value_bound(s.drop_last());
    }
}

/// The 16-bit number of two octets, most significant first.
pub fn u16_of_be(hi: u8, lo: u8) -> (x: u16)
    ensures
        x == be_value(seq![hi, lo]),
{
    proof {
        reveal_with_fuel(be_value, 3);
        assert(seq![hi, lo].drop_last() == seq![hi]);
        assert(seq![hi].drop_last() == Seq::<u8>::empty());
    }
    hi as u16 * 256 + lo as u16
}

/// The 32-bit number of four octets, most significant first.
pub fn u32_of_be(a: u8, b: u8, c: u8, d: u8) -> (x: u32)
    ensures
        x == be_value(seq![a, b, c, d]),
{
    proof {
        reveal_with_fuel(be_value, 5);
        assert(seq![a, b, c, d].drop_last() == seq![a, b, c]);
        assert(seq![a, b, c].drop_last() == seq![a, b]);
        assert(seq![a, b].drop_last() == seq![a]);
        assert(seq![a].drop_last() == Seq::<u8>::empty());
    }
    ((a as u32 * 256 + b as u32) * 256 + c as u32) * 256 + d as u32
}

/// The number of sixteen octets, most significant first.
pub fn u128_of_be(s: &[u8]) -> (x: u128)
    requires
        s@.len() == 16,
    ensures
        x == be_value(s@),
{
    proof {
        lemma_be_value_bound(s@);
        reveal_with_fuel(be_limit, 17);
    }
    let mut x: u128 = 0;
    let mut i: usize = 0;
    while i < 16
        invariant
            i <= 16,
            s@.len() == 16,
            x == be_value(s@.take(i as int)),
            x < be_limit(i as nat),
        decreases 16 - i,
    {
        proof {
            assert(s@.take(i + 1).drop_last() == s@.take(i as int));
            lemma_be_value_bound(s@.take(i + 1));
            lemma_limit_at_most_16((i + 1) as nat);
        }
        x = x * 256 + s[i] as u128;
        i = i + 1;
    }
    assert(s@.take(16) == s@);
    x
}

proof fn lemma_limit_at_most_16(n: nat)
    requires
        n <= 16,
    ensures
        be_limit(n) <= 0x1_0000_0000_0000_0000_0000_0000_0000_0000,
    decreases 16 - n,
{
    reveal_with_fuel(be_limit, 17);
    if n < 16 {
        lemma_limit_at_most_16(n + 1);
    }
}

/// The last `n` base 256 digits of `x`, most significant octet first.
pub fn octets_of(x: u128, n: usize) -> (s: Vec<u8>)
    ensures
        s@ == be_bytes(x as nat, n as nat),
    decreases n,
{
    if n == 0 {
        let none: Vec<u8> = Vec::new();
        assert(none@ == be_bytes(x as nat, 0));
        none
    } else {
        let mut s: Vec<u8> = octets_of(x / 256, n - 1);
        s.push((x % 256) as u8);
        s
    }
}

/// The last `n` base 256 digits of `x`, least significant octet first.
pub fn octets_of_le(x: u128, n: usize) -> (s: Vec<u8>)
    ensures
        s@ == le_bytes(x as nat, n as nat),
{
    let mut s: Vec<u8> = Vec::new();
    let mut rest: u128 = x;
    let mut i: usize = 0;
    while i < n
        invariant
            i <= n,
            s@.len() == i,
            le_bytes(x as nat, n as nat) =~= s@ + le_bytes(rest as nat, (n - i) as nat),
        decreases n - i,
    {
        s.push((rest % 256) as u8);
        proof {
            let digits = be_bytes(rest as nat, (n - i) as nat);
            assert(digits.reverse() =~= seq![(rest % 256) as u8] + digits.drop_last().reverse());
            assert(digits.drop_last() =~= be_bytes(rest as nat / 256, (n - i - 1) as nat));
        }
        rest = rest / 256;
        i += 1;
    }
    s
}

/// A run of zeros.
pub open spec fn zeros(n: nat) -> Seq<u8> {
    Seq::new(n, |i: int| 0u8)
}

/// Appends `n` zeros.
pub fn push_zeros(out: &mut Vec<u8>, n: usize)
    ensures
        final(out)@ == old(out)@ + zeros(n as nat),
{
    let ghost before = out@;
    let mut i: usize = 0;
    assert(out@ =~= before + zeros(0));
    while i < n
        invariant
            i <= n,
            out@ == before + zeros(i as nat),
        decreases n - i,
    {
        out.push(0);
        i += 1;
        assert(out@ =~= before + zeros(i as nat));
    }
}

} // verus!
