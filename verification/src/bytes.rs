//! Fixed-width integers as bytes.
use vstd::arithmetic::power::pow;
use vstd::prelude::*;

verus! {

/// The `width` low base-256 digits of `x`, the most significant first.
pub open spec fn be_bytes(x: nat, width: nat) -> Seq<u8>
    decreases width,
{
    if width == 0 {
        Seq::empty()
    } else {
        be_bytes(x / 256, (width - 1) as nat).push((x % 256) as u8)
    }
}

/// The number whose base-256 digits are `s`, the most significant first.
pub open spec fn be_value(s: Seq<u8>) -> nat
    decreases s.len(),
{
    if s.len() == 0 {
        0
    } else {
        be_value(s.drop_last()) * 256 + s.last() as nat
    }
}

/// The number whose base-256 digits are `s`, the least significant first.
pub open spec fn le_value(s: Seq<u8>) -> nat
    decreases s.len(),
{
    if s.len() == 0 {
        0
    } else {
        le_value(s.drop_first()) * 256 + s.first() as nat
    }
}

/// `a` comes before `b` in the byte-wise lexicographic order, at equal lengths.
pub open spec fn lex_less(a: Seq<u8>, b: Seq<u8>) -> bool {
    exists|k: int|
        0 <= k < a.len() && k < b.len() && a[k] < b[k] && #[trigger] a.take(k) == b.take(k)
}

/// There are as many digits as were asked for.
pub proof fn lemma_be_bytes_len(x: nat, width: nat)
    ensures
        be_bytes(x, width).len() == width,
    decreases width,
{
    if width > 0 {
        lemma_be_bytes_len(x / 256, (width - 1) as nat);
    }
}

/// Writing a number that fits and reading it back gives the number.
pub proof fn law_be_round_trip(x: nat, width: nat)
    requires
        x < pow(256, width),
    ensures
        be_value(be_bytes(x, width)) == x,
    decreases width,
{
    reveal(pow);
    if width > 0 {
        let rest = be_bytes(x / 256, (width - 1) as nat);
        assert(pow(256, width) == 256 * pow(256, (width - 1) as nat));
        assert(x / 256 < pow(256, (width - 1) as nat));
        law_be_round_trip(x / 256, (width - 1) as nat);
        assert(be_bytes(x, width).drop_last() =~= rest);
    }
}

/// Reading bytes and writing the number back gives the bytes.
pub proof fn law_be_bytes_of_value(s: Seq<u8>)
    ensures
        be_bytes(be_value(s), s.len()) == s,
        be_value(s) < pow(256, s.len()),
    decreases s.len(),
{
    reveal(pow);
    if s.len() > 0 {
        law_be_bytes_of_value(s.drop_last());
        let high = be_value(s.drop_last());
        let low = s.last() as nat;
        assert((high * 256 + low) / 256 == high);
        assert((high * 256 + low) % 256 == low);
        assert(be_bytes(be_value(s), s.len()) =~= s);
    } else {
        assert(be_bytes(0, 0) =~= s);
    }
}

/// Big-endian bytes sort as the numbers do.
pub proof fn law_be_bytes_order(a: nat, b: nat, width: nat)
    requires
        a < b,
        b < pow(256, width),
    ensures
        lex_less(be_bytes(a, width), be_bytes(b, width)),
    decreases width,
{
    reveal(pow);
    if width > 0 {
        let w = (width - 1) as nat;
        let x = be_bytes(a, width);
        let y = be_bytes(b, width);
        lemma_be_bytes_len(a / 256, w);
        lemma_be_bytes_len(b / 256, w);
        assert(pow(256, width) == 256 * pow(256, w));
        if a / 256 < b / 256 {
            law_be_bytes_order(a / 256, b / 256, w);
            let p = be_bytes(a / 256, w);
            let q = be_bytes(b / 256, w);
            let k = choose|k: int|
                0 <= k < p.len() && k < q.len() && p[k] < q[k] && #[trigger] p.take(k) == q.take(k);
            assert(x.take(k) =~= p.take(k));
            assert(y.take(k) =~= q.take(k));
        } else {
            assert(a / 256 == b / 256);
            assert(x.take(w as int) =~= y.take(w as int));
        }
    }
}

/// The number of two runs of digits is the number of the upper run, shifted, and that of the lower.
pub proof fn lemma_be_value_concat(upper: Seq<u8>, lower: Seq<u8>)
    ensures
        be_value(upper + lower) == be_value(upper) * pow(256, lower.len()) + be_value(lower),
    decreases lower.len(),
{
    reveal(pow);
    if lower.len() == 0 {
        assert(upper + lower =~= upper);
    } else {
        let init = lower.drop_last();
        lemma_be_value_concat(upper, init);
        assert((upper + lower).drop_last() =~= upper + init);
        assert(pow(256, lower.len()) == 256 * pow(256, init.len()));
        assert((be_value(upper) * pow(256, init.len()) + be_value(init)) * 256 == be_value(upper)
            * (256 * pow(256, init.len())) + be_value(init) * 256) by (nonlinear_arith);
    }
}

/// Digits stand for zero exactly where each of them is zero.
pub proof fn lemma_be_value_zero(s: Seq<u8>)
    ensures
        be_value(s) == 0 <==> (forall|i: int| 0 <= i < s.len() ==> s[i] == 0),
    decreases s.len(),
{
    if s.len() > 0 {
        let init = s.drop_last();
        lemma_be_value_zero(init);
        if be_value(s) == 0 {
            assert forall|i: int| 0 <= i < s.len() implies s[i] == 0 by {
                if i < init.len() {
                    assert(init[i] == s[i]);
                }
            }
        }
        if forall|i: int| 0 <= i < s.len() ==> s[i] == 0 {
            assert forall|i: int| 0 <= i < init.len() implies init[i] == 0 by {
                assert(init[i] == s[i]);
            }
        }
    }
}

/// Whether the number that 32 big-endian bytes stand for fits 64 bits.
pub fn fits_u64(word: &[u8; 32]) -> (fits: bool)
    ensures
        fits == (be_value(word@) <= u64::MAX),
{
    proof {
        let upper = word@.take(24);
        let lower = word@.skip(24);
        assert(upper + lower =~= word@);
        lemma_be_value_concat(upper, lower);
        lemma_be_value_zero(upper);
        law_be_bytes_of_value(lower);
        assert(pow(256, 8) == 0x1_0000_0000_0000_0000) by {
            reveal_with_fuel(pow, 9);
        }
        if be_value(upper) >= 1 {
            assert(be_value(upper) * 0x1_0000_0000_0000_0000 >= 0x1_0000_0000_0000_0000)
                by (nonlinear_arith)
                requires
                    be_value(upper) >= 1,
            ;
        }
    }
    let mut i: usize = 0;
    while i < 24
        invariant
            i <= 24,
            forall|j: int| 0 <= j < i ==> word@.take(24)[j] == 0,
            be_value(word@.take(24)) == 0 <==> (forall|j: int|
                0 <= j < word@.take(24).len() ==> word@.take(24)[j] == 0),
            be_value(word@) <= u64::MAX <==> be_value(word@.take(24)) == 0,
        decreases 24 - i,
    {
        if word[i] != 0 {
            assert(word@.take(24)[i as int] != 0);
            return false;
        }
        i = i + 1;
    }
    true
}

/// A 64-bit number has eight digits.
pub proof fn lemma_u64_width(x: u64)
    ensures
        x < pow(256, 8),
{
    assert(pow(256, 8) == 0x1_0000_0000_0000_0000) by {
        reveal_with_fuel(pow, 9);
    }
}

/// A 32-bit number has four digits.
pub proof fn lemma_u32_width(x: u32)
    ensures
        x < pow(256, 4),
{
    assert(pow(256, 4) == 0x1_0000_0000) by {
        reveal_with_fuel(pow, 5);
    }
}

/// The eight big-endian bytes of `x`.
pub fn u64_be(x: u64) -> (out: [u8; 8])
    ensures
        out@ == be_bytes(x as nat, 8),
{
    let mut out: [u8; 8] = [0u8; 8];
    let mut rest: u64 = x;
    let mut i: usize = 8;
    assert(be_bytes(x as nat, 8) =~= be_bytes(rest as nat, 8) + out@.subrange(8, 8));
    while i > 0
        invariant
            i <= 8,
            be_bytes(x as nat, 8) == be_bytes(rest as nat, i as nat) + out@.subrange(i as int, 8),
        decreases i,
    {
        let ghost before = out@;
        i = i - 1;
        out[i] = (rest % 256) as u8;
        proof {
            lemma_be_bytes_len((rest / 256) as nat, i as nat);
            assert(out@.subrange(i as int, 8) =~= seq![(rest % 256) as u8] + before.subrange(
                i + 1,
                8,
            ));
            assert(be_bytes(rest as nat, (i + 1) as nat) + before.subrange(i + 1, 8) =~= be_bytes(
                (rest / 256) as nat,
                i as nat,
            ) + out@.subrange(i as int, 8));
        }
        rest = rest / 256;
    }
    assert(out@.subrange(0, 8) =~= out@);
    assert(be_bytes(rest as nat, 0) + out@ =~= out@);
    out
}

/// The number that eight big-endian bytes stand for.
pub fn u64_from_be(bytes: &[u8; 8]) -> (x: u64)
    ensures
        x == be_value(bytes@),
{
    let mut x: u64 = 0;
    let mut i: usize = 0;
    assert(bytes@.take(0).len() == 0);
    while i < 8
        invariant
            i <= 8,
            x == be_value(bytes@.take(i as int)),
        decreases 8 - i,
    {
        proof {
            let next = bytes@.take(i + 1);
            assert(next.drop_last() =~= bytes@.take(i as int));
            assert(next.last() == bytes@[i as int]);
            law_be_bytes_of_value(next);
            lemma_pow256_at_most_u64(next.len());
        }
        x = x * 256 + bytes[i] as u64;
        i = i + 1;
    }
    assert(bytes@.take(8) =~= bytes@);
    x
}

proof fn lemma_pow256_at_most_u64(n: nat)
    requires
        n <= 8,
    ensures
        pow(256, n) <= 0x1_0000_0000_0000_0000,
    decreases 8 - n,
{
    reveal(pow);
    if n == 8 {
        assert(pow(256, 8) == 0x1_0000_0000_0000_0000) by {
            reveal_with_fuel(pow, 9);
        }
    } else {
        lemma_pow256_at_most_u64(n + 1);
        assert(pow(256, n + 1) == 256 * pow(256, n));
        assert(0 <= pow(256, n)) by {
            vstd::arithmetic::power::lemma_pow_positive(256, n);
        }
    }
}

/// The four big-endian bytes of `x`.
pub fn u32_be(x: u32) -> (out: [u8; 4])
    ensures
        out@ == be_bytes(x as nat, 4),
{
    let wide: [u8; 8] = u64_be(x as u64);
    let out: [u8; 4] = [wide[4], wide[5], wide[6], wide[7]];
    proof {
        reveal_with_fuel(be_bytes, 9);
        assert(out@ =~= be_bytes(x as nat, 4));
    }
    out
}

/// Each big-endian digit is the one with its weight: dividing the number by the weight leaves it
/// over 256.
pub proof fn law_be_digit(x: nat, width: nat, i: int)
    requires
        0 <= i < width,
    ensures
        be_bytes(x, width).len() == width,
        be_bytes(x, width)[i] == (x / pow(256, (width - 1 - i) as nat) as nat) % 256,
    decreases width,
{
    let w = (width - 1) as nat;
    lemma_be_bytes_len(x, width);
    lemma_be_bytes_len(x / 256, w);
    if i == w {
        vstd::arithmetic::power::lemma_pow0(256);
        assert(x / 1 == x);
    } else {
        law_be_digit(x / 256, w, i);
        let weight = pow(256, (w - 1 - i) as nat);
        vstd::arithmetic::power::lemma_pow_positive(256, (w - 1 - i) as nat);
        reveal(pow);
        assert(pow(256, (width - 1 - i) as nat) == 256 * weight);
        vstd::arithmetic::div_mod::lemma_div_denominator(x as int, 256, weight);
    }
}

/// Little-endian digits read as big-endian ones backwards.
pub proof fn law_le_reads_backwards(s: Seq<u8>)
    ensures
        le_value(s) == be_value(s.reverse()),
    decreases s.len(),
{
    if s.len() > 0 {
        law_le_reads_backwards(s.drop_first());
        assert(s.reverse().drop_last() =~= s.drop_first().reverse());
        assert(s.reverse().last() == s.first());
    }
}

/// A number that fits, written backwards and read little-endian, is read back.
pub proof fn law_le_round_trip(x: nat, width: nat)
    requires
        x < pow(256, width),
    ensures
        be_bytes(x, width).reverse().len() == width,
        le_value(be_bytes(x, width).reverse()) == x,
{
    lemma_be_bytes_len(x, width);
    law_le_reads_backwards(be_bytes(x, width).reverse());
    assert(be_bytes(x, width).reverse().reverse() =~= be_bytes(x, width));
    law_be_round_trip(x, width);
}

} // verus!
