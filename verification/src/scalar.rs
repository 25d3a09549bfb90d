//! Byte-level codec for fixed-width scalars: reading a byte span as an
//! unsigned value in little- or big-endian order, and writing a value back
//! out as bytes. Values are carried as unsigned bit patterns; the type tag
//! of the surrounding field says how a pattern is to be reinterpreted.

use vstd::prelude::*;

verus! {

/// 256^n, the number of distinct values an n-byte scalar can take.
pub open spec fn pow256(n: nat) -> nat
    decreases n,
{
    if n == 0 {
        1
    } else {
        256 * pow256((n - 1) as nat)
    }
}

/// Value of a byte sequence read as a little-endian unsigned integer.
pub open spec fn le_value(bytes: Seq<u8>) -> nat
    decreases bytes.len(),
{
    if bytes.len() == 0 {
        0
    } else {
        bytes.first() as nat + 256 * le_value(bytes.drop_first())
    }
}

/// Value of a byte sequence read as a big-endian unsigned integer.
pub open spec fn be_value(bytes: Seq<u8>) -> nat
    decreases bytes.len(),
{
    if bytes.len() == 0 {
        0
    } else {
        256 * be_value(bytes.drop_last()) + bytes.last() as nat
    }
}

/// Value of a byte sequence under the endianness stated by the record set.
pub open spec fn scalar_value(bytes: Seq<u8>, is_big_endian: bool) -> nat {
    if is_big_endian {
        be_value(bytes)
    } else {
        le_value(bytes)
    }
}

/// The `width` little-endian bytes of `v` (low digits of `v` in base 256).
pub open spec fn le_bytes(v: nat, width: nat) -> Seq<u8>
    decreases width,
{
    if width == 0 {
        Seq::empty()
    } else {
        seq![(v % 256) as u8] + le_bytes(v / 256, (width - 1) as nat)
    }
}

/// The `width` bytes of `v` in the requested byte order.
pub open spec fn scalar_bytes(v: nat, width: nat, is_big_endian: bool) -> Seq<u8> {
    if is_big_endian {
        le_bytes(v, width).reverse()
    } else {
        le_bytes(v, width)
    }
}

pub proof fn lemma_pow256_pos(n: nat)
    ensures
        pow256(n) >= 1,
    decreases n,
{
    if n > 0 {
        lemma_pow256_pos((n - 1) as nat);
    }
}

pub proof fn lemma_pow256_increases(a: nat, b: nat)
    requires
        a <= b,
    ensures
        pow256(a) <= pow256(b),
    decreases b,
{
    if a < b {
        lemma_pow256_increases(a, (b - 1) as nat);
        lemma_pow256_pos((b - 1) as nat);
    }
}

pub proof fn lemma_le_value_bound(bytes: Seq<u8>)
    ensures
        le_value(bytes) < pow256(bytes.len()),
    decreases bytes.len(),
{
    if bytes.len() > 0 {
        lemma_le_value_bound(bytes.drop_first());
        let rest = le_value(bytes.drop_first());
        let p = pow256((bytes.len() - 1) as nat);
        assert(256 * rest <= 256 * (p - 1)) by (nonlinear_arith)
            requires rest <= p - 1;
    }
}

pub proof fn lemma_be_value_bound(bytes: Seq<u8>)
    ensures
        be_value(bytes) < pow256(bytes.len()),
    decreases bytes.len(),
{
    if bytes.len() > 0 {
        lemma_be_value_bound(bytes.drop_last());
        let rest = be_value(bytes.drop_last());
        let p = pow256((bytes.len() - 1) as nat);
        assert(256 * rest <= 256 * (p - 1)) by (nonlinear_arith)
            requires rest <= p - 1;
    }
}

pub proof fn lemma_scalar_value_bound(bytes: Seq<u8>, is_big_endian: bool)
    ensures
        scalar_value(bytes, is_big_endian) < pow256(bytes.len()),
{
    lemma_le_value_bound(bytes);
    lemma_be_value_bound(bytes);
}

/// A big-endian read is a little-endian read of the reversed bytes.
pub proof fn lemma_be_is_reversed_le(bytes: Seq<u8>)
    ensures
        be_value(bytes) == le_value(bytes.reverse()),
    decreases bytes.len(),
{
    if bytes.len() == 0 {
        assert(bytes.reverse() =~= bytes);
    } else {
        lemma_be_is_reversed_le(bytes.drop_last());
        assert(bytes.reverse().first() == bytes.last());
        assert(bytes.reverse().drop_first() =~= bytes.drop_last().reverse());
    }
}

/// Endianness law: a field's bytes decoded as big-endian give the same value
/// as the reversed bytes decoded as little-endian, and for one-byte scalars
/// the stated endianness does not matter at all.
pub proof fn lemma_endianness_law(bytes: Seq<u8>)
    ensures
        scalar_value(bytes, true) == scalar_value(bytes.reverse(), false),
        bytes.len() <= 1 ==> scalar_value(bytes, true) == scalar_value(bytes, false),
{
    lemma_be_is_reversed_le(bytes);
    if bytes.len() == 1 {
        assert(bytes.reverse() =~= bytes);
    }
    if bytes.len() == 0 {
        assert(bytes.reverse() =~= bytes);
    }
}

pub proof fn lemma_le_bytes_len(v: nat, width: nat)
    ensures
        le_bytes(v, width).len() == width,
        scalar_bytes(v, width, true).len() == width,
        scalar_bytes(v, width, false).len() == width,
    decreases width,
{
    if width > 0 {
        lemma_le_bytes_len(v / 256, (width - 1) as nat);
    }
}

/// Writing a value as little-endian bytes and reading the bytes back yields
/// the value reduced modulo the span's capacity.
pub proof fn lemma_le_value_of_le_bytes(v: nat, width: nat)
    ensures
        le_value(le_bytes(v, width)) == v % pow256(width),
    decreases width,
{
    if width == 0 {
        assert(v % 1 == 0) by (nonlinear_arith);
    } else {
        lemma_le_value_of_le_bytes(v / 256, (width - 1) as nat);
        let rest = le_bytes(v / 256, (width - 1) as nat);
        let whole = seq![(v % 256) as u8] + rest;
        assert(whole.first() == (v % 256) as u8);
        assert(whole.drop_first() =~= rest);
        let p = pow256((width - 1) as nat);
        lemma_pow256_pos((width - 1) as nat);
        vstd::arithmetic::div_mod::lemma_mod_breakdown(v as int, 256, p as int);
        assert(le_value(whole) == v % 256 + 256 * ((v / 256) % p));
    }
}

/// Round trip at the scalar level: the bytes written for `v` decode, under
/// the same endianness, back to `v` whenever `v` fits in the span.
pub proof fn lemma_scalar_round_trip(v: nat, width: nat, is_big_endian: bool)
    requires
        v < pow256(width),
    ensures
        scalar_value(scalar_bytes(v, width, is_big_endian), is_big_endian) == v,
{
    lemma_le_value_of_le_bytes(v, width);
    vstd::arithmetic::div_mod::lemma_small_mod(v, pow256(width));
    if is_big_endian {
        lemma_be_is_reversed_le(le_bytes(v, width).reverse());
        assert(le_bytes(v, width).reverse().reverse() =~= le_bytes(v, width));
    }
}

/// Reads the `width`-byte span of `data` that starts at `start` as one
/// unsigned scalar in the stated endianness.
#[verifier::loop_isolation(false)]
pub fn decode_scalar(data: &Vec<u8>, start: usize, width: usize, is_big_endian: bool) -> (v: u64)
    requires
        start + width <= data@.len(),
        width <= 8,
    ensures
        v as nat == scalar_value(
            data@.subrange(start as int, start as int + width as int),
            is_big_endian,
        ),
{
    let upper: usize = data.len();
    let ghost region: Seq<u8> = data@.subrange(start as int, start as int + width as int);
    let mut acc: u64 = 0;
    if is_big_endian {
        for k in 0..width
            invariant
                start + width <= data@.len(),
                width <= 8,
                region == data@.subrange(start as int, start as int + width as int),
                acc as nat == be_value(region.take(k as int)),
                (acc as nat) < pow256(k as nat),
        {
            proof {
                let prefix = region.take(k as int);
                let next = region.take(k as int + 1);
                assert(next.drop_last() =~= prefix);
                assert(next.last() == data@[start + k]);
                lemma_pow256_increases((k + 1) as nat, 8);
                assert(pow256(8) == 0x1_0000_0000_0000_0000) by {
                    reveal_with_fuel(pow256, 9);
                }
                assert(256 * (acc as nat) + 255 < 256 * pow256(k as nat)) by (nonlinear_arith)
                    requires (acc as nat) < pow256(k as nat);
            }
            acc = acc * 256 + data[start + k] as u64;
        }
        proof {
            assert(region.take(width as int) =~= region);
        }
    } else {
        let mut k: usize = width;
        while k > 0
            invariant
                start + width <= data@.len(),
                width <= 8,
                k <= width,
                region == data@.subrange(start as int, start as int + width as int),
                acc as nat == le_value(region.skip(k as int)),
                (acc as nat) < pow256((width - k) as nat),
            decreases k,
        {
            proof {
                let suffix = region.skip(k as int);
                let next = region.skip(k as int - 1);
                assert(next.drop_first() =~= suffix);
                assert(next.first() == data@[start + k - 1]);
                lemma_pow256_increases((width - k + 1) as nat, 8);
                assert(pow256(8) == 0x1_0000_0000_0000_0000) by {
                    reveal_with_fuel(pow256, 9);
                }
                assert(256 * (acc as nat) + 255 < 256 * pow256((width - k) as nat))
                    by (nonlinear_arith)
                    requires (acc as nat) < pow256((width - k) as nat);
            }
            k = k - 1;
            acc = acc * 256 + data[start + k] as u64;
        }
        proof {
            assert(region.skip(0) =~= region);
        }
    }
    acc
}

/// Appends the `width` bytes of `v`, in the stated endianness, to `out`.
#[verifier::loop_isolation(false)]
pub fn push_scalar_bytes(out: &mut Vec<u8>, v: u64, width: usize, is_big_endian: bool)
    requires
        width <= 8,
    ensures
        final(out)@ == old(out)@ + scalar_bytes(v as nat, width as nat, is_big_endian),
{
    let mut tmp: Vec<u8> = Vec::new();
    let mut cur: u64 = v;
    for k in 0..width
        invariant
            tmp@.len() == k,
            tmp@ + le_bytes(cur as nat, (width - k) as nat) == le_bytes(v as nat, width as nat),
    {
        proof {
            let unwritten = le_bytes(cur as nat, (width - k) as nat);
            let shorter = le_bytes(cur as nat / 256, (width - k - 1) as nat);
            assert(unwritten == seq![(cur as nat % 256) as u8] + shorter);
            assert(tmp@.push((cur % 256) as u8) + shorter =~= tmp@ + unwritten);
        }
        tmp.push((cur % 256) as u8);
        cur = cur / 256;
    }
    proof {
        assert(tmp@ + le_bytes(cur as nat, 0) =~= tmp@);
        assert(tmp@ == le_bytes(v as nat, width as nat));
        lemma_le_bytes_len(v as nat, width as nat);
    }
    if is_big_endian {
        let ghost target = le_bytes(v as nat, width as nat).reverse();
        let mut k: usize = 0;
        while k < width
            invariant
                tmp@ == le_bytes(v as nat, width as nat),
                tmp@.len() == width,
                target == tmp@.reverse(),
                k <= width,
                out@ == old(out)@ + target.take(k as int),
            decreases width - k,
        {
            proof {
                assert(target.take(k as int).push(tmp@[width - 1 - k]) =~= target.take(
                    k as int + 1,
                ));
                assert(old(out)@ + target.take(k as int) + seq![tmp@[width - 1 - k]] =~= old(out)@
                    + target.take(k as int + 1));
            }
            out.push(tmp[width - 1 - k]);
            k = k + 1;
        }
        proof {
            assert(target.take(width as int) =~= target);
        }
    } else {
        let mut k: usize = 0;
        while k < width
            invariant
                tmp@ == le_bytes(v as nat, width as nat),
                tmp@.len() == width,
                k <= width,
                out@ == old(out)@ + tmp@.take(k as int),
            decreases width - k,
        {
            proof {
                assert(old(out)@ + tmp@.take(k as int) + seq![tmp@[k as int]] =~= old(out)@
                    + tmp@.take(k as int + 1));
            }
            out.push(tmp[k]);
            k = k + 1;
        }
        proof {
            assert(tmp@.take(width as int) =~= tmp@);
        }
    }
}

} // verus!
