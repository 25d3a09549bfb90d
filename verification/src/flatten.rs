//! Facts about flattening a sequence of byte pieces into one buffer: the
//! length of the result, and how to read one piece back out of it by its
//! prefix-sum offset. The encode direction lays records out this way, and
//! the round-trip proof reads them back.

use vstd::prelude::*;
use vstd::seq_lib::*;

verus! {

/// Total length of the first `i` pieces.
pub open spec fn flat_len_to<A>(ss: Seq<Seq<A>>, i: int) -> int
    decreases i,
{
    if i <= 0 {
        0
    } else {
        flat_len_to(ss, i - 1) + ss[i - 1].len()
    }
}

/// The prefix sums only look at pieces before `i`.
pub proof fn lemma_flat_len_to_drop_last<A>(ss: Seq<Seq<A>>, i: int)
    requires
        0 <= i < ss.len(),
    ensures
        flat_len_to(ss.drop_last(), i) == flat_len_to(ss, i),
    decreases i,
{
    if i > 0 {
        lemma_flat_len_to_drop_last(ss, i - 1);
        assert(ss.drop_last()[i - 1] == ss[i - 1]);
    }
}

/// Prefix sums never shrink.
pub proof fn lemma_flat_len_to_mono<A>(ss: Seq<Seq<A>>, i: int, j: int)
    requires
        0 <= i <= j,
    ensures
        flat_len_to(ss, i) <= flat_len_to(ss, j),
    decreases j,
{
    if i < j {
        lemma_flat_len_to_mono(ss, i, j - 1);
    }
}

/// When every piece has the same length `k`, the prefix sums are multiples
/// of `k`.
pub proof fn lemma_flat_len_to_const<A>(ss: Seq<Seq<A>>, k: nat, i: int)
    requires
        0 <= i <= ss.len(),
        forall|m: int| 0 <= m < ss.len() ==> #[trigger] ss[m].len() == k,
    ensures
        flat_len_to(ss, i) == i * k,
    decreases i,
{
    if i > 0 {
        lemma_flat_len_to_const(ss, k, i - 1);
        assert((i - 1) * k + k == i * k) by (nonlinear_arith);
    } else {
        assert(0 * k == 0) by (nonlinear_arith);
    }
}

/// Flattening splits at the last piece.
pub proof fn lemma_flatten_split_last<A>(ss: Seq<Seq<A>>)
    requires
        ss.len() > 0,
    ensures
        ss.flatten() == ss.drop_last().flatten() + ss.last(),
{
    ss.lemma_flatten_and_flatten_alt_are_equivalent();
    ss.drop_last().lemma_flatten_and_flatten_alt_are_equivalent();
}

/// The flattened buffer is exactly as long as all its pieces together.
pub proof fn lemma_flatten_len<A>(ss: Seq<Seq<A>>)
    ensures
        ss.flatten().len() == flat_len_to(ss, ss.len() as int),
    decreases ss.len(),
{
    if ss.len() == 0 {
        assert(ss.flatten() =~= Seq::<A>::empty());
    } else {
        lemma_flatten_split_last(ss);
        lemma_flatten_len(ss.drop_last());
        lemma_flat_len_to_drop_last(ss, ss.len() - 1);
    }
}

/// Piece `f` of the flattened buffer sits at its prefix-sum offset.
pub proof fn lemma_flatten_piece<A>(ss: Seq<Seq<A>>, f: int)
    requires
        0 <= f < ss.len(),
    ensures
        0 <= flat_len_to(ss, f),
        flat_len_to(ss, f) + ss[f].len() <= ss.flatten().len(),
        ss.flatten().subrange(flat_len_to(ss, f), flat_len_to(ss, f) + ss[f].len()) == ss[f],
    decreases ss.len(),
{
    lemma_flatten_len(ss);
    lemma_flat_len_to_mono(ss, 0, f);
    lemma_flat_len_to_mono(ss, f + 1, ss.len() as int);
    lemma_flatten_split_last(ss);
    let head = ss.drop_last().flatten();
    let tail = ss.last();
    lemma_flatten_len(ss.drop_last());
    if f == ss.len() - 1 {
        lemma_flat_len_to_drop_last(ss, f);
        assert(head.len() == flat_len_to(ss, f));
        assert(ss.flatten().subrange(flat_len_to(ss, f), flat_len_to(ss, f) + tail.len())
            =~= tail);
    } else {
        lemma_flatten_piece(ss.drop_last(), f);
        lemma_flat_len_to_drop_last(ss, f);
        assert(ss.drop_last()[f] == ss[f]);
        lemma_flat_len_to_mono(ss.drop_last(), f + 1, ss.drop_last().len() as int);
        lemma_flat_len_to_drop_last(ss, f + 1);
        assert(flat_len_to(ss, f) + ss[f].len() <= head.len());
        assert(ss.flatten().subrange(flat_len_to(ss, f), flat_len_to(ss, f) + ss[f].len())
            =~= head.subrange(flat_len_to(ss, f), flat_len_to(ss, f) + ss[f].len()));
    }
}

/// Appending one more piece appends its bytes.
pub proof fn lemma_flatten_push<A>(ss: Seq<Seq<A>>, piece: Seq<A>)
    ensures
        ss.push(piece).flatten() == ss.flatten() + piece,
{
    lemma_flatten_split_last(ss.push(piece));
    assert(ss.push(piece).drop_last() =~= ss);
}

} // verus!
