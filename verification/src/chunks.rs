//! Partitioning a region of a vector into contiguous, non-overlapping chunks.
//!
//! The chunks of a region are consecutive runs of exactly `CHUNK_SIZE`
//! elements, except the last, which holds the remainder. Laid end to end they
//! are exactly the region, so handing each chunk to its own worker cannot lose,
//! duplicate or reorder an element.

use vstd::prelude::*;

verus! {

/// Maximum number of elements in one parallel chunk.
pub const CHUNK_SIZE: usize = 3;

/// The views of the vectors in a sequence of vectors.
pub open spec fn views_of<T>(chunks: Seq<Vec<T>>) -> Seq<Seq<T>> {
    chunks.map_values(|c: Vec<T>| c@)
}

/// All chunks laid end to end, in order.
pub open spec fn concat_all<T>(chunks: Seq<Seq<T>>) -> Seq<T>
    decreases chunks.len(),
{
    if chunks.len() == 0 {
        Seq::empty()
    } else {
        concat_all(chunks.drop_last()) + chunks.last()
    }
}

/// Appending one more chunk extends the concatenation by exactly that chunk.
pub proof fn lemma_concat_all_push<T>(chunks: Seq<Seq<T>>, c: Seq<T>)
    ensures
        concat_all(chunks.push(c)) == concat_all(chunks) + c,
{
    assert(chunks.push(c).drop_last() =~= chunks);
    assert(chunks.push(c).last() == c);
}

/// A property of every element of the concatenation holds of every element of
/// every chunk.
pub proof fn lemma_concat_all_elements<T>(chunks: Seq<Seq<T>>, p: spec_fn(T) -> bool)
    requires
        forall|j: int| 0 <= j < concat_all(chunks).len() ==> #[trigger] p(concat_all(chunks)[j]),
    ensures
        forall|c: int, i: int|
            0 <= c < chunks.len() && 0 <= i < chunks[c].len() ==> #[trigger] p(chunks[c][i]),
    decreases chunks.len(),
{
    if chunks.len() > 0 {
        let pre = chunks.drop_last();
        assert forall|j: int| 0 <= j < concat_all(pre).len() implies #[trigger] p(
            concat_all(pre)[j],
        ) by {
            assert(concat_all(chunks)[j] == concat_all(pre)[j]);
        }
        lemma_concat_all_elements(pre, p);
        assert forall|c: int, i: int|
            0 <= c < chunks.len() && 0 <= i < chunks[c].len() implies #[trigger] p(
            chunks[c][i],
        ) by {
            if c < chunks.len() - 1 {
                assert(pre[c] == chunks[c]);
            } else {
                let j = concat_all(pre).len() + i;
                assert(concat_all(chunks)[j] == chunks.last()[i]);
                assert(p(concat_all(chunks)[j]));
            }
        }
    }
}

/// A pairwise relation between two chunk lists of equal shape carries over,
/// index by index, to their concatenations.
pub proof fn lemma_concat_all_pairwise<A, B>(s1: Seq<Seq<A>>, s2: Seq<Seq<B>>, p: spec_fn(A, B) -> bool)
    requires
        s1.len() == s2.len(),
        forall|c: int| 0 <= c < s1.len() ==> (#[trigger] s1[c]).len() == s2[c].len(),
        forall|c: int, i: int|
            0 <= c < s1.len() && 0 <= i < (#[trigger] s1[c]).len() ==> #[trigger] p(
                s1[c][i],
                s2[c][i],
            ),
    ensures
        concat_all(s1).len() == concat_all(s2).len(),
        forall|j: int|
            0 <= j < concat_all(s1).len() ==> #[trigger] p(concat_all(s1)[j], concat_all(s2)[j]),
    decreases s1.len(),
{
    if s1.len() > 0 {
        let p1 = s1.drop_last();
        let p2 = s2.drop_last();
        assert forall|c: int| 0 <= c < p1.len() implies (#[trigger] p1[c]).len() == p2[c].len() by {
            assert(p1[c] == s1[c]);
            assert(p2[c] == s2[c]);
        }
        assert forall|c: int, i: int|
            0 <= c < p1.len() && 0 <= i < (#[trigger] p1[c]).len() implies #[trigger] p(
            p1[c][i],
            p2[c][i],
        ) by {
            assert(p1[c] == s1[c]);
            assert(p2[c] == s2[c]);
            assert(p(s1[c][i], s2[c][i]));
        }
        lemma_concat_all_pairwise(p1, p2, p);
        assert forall|j: int| 0 <= j < concat_all(s1).len() implies #[trigger] p(
            concat_all(s1)[j],
            concat_all(s2)[j],
        ) by {
            if j < concat_all(p1).len() {
                assert(concat_all(s1)[j] == concat_all(p1)[j]);
                assert(concat_all(s2)[j] == concat_all(p2)[j]);
            } else {
                let i = j - concat_all(p1).len();
                assert(concat_all(s1)[j] == s1.last()[i]);
                assert(concat_all(s2)[j] == s2.last()[i]);
                assert(s1.last() == s1[s1.len() - 1]);
                assert(s2.last() == s2[s2.len() - 1]);
                assert(p(s1[s1.len() - 1][i], s2[s2.len() - 1][i]));
            }
        }
    }
}

/// Copy the region `v[from..]` into consecutive chunks of at most `CHUNK_SIZE`
/// elements each: every chunk but the last is exactly `CHUNK_SIZE` long, none
/// is empty, and laid end to end they are exactly the region.
pub fn chunk_up<T: Copy>(v: &Vec<T>, from: usize) -> (chunks: Vec<Vec<T>>)
    requires
        from <= v@.len(),
    ensures
        concat_all(views_of(chunks@)) == v@.subrange(from as int, v@.len() as int),
        forall|c: int| 0 <= c < chunks@.len() ==> 0 < (#[trigger] chunks@[c])@.len() <= CHUNK_SIZE,
        forall|c: int| 0 <= c < chunks@.len() - 1 ==> (#[trigger] chunks@[c])@.len() == CHUNK_SIZE,
{
    let mut chunks: Vec<Vec<T>> = Vec::new();
    let mut pos: usize = from;
    proof {
        assert(views_of(chunks@) =~= Seq::<Seq<T>>::empty());
        assert(concat_all(views_of(chunks@)) =~= v@.subrange(from as int, from as int));
    }
    while pos < v.len()
        invariant
            from <= pos <= v@.len(),
            concat_all(views_of(chunks@)) == v@.subrange(from as int, pos as int),
            forall|c: int| 0 <= c < chunks@.len() ==> 0 < (#[trigger] chunks@[c])@.len() <= CHUNK_SIZE,
            forall|c: int| 0 <= c < chunks@.len() - 1 ==> (#[trigger] chunks@[c])@.len() == CHUNK_SIZE,
            pos < v@.len() && chunks@.len() > 0 ==> (chunks@[chunks@.len() - 1])@.len()
                == CHUNK_SIZE,
        decreases v@.len() - pos,
    {
        let chunk_start: usize = pos;
        let end: usize = if v.len() - pos < CHUNK_SIZE {
            v.len()
        } else {
            pos + CHUNK_SIZE
        };
        let mut chunk: Vec<T> = Vec::new();
        proof {
            assert(chunk@ =~= v@.subrange(chunk_start as int, pos as int));
        }
        while pos < end
            invariant
                chunk_start <= pos <= end <= v@.len(),
                chunk@ == v@.subrange(chunk_start as int, pos as int),
            decreases end - pos,
        {
            chunk.push(v[pos]);
            pos += 1;
            proof {
                assert(v@.subrange(chunk_start as int, pos as int) =~= v@.subrange(
                    chunk_start as int,
                    pos - 1,
                ).push(v@[pos - 1]));
            }
        }
        proof {
            lemma_concat_all_push(views_of(chunks@), chunk@);
            assert(views_of(chunks@.push(chunk)) =~= views_of(chunks@).push(chunk@));
            assert(v@.subrange(from as int, pos as int) =~= v@.subrange(
                from as int,
                chunk_start as int,
            ) + v@.subrange(chunk_start as int, pos as int));
        }
        chunks.push(chunk);
    }
    chunks
}

} // verus!
