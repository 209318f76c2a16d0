//! Chunked parallel application of a transformation.
//!
//! The region to transform is copied into contiguous chunks, one worker thread
//! is spawned per chunk, each worker transforms its own chunk in place, and all
//! workers are joined before the call returns. No two workers ever touch the
//! same data: each owns its chunk outright.
//!
//! Note that `CHUNK_SIZE` bounds each worker's share, not the number of
//! workers: a region of n elements spawns about n / `CHUNK_SIZE` threads at
//! once. That unbounded fan-out is kept deliberately; capping the number of
//! in-flight workers would change the scheduling behaviour, not the result.

use vstd::prelude::*;
use crate::chunks::chunk_up;
use crate::chunks::concat_all;
use crate::chunks::lemma_concat_all_elements;
use crate::chunks::lemma_concat_all_pairwise;
use crate::chunks::lemma_concat_all_push;
use crate::chunks::views_of;

verus! {

/// Transform every element of `v` in place, sequentially. This is the work one
/// parallel worker does on its own chunk.
pub fn apply_in_place<T: Copy, F: Fn(T) -> T>(v: &mut Vec<T>, f: &F)
    requires
        forall|i: int| 0 <= i < old(v)@.len() ==> call_requires(*f, (old(v)@[i],)),
    ensures
        final(v)@.len() == old(v)@.len(),
        forall|i: int|
            0 <= i < old(v)@.len() ==> call_ensures(*f, (old(v)@[i],), #[trigger] final(v)@[i]),
{
    let ghost v0 = v@;
    let mut i: usize = 0;
    while i < v.len()
        invariant
            i <= v@.len(),
            v@.len() == v0.len(),
            forall|j: int| 0 <= j < v0.len() ==> call_requires(*f, (v0[j],)),
            forall|j: int| 0 <= j < i ==> call_ensures(*f, (v0[j],), #[trigger] v@[j]),
            forall|j: int| i <= j < v0.len() ==> v@[j] == v0[j],
        decreases v@.len() - i,
    {
        let x = v[i];
        assert(call_requires(*f, (v0[i as int],)));
        let y = f(x);
        v[i] = y;
        i += 1;
    }
}

/// Relies on `crossbeam::scope` and `Scope::spawn`: one thread is spawned per
/// chunk, each runs the verified `apply_in_place` on the chunk it owns and
/// hands the chunk back, and the scope joins every spawned thread before it
/// returns. A panic of the transformation in a worker propagates to the caller
/// only after the sibling threads have been joined.
#[verifier::external_body]
fn par_map_chunks<T, F>(chunks: Vec<Vec<T>>, f: &F) -> (r: Vec<Vec<T>>) where
    T: Copy + Send,
    F: Fn(T) -> T + Sync,

    requires
        forall|c: int, i: int|
            0 <= c < chunks@.len() && 0 <= i < chunks@[c]@.len() ==> call_requires(
                *f,
                (chunks@[c]@[i],),
            ),
    ensures
        r@.len() == chunks@.len(),
        forall|c: int| 0 <= c < r@.len() ==> (#[trigger] r@[c])@.len() == chunks@[c]@.len(),
        forall|c: int, i: int|
            0 <= c < r@.len() && 0 <= i < r@[c]@.len() ==> call_ensures(
                *f,
                (chunks@[c]@[i],),
                #[trigger] r@[c]@[i],
            ),
{
    crossbeam::scope(|s| {
        let handles: Vec<_> = chunks
            .into_iter()
            .map(|mut chunk| s.spawn(move |_| {
                apply_in_place(&mut chunk, f);
                chunk
            }))
            .collect();
        handles.into_iter().map(|h| h.join().unwrap()).collect()
    }).unwrap()
}

/// Transform `region[from..]` in place by handing contiguous chunks of it to
/// parallel workers; `region[..from]` is left untouched. Every element of the
/// suffix is replaced by a result of the transformation applied to it, at its
/// own index.
pub fn chunked_parallel_apply<T, F>(region: &mut Vec<T>, from: usize, f: &F) where
    T: Copy + Send,
    F: Fn(T) -> T + Sync,

    requires
        from <= old(region)@.len(),
        forall|i: int|
            from <= i < old(region)@.len() ==> call_requires(*f, (old(region)@[i],)),
    ensures
        final(region)@.len() == old(region)@.len(),
        forall|i: int| 0 <= i < from ==> final(region)@[i] == old(region)@[i],
        forall|i: int|
            from <= i < old(region)@.len() ==> call_ensures(
                *f,
                (old(region)@[i],),
                #[trigger] final(region)@[i],
            ),
{
    let ghost orig = region@;
    let chunks = chunk_up(region, from);
    proof {
        let reqp = |x: T| call_requires(*f, (x,));
        assert forall|j: int|
            0 <= j < concat_all(views_of(chunks@)).len() implies #[trigger] reqp(
            concat_all(views_of(chunks@))[j],
        ) by {
            assert(concat_all(views_of(chunks@))[j] == orig.subrange(
                from as int,
                orig.len() as int,
            )[j]);
            assert(orig.subrange(from as int, orig.len() as int)[j] == orig[from + j]);
        }
        lemma_concat_all_elements(views_of(chunks@), reqp);
        assert forall|c: int, i: int|
            0 <= c < chunks@.len() && 0 <= i < chunks@[c]@.len() implies call_requires(
            *f,
            (chunks@[c]@[i],),
        ) by {
            assert(views_of(chunks@)[c] == chunks@[c]@);
            assert(reqp(views_of(chunks@)[c][i]));
        }
    }
    let mapped = par_map_chunks(chunks, f);
    proof {
        let ensp = |x: T, y: T| call_ensures(*f, (x,), y);
        assert forall|c: int| 0 <= c < views_of(chunks@).len() implies (#[trigger] views_of(
            chunks@,
        )[c]).len() == views_of(mapped@)[c].len() by {
            assert(views_of(chunks@)[c] == chunks@[c]@);
            assert(views_of(mapped@)[c] == mapped@[c]@);
        }
        assert forall|c: int, i: int|
            0 <= c < views_of(chunks@).len() && 0 <= i < (#[trigger] views_of(chunks@)[c]).len()
            implies #[trigger] ensp(views_of(chunks@)[c][i], views_of(mapped@)[c][i]) by {
            assert(views_of(chunks@)[c] == chunks@[c]@);
            assert(views_of(mapped@)[c] == mapped@[c]@);
        }
        lemma_concat_all_pairwise(views_of(chunks@), views_of(mapped@), ensp);
    }
    let ghost flat = concat_all(views_of(mapped@));
    let ghost prefix = orig.subrange(0, from as int);
    region.truncate(from);
    let mut c: usize = 0;
    proof {
        assert(views_of(mapped@).subrange(0, 0) =~= Seq::<Seq<T>>::empty());
        assert(region@ =~= prefix + concat_all(views_of(mapped@).subrange(0, 0)));
    }
    while c < mapped.len()
        invariant
            c <= mapped@.len(),
            region@ == prefix + concat_all(views_of(mapped@).subrange(0, c as int)),
        decreases mapped@.len() - c,
    {
        let chunk = &mapped[c];
        let ghost done = region@;
        let mut i: usize = 0;
        while i < chunk.len()
            invariant
                i <= chunk@.len(),
                region@ == done + chunk@.subrange(0, i as int),
            decreases chunk@.len() - i,
        {
            let x = chunk[i];
            region.push(x);
            i += 1;
            proof {
                assert(chunk@.subrange(0, i as int) =~= chunk@.subrange(0, i - 1).push(
                    chunk@[i - 1],
                ));
                assert(done + chunk@.subrange(0, i - 1).push(chunk@[i - 1]) =~= (done
                    + chunk@.subrange(0, i - 1)).push(chunk@[i - 1]));
            }
        }
        proof {
            assert(chunk@.subrange(0, chunk@.len() as int) =~= chunk@);
            lemma_concat_all_push(views_of(mapped@).subrange(0, c as int), chunk@);
            assert(views_of(mapped@).subrange(0, c + 1) =~= views_of(mapped@).subrange(
                0,
                c as int,
            ).push(chunk@));
        }
        c += 1;
    }
    proof {
        assert(views_of(mapped@).subrange(0, mapped@.len() as int) =~= views_of(mapped@));
        let ensp = |x: T, y: T| call_ensures(*f, (x,), y);
        let suffix = orig.subrange(from as int, orig.len() as int);
        assert(region@ == prefix + flat);
        assert(flat.len() == suffix.len());
        assert(region@.len() == orig.len());
        assert forall|i: int|
            from <= i < orig.len() implies call_ensures(*f, (orig[i],), #[trigger] region@[i]) by {
            let j = i - from;
            assert(ensp(concat_all(views_of(chunks@))[j], flat[j]));
            assert(concat_all(views_of(chunks@))[j] == suffix[j]);
            assert(suffix[j] == orig[i]);
            assert(region@[i] == flat[j]);
        }
    }
}

} // verus!
