//! The two splitting policies.
//!
//! Both entry points copy the input into a fresh output vector and transform
//! every position of it, returning a vector of the same length in which each
//! position holds a result of the transformation applied to the corresponding
//! input element. They differ only in how they choose between the sequential
//! loop and the chunked parallel path; the choice never shows in the result.

use vstd::prelude::*;
use vstd::std_specs::ops::AddSpec;
use crate::laws::policy_result_admitted;
use crate::clock::elapsed_since;
use crate::clock::micros_of;
use crate::clock::now_instant;
use crate::parallel::chunked_parallel_apply;

verus! {

/// Inputs at least this long take the parallel path under the size policy.
pub const SIZE_THRESHOLD: usize = 10;

/// Once this many microseconds have passed, the time policy hands the
/// unprocessed suffix to the parallel path.
pub const TIME_BUDGET_MICROS: u128 = 100;

/// The size policy's decision: whether an input of length `len` is split
/// across parallel workers rather than processed sequentially.
pub fn size_policy_splits(len: usize) -> (split: bool)
    ensures
        split == (len >= SIZE_THRESHOLD),
{
    len >= SIZE_THRESHOLD
}

/// The demonstration transformation: an element added to itself.
pub fn proceed_elem<T: core::ops::Add<Output = T> + Copy>(t: T) -> (r: T)
    requires
        t.add_req(t),
    ensures
        T::obeys_add_spec() ==> r == t.add_spec(t),
{
    t + t
}

/// Copy `array` into a fresh vector.
fn copy_to_vec<T: Copy>(array: &Vec<T>) -> (res: Vec<T>)
    ensures
        res@ == array@,
{
    let mut res: Vec<T> = Vec::with_capacity(array.len());
    let mut k: usize = 0;
    while k < array.len()
        invariant
            k <= array@.len(),
            res@ == array@.subrange(0, k as int),
        decreases array@.len() - k,
    {
        res.push(array[k]);
        k += 1;
        proof {
            assert(array@.subrange(0, k as int) =~= array@.subrange(0, k - 1).push(
                array@[k - 1],
            ));
        }
    }
    proof {
        assert(array@.subrange(0, array@.len() as int) =~= array@);
    }
    res
}

/// Apply `proceed` to every element of `array`, sequentially when the input is
/// shorter than `SIZE_THRESHOLD` and through the chunked parallel path
/// otherwise. Whatever the path, the result has the input's length and each of
/// its positions holds a result of `proceed` on the input element there.
pub fn apply_with_size_policy<T, F>(array: Vec<T>, proceed: F) -> (res: Vec<T>) where
    T: Copy + Send,
    F: Fn(T) -> T + Sync,

    requires
        forall|i: int| 0 <= i < array@.len() ==> call_requires(proceed, (array@[i],)),
    ensures
        policy_result_admitted(proceed, array@, res@),
{
    let mut res = copy_to_vec(&array);
    if !size_policy_splits(array.len()) {
        let mut i: usize = 0;
        while i < array.len()
            invariant
                i <= array@.len(),
                res@.len() == array@.len(),
                forall|j: int| 0 <= j < array@.len() ==> call_requires(proceed, (array@[j],)),
                forall|j: int| 0 <= j < i ==> call_ensures(proceed, (array@[j],), #[trigger] res@[j]),
                forall|j: int| i <= j < array@.len() ==> res@[j] == array@[j],
            decreases array@.len() - i,
        {
            let x = array[i];
            let y = proceed(x);
            res[i] = y;
            i += 1;
        }
    } else {
        chunked_parallel_apply(&mut res, 0, &proceed);
    }
    res
}

/// Apply `proceed` to every element of `array`: sequentially from the front
/// while the elapsed time since the call began stays under
/// `TIME_BUDGET_MICROS`, and through the chunked parallel path for whatever
/// suffix is still unprocessed once the budget is spent. Whatever the clock
/// does, the result has the input's length and each of its positions holds a
/// result of `proceed` on the input element there.
pub fn apply_with_time_policy<T, F>(array: Vec<T>, proceed: F) -> (res: Vec<T>) where
    T: Copy + Send,
    F: Fn(T) -> T + Sync,

    requires
        forall|i: int| 0 <= i < array@.len() ==> call_requires(proceed, (array@[i],)),
    ensures
        policy_result_admitted(proceed, array@, res@),
{
    let start = now_instant();
    let mut res = copy_to_vec(&array);
    let mut i: usize = 0;
    while i < array.len()
        invariant
            i <= array@.len(),
            res@.len() == array@.len(),
            forall|j: int| 0 <= j < array@.len() ==> call_requires(proceed, (array@[j],)),
            forall|j: int| 0 <= j < i ==> call_ensures(proceed, (array@[j],), #[trigger] res@[j]),
            forall|j: int| i <= j < array@.len() ==> res@[j] == array@[j],
        decreases array@.len() - i,
    {
        let elapsed = elapsed_since(&start);
        if micros_of(&elapsed) >= TIME_BUDGET_MICROS {
            chunked_parallel_apply(&mut res, i, &proceed);
            return res;
        }
        let x = array[i];
        let y = proceed(x);
        res[i] = y;
        i += 1;
    }
    res
}

} // verus!
