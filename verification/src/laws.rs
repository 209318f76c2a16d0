//! Properties that relate the two policies to a plain sequential map.
//!
//! Both `apply_with_size_policy` and `apply_with_time_policy` promise, of every
//! result, the same thing: the input's length, and at each index a value the
//! transformation may return for the input element there. The lemmas here draw
//! the consequences of that promise for a deterministic transformation.

use vstd::prelude::*;

verus! {

/// Whether `result` is a value the policies' contracts admit for input `s`
/// under transformation `f`: same length, and at every index a value `f` may
/// return for the input element there.
pub open spec fn policy_result_admitted<T, F: Fn(T) -> T>(f: F, s: Seq<T>, result: Seq<T>) -> bool {
    &&& result.len() == s.len()
    &&& forall|i: int| 0 <= i < s.len() ==> call_ensures(f, (s[i],), #[trigger] result[i])
}

/// Whether `f` is deterministic with meaning `g`: whatever `f` returns on an
/// input is exactly `g` of that input. A pure transformation is such an `f`.
pub open spec fn transforms_as<T, F: Fn(T) -> T>(f: F, g: spec_fn(T) -> T) -> bool {
    forall|x: T, y: T| #[trigger] call_ensures(f, (x,), y) ==> y == g(x)
}

/// A result either policy admits for a transformation that computes `g` is
/// exactly the plain sequential map of `g` over the input: concurrency and the
/// choice of path can change when elements are transformed, never the value or
/// the position of any of them.
pub proof fn lemma_policy_result_is_sequential_map<T, F: Fn(T) -> T>(
    f: F,
    s: Seq<T>,
    result: Seq<T>,
    g: spec_fn(T) -> T,
)
    requires
        policy_result_admitted(f, s, result),
        transforms_as(f, g),
    ensures
        result == s.map_values(g),
{
    assert(result =~= s.map_values(g));
}

/// Running either policy twice on the same input with the same deterministic
/// transformation gives identical results: no nondeterminism of scheduling or
/// of the clock can leak into the values.
pub proof fn lemma_policy_deterministic<T, F: Fn(T) -> T>(
    f: F,
    s: Seq<T>,
    result1: Seq<T>,
    result2: Seq<T>,
    g: spec_fn(T) -> T,
)
    requires
        policy_result_admitted(f, s, result1),
        policy_result_admitted(f, s, result2),
        transforms_as(f, g),
    ensures
        result1 == result2,
{
    lemma_policy_result_is_sequential_map(f, s, result1, g);
    lemma_policy_result_is_sequential_map(f, s, result2, g);
}

/// An empty input admits only the empty output, whatever the transformation.
pub proof fn lemma_empty_input_empty_output<T, F: Fn(T) -> T>(f: F, s: Seq<T>, result: Seq<T>)
    requires
        s.len() == 0,
        policy_result_admitted(f, s, result),
    ensures
        result == Seq::<T>::empty(),
{
    assert(result =~= Seq::<T>::empty());
}

} // verus!
