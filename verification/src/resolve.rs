//! A model of the host's method lookup over the generated block, and the
//! priority laws it obeys.
//!
//! The generated call asks for the resolution method on a value behind the
//! full `n` indirection layers. The host peels automatic references one
//! layer at a time, so it reaches depth `n - 1` first, then `n - 2`, and so
//! on down to depth `0`, and takes the first depth owned by an applicable
//! implementation. The generator declares arm `i`'s implementation at depth
//! `n - i - 1` ([`crate::codegen::impl_head_code`]), so the peeling order
//! visits arm `0` first, then arm `1`, and so on: the declaration order.
//! An arm whose pattern or constraints the subject's type does not satisfy
//! simply owns no applicable implementation at its depth and is skipped.

use vstd::prelude::*;

verus! {

/// The index of the first satisfied arm at or after position `i`.
pub open spec fn first_from(sat: Seq<bool>, i: int) -> Option<int>
    decreases sat.len() - i,
{
    if i < 0 || i >= sat.len() {
        None
    } else if sat[i] {
        Some(i)
    } else {
        first_from(sat, i + 1)
    }
}

/// The index of the first satisfied arm: the arm the construct must run
/// under "first listed arm wins".
pub open spec fn first_satisfied(sat: Seq<bool>) -> Option<int> {
    first_from(sat, 0)
}

/// The indirection depth at which arm `i`'s implementation is declared
/// when there are `n` arms.
pub open spec fn arm_depth(n: int, i: int) -> int {
    n - i - 1
}

/// The host's lookup with depths `d, d - 1, ..., 0` still to try: depth
/// `d` belongs to arm `len - 1 - d`, and the first depth whose arm is
/// satisfied wins.
pub open spec fn peel(sat: Seq<bool>, d: int) -> Option<int>
    decreases d + 1,
{
    if d < 0 {
        None
    } else {
        let i = sat.len() - 1 - d;
        if 0 <= i < sat.len() && sat[i] {
            Some(i)
        } else {
            peel(sat, d - 1)
        }
    }
}

/// The arm the generated block resolves to: lookup starts with all `n`
/// layers available, so every depth from `n - 1` down to `0` is tried,
/// deepest first.
pub open spec fn resolved(sat: Seq<bool>) -> Option<int> {
    peel(sat, sat.len() - 1)
}

/// Peeling from depth `d` visits exactly the arms from `len - 1 - d`
/// onward, in index order.
pub proof fn lemma_peel_is_scan(sat: Seq<bool>, d: int)
    requires
        d <= sat.len() - 1,
    ensures
        peel(sat, d) == first_from(sat, sat.len() - 1 - d),
    decreases d + 1,
{
    if d >= 0 {
        lemma_peel_is_scan(sat, d - 1);
    }
}

/// Priority ordering: for every satisfaction pattern, the arm the host's
/// peeling lookup resolves to is exactly the earliest-declared satisfied
/// arm — never a later one, even when a later arm is also (or better)
/// satisfied.
pub proof fn lemma_first_arm_wins(sat: Seq<bool>)
    ensures
        resolved(sat) == first_satisfied(sat),
{
    lemma_peel_is_scan(sat, sat.len() - 1);
}

/// What the first-satisfied scan returns: a satisfied index, before which
/// nothing is satisfied; or nothing, when no arm at or after `i` is
/// satisfied.
pub proof fn lemma_first_from_props(sat: Seq<bool>, i: int)
    requires
        0 <= i,
    ensures
        (match first_from(sat, i) {
            Some(k) => i <= k < sat.len() && sat[k] && (forall|m: int|
                i <= m < k ==> !sat[m]),
            None => forall|m: int| i <= m < sat.len() ==> !sat[m],
        }),
    decreases sat.len() - i,
{
    if i < sat.len() && !sat[i] {
        lemma_first_from_props(sat, i + 1);
    }
}

/// Exact-type precedence, generalized: an arm declared after some
/// satisfied arm is never the one resolved to, however well its own
/// pattern matches. Reordering the two arms therefore flips which one
/// runs.
pub proof fn lemma_earlier_arm_shadows(sat: Seq<bool>, i: int, j: int)
    requires
        0 <= i < j < sat.len(),
        sat[i],
    ensures
        resolved(sat) != Some(j),
{
    lemma_first_arm_wins(sat);
    lemma_first_from_props(sat, 0);
}

/// The depths the generator assigns strictly decrease with declaration
/// order: the first arm sits deepest (`n - 1`), the last at depth zero, so
/// the peeling order and the declaration order agree.
pub proof fn lemma_depths_strictly_decrease(n: int, i: int, j: int)
    requires
        0 <= i < j < n,
    ensures
        arm_depth(n, i) > arm_depth(n, j),
        arm_depth(n, 0) == n - 1,
        arm_depth(n, n - 1) == 0,
{
}

} // verus!
