//! The shadow rule.
//!
//! A hit is in shadow when the ray from it towards the light meets anything
//! but the surface the hit lies on. What that ray meets arrives here as one
//! flag for each point met: whether the point is close to the hit itself.
//! Points that are close are left out; if any point is left, the light is
//! counted as further away by a fixed factor.

use vstd::prelude::*;

verus! {

/// The brightness of a hit is this number divided by its distance to the
/// light.
pub const LIGHT_POWER: u32 = 1000;

/// The factor by which the light is further from a hit in shadow.
pub const SHADOW_COEFFICIENT: u32 = 3;

/// The factor for a hit that the light reaches.
pub const LIT_COEFFICIENT: u32 = 1;

/// Whether `kept` lists, in ascending order, exactly the positions of the
/// points that are not close.
pub open spec fn is_kept(close: Seq<bool>, kept: Seq<usize>) -> bool {
    &&& forall|k: int| 0 <= k < kept.len() ==> (#[trigger] kept[k]) < close.len() && !close[kept[k] as int]
    &&& forall|a: int, b: int| 0 <= a < b < kept.len() ==> (#[trigger] kept[a]) < (#[trigger] kept[b])
    &&& forall|i: int| 0 <= i < close.len() && !(#[trigger] close[i]) ==> kept.contains(i as usize)
}

/// Leaves out the points that are close to the hit, and gives the positions
/// of the others in the order in which they came.
pub fn exclude_close(close: &Vec<bool>) -> (kept: Vec<usize>)
    ensures
        is_kept(close@, kept@),
{
    let mut kept: Vec<usize> = Vec::new();
    let mut next: usize = 0;
    while next < close.len()
        invariant
            next <= close.len(),
            forall|k: int| 0 <= k < kept@.len() ==> (#[trigger] kept@[k]) < next && !close@[kept@[k] as int],
            forall|a: int, b: int| 0 <= a < b < kept@.len() ==> (#[trigger] kept@[a]) < (#[trigger] kept@[b]),
            forall|i: int| 0 <= i < next && !(#[trigger] close@[i]) ==> kept@.contains(i as usize),
        decreases close.len() - next,
    {
        if !close[next] {
            let ghost before = kept@;
            kept.push(next);
            proof {
                assert forall|i: int| 0 <= i < next + 1 && !(#[trigger] close@[i]) implies kept@.contains(
                    i as usize,
                ) by {
                    if i < next {
                        assert(before.contains(i as usize));
                        let k = choose|k: int| 0 <= k < before.len() && before[k] == i as usize;
                        assert(kept@[k] == i as usize);
                    } else {
                        assert(kept@[before.len() as int] == i as usize);
                    }
                }
            }
        }
        next = next + 1;
    }
    kept
}

/// The factor by which the distance to the light counts, from whether
/// anything stands between the hit and the light.
pub fn shadow_coefficient(obstructed: bool) -> (coefficient: u32)
    ensures
        coefficient == if obstructed {
            SHADOW_COEFFICIENT
        } else {
            LIT_COEFFICIENT
        },
{
    if obstructed {
        SHADOW_COEFFICIENT
    } else {
        LIT_COEFFICIENT
    }
}

/// Two lists that keep the same points agree up to any position that both
/// have.
proof fn lemma_kept_agree(close: Seq<bool>, first: Seq<usize>, second: Seq<usize>, upto: int)
    requires
        is_kept(close, first),
        is_kept(close, second),
        0 <= upto <= first.len(),
        upto <= second.len(),
    ensures
        forall|k: int| 0 <= k < upto ==> first[k] == second[k],
    decreases upto,
{
    if upto > 0 {
        lemma_kept_agree(close, first, second, upto - 1);
        let k = upto - 1;
        lemma_kept_not_later(close, first, second, k);
        lemma_kept_not_later(close, second, first, k);
    }
}

/// Where two lists that keep the same points agree before position `k`, the
/// second has at `k` nothing greater than the first.
proof fn lemma_kept_not_later(close: Seq<bool>, first: Seq<usize>, second: Seq<usize>, k: int)
    requires
        is_kept(close, first),
        is_kept(close, second),
        0 <= k < first.len(),
        k < second.len(),
        forall|j: int| 0 <= j < k ==> first[j] == second[j],
    ensures
        second[k] <= first[k],
{
    let position = first[k];
    assert(!close[position as int]);
    assert(second.contains(position));
    let m = choose|m: int| 0 <= m < second.len() && second[m] == position;
    if m < k {
        assert(first[m] == second[m]);
        assert(first[m] < first[k]);
    } else if m > k {
        assert(second[k] < second[m]);
    }
}

/// Only one list keeps the points that are not close, so `exclude_close` has
/// one possible result on each input.
pub proof fn lemma_kept_unique(close: Seq<bool>, first: Seq<usize>, second: Seq<usize>)
    requires
        is_kept(close, first),
        is_kept(close, second),
    ensures
        first == second,
{
    let shorter = if first.len() <= second.len() {
        first.len() as int
    } else {
        second.len() as int
    };
    lemma_kept_agree(close, first, second, shorter);
    if first.len() <= second.len() {
        lemma_kept_no_more(close, first, second);
    } else {
        lemma_kept_no_more(close, second, first);
    }
    assert(first =~= second);
}

/// A list that keeps the same points as another and agrees with it as far as
/// that one goes is no longer than it.
proof fn lemma_kept_no_more(close: Seq<bool>, first: Seq<usize>, second: Seq<usize>)
    requires
        is_kept(close, first),
        is_kept(close, second),
        first.len() <= second.len(),
        forall|k: int| 0 <= k < first.len() ==> first[k] == second[k],
    ensures
        first.len() == second.len(),
{
    if first.len() < second.len() {
        let extra = second[first.len() as int];
        assert(!close[extra as int]);
        assert(first.contains(extra));
        let m = choose|m: int| 0 <= m < first.len() && first[m] == extra;
        assert(second[m] == extra);
        assert(second[m] < second[first.len() as int]);
    }
}

/// Something is kept exactly when some point is not close: a hit whose ray
/// towards the light meets only its own surface is lit.
pub proof fn lemma_kept_some_iff_far(close: Seq<bool>, kept: Seq<usize>)
    requires
        is_kept(close, kept),
    ensures
        kept.len() > 0 <==> exists|i: int| 0 <= i < close.len() && !(#[trigger] close[i]),
{
    if kept.len() > 0 {
        let first = kept[0];
        assert(!close[first as int]);
    }
    if exists|i: int| 0 <= i < close.len() && !(#[trigger] close[i]) {
        let i = choose|i: int| 0 <= i < close.len() && !(#[trigger] close[i]);
        assert(kept.contains(i as usize));
    }
}

} // verus!
