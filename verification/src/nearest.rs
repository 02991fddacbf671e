//! The choice of the nearest among several candidates.
//!
//! Each candidate is known here by a key that grows with its distance from
//! the point of reference. The nearest is the candidate with the least key,
//! and among several with that key the one that comes first.
//!
//! A distance arrives as the 64 bits of an IEEE 754 double. Its key is an
//! integer that is ordered as the numbers are; a distance that is no number
//! has no place in that order, and cannot be compared with another.

use vstd::prelude::*;

verus! {

/// Whether the candidate at `i` is the nearest: no key is less than its own,
/// and every candidate before it has a greater one.
pub open spec fn is_closest(keys: Seq<u64>, i: int) -> bool {
    &&& 0 <= i < keys.len()
    &&& forall|j: int| 0 <= j < keys.len() ==> keys[i] <= #[trigger] keys[j]
    &&& forall|j: int| 0 <= j < i ==> keys[i] < #[trigger] keys[j]
}

/// Whether `order` lists the candidates as a stable sort by ascending key
/// leaves them: every position once, keys never falling, and candidates with
/// equal keys in the order in which they came.
pub open spec fn is_stable_sort(keys: Seq<u64>, order: Seq<int>) -> bool {
    &&& order.len() == keys.len()
    &&& forall|k: int| 0 <= k < order.len() ==> 0 <= #[trigger] order[k] < keys.len()
    &&& forall|i: int| 0 <= i < keys.len() ==> #[trigger] order.contains(i)
    &&& forall|a: int, b: int|
        0 <= a < b < order.len() ==> keys[#[trigger] order[a]] <= keys[#[trigger] order[b]]
    &&& forall|a: int, b: int|
        0 <= a < b < order.len() && keys[#[trigger] order[a]] == keys[#[trigger] order[b]]
            ==> order[a] < order[b]
}

/// The bit that holds the sign of a double.
pub const SIGN_BIT: u64 = 0x8000_0000_0000_0000;

/// The bits of positive infinity. Magnitudes above it are no numbers.
pub const INFINITY_BITS: u64 = 0x7ff0_0000_0000_0000;

/// A distance that is no number, and the position at which it was found.
#[derive(Debug, PartialEq, Eq, Structural, Clone, Copy)]
pub struct NotANumber {
    pub position: usize,
}

/// The bits of a double without its sign.
pub open spec fn magnitude_of(bits: u64) -> u64 {
    if bits >= SIGN_BIT {
        (bits - SIGN_BIT) as u64
    } else {
        bits
    }
}

/// Whether the bits are those of no number.
pub open spec fn is_nan_bits(bits: u64) -> bool {
    magnitude_of(bits) > INFINITY_BITS
}

/// The key of a double: the middle of the range for both zeros, as far above
/// it as the magnitude of a positive number, as far below it as that of a
/// negative one.
pub open spec fn order_key_of(bits: u64) -> u64 {
    if bits >= SIGN_BIT {
        (SIGN_BIT - (bits - SIGN_BIT)) as u64
    } else {
        (SIGN_BIT + bits) as u64
    }
}

/// The keys of several doubles, each in its place.
pub open spec fn keys_of(distances: Seq<u64>) -> Seq<u64> {
    Seq::new(distances.len(), |i: int| order_key_of(distances[i]))
}

/// Whether the bits are those of no number.
pub fn is_not_a_number(bits: u64) -> (nan: bool)
    ensures
        nan == is_nan_bits(bits),
{
    let magnitude: u64 = if bits >= SIGN_BIT {
        bits - SIGN_BIT
    } else {
        bits
    };
    magnitude > INFINITY_BITS
}

/// Computes the key of a double from its bits.
pub fn order_key(bits: u64) -> (key: u64)
    ensures
        key == order_key_of(bits),
{
    if bits >= SIGN_BIT {
        SIGN_BIT - (bits - SIGN_BIT)
    } else {
        SIGN_BIT + bits
    }
}

/// Finds the nearest candidate. There is none exactly when there is no
/// candidate at all.
pub fn closest_index(keys: &Vec<u64>) -> (found: Option<usize>)
    ensures
        found is None <==> keys@.len() == 0,
        found matches Some(i) ==> is_closest(keys@, i as int),
{
    if keys.len() == 0 {
        return None;
    }
    let mut best: usize = 0;
    let mut next: usize = 1;
    while next < keys.len()
        invariant
            0 <= best < next <= keys.len(),
            forall|j: int| 0 <= j < next ==> keys@[best as int] <= #[trigger] keys@[j],
            forall|j: int| 0 <= j < best ==> keys@[best as int] < #[trigger] keys@[j],
        decreases keys.len() - next,
    {
        if keys[next] < keys[best] {
            best = next;
        }
        next = next + 1;
    }
    Some(best)
}

/// The position of the first distance that is no number, if there is one.
fn first_not_a_number(distances: &Vec<u64>) -> (found: Option<usize>)
    ensures
        found is None <==> forall|j: int| 0 <= j < distances@.len() ==> !is_nan_bits(#[trigger] distances@[j]),
        found matches Some(i) ==> i < distances@.len() && is_nan_bits(distances@[i as int])
            && forall|j: int| 0 <= j < i ==> !is_nan_bits(#[trigger] distances@[j]),
{
    let mut next: usize = 0;
    while next < distances.len()
        invariant
            next <= distances.len(),
            forall|j: int| 0 <= j < next ==> !is_nan_bits(#[trigger] distances@[j]),
        decreases distances.len() - next,
    {
        if is_not_a_number(distances[next]) {
            return Some(next);
        }
        next = next + 1;
    }
    None
}

/// Finds the nearest candidate from the bits of the candidates' distances.
///
/// Several candidates can be compared only if every distance is a number:
/// where one is not, the first such is named. A candidate that stands
/// alone is the nearest whatever its distance.
pub fn closest_distance(distances: &Vec<u64>) -> (found: Result<Option<usize>, NotANumber>)
    ensures
        match found {
            Err(error) => {
                &&& distances@.len() >= 2
                &&& error.position < distances@.len()
                &&& is_nan_bits(distances@[error.position as int])
                &&& forall|j: int| 0 <= j < error.position ==> !is_nan_bits(#[trigger] distances@[j])
            },
            Ok(None) => distances@.len() == 0,
            Ok(Some(i)) => {
                &&& distances@.len() == 1 || forall|j: int|
                    0 <= j < distances@.len() ==> !is_nan_bits(#[trigger] distances@[j])
                &&& is_closest(keys_of(distances@), i as int)
            },
        },
{
    if distances.len() >= 2 {
        match first_not_a_number(distances) {
            Some(position) => {
                return Err(NotANumber { position: position });
            },
            None => {},
        }
    }
    let mut keys: Vec<u64> = Vec::new();
    let mut next: usize = 0;
    while next < distances.len()
        invariant
            next <= distances.len(),
            keys@.len() == next,
            forall|j: int| 0 <= j < next ==> keys@[j] == order_key_of(#[trigger] distances@[j]),
        decreases distances.len() - next,
    {
        keys.push(order_key(distances[next]));
        next = next + 1;
    }
    assert(keys@ =~= keys_of(distances@));
    Ok(closest_index(&keys))
}

/// Keys are ordered as the numbers are: among numbers that are not negative
/// as their bits, among negative ones against their bits, and a negative
/// number before any that is not. The two zeros share a key, and only they.
pub proof fn lemma_order_key_follows_the_numbers(a: u64, b: u64)
    ensures
        a < SIGN_BIT && b < SIGN_BIT ==> (order_key_of(a) <= order_key_of(b) <==> a <= b),
        a >= SIGN_BIT && b >= SIGN_BIT ==> (order_key_of(a) <= order_key_of(b) <==> a >= b),
        a >= SIGN_BIT && b < SIGN_BIT ==> order_key_of(a) <= order_key_of(b),
        a > SIGN_BIT && b < SIGN_BIT ==> order_key_of(a) < order_key_of(b),
        order_key_of(a) == order_key_of(b) <==> a == b || (magnitude_of(a) == 0 && magnitude_of(b)
            == 0),
{
}

/// Distances are never negative, and among such numbers the nearest by key
/// is the nearest by the bits themselves.
pub proof fn lemma_closest_among_distances(distances: Seq<u64>, i: int)
    requires
        forall|j: int| 0 <= j < distances.len() ==> (#[trigger] distances[j]) < SIGN_BIT,
    ensures
        is_closest(keys_of(distances), i) <==> is_closest(distances, i),
{
    let keys = keys_of(distances);
    if is_closest(keys, i) {
        assert forall|j: int| 0 <= j < distances.len() implies distances[i] <= #[trigger] distances[j] by {
            assert(keys[i] <= keys[j]);
        }
        assert forall|j: int| 0 <= j < i implies distances[i] < #[trigger] distances[j] by {
            assert(keys[i] < keys[j]);
        }
    }
    if is_closest(distances, i) {
        assert forall|j: int| 0 <= j < keys.len() implies keys[i] <= #[trigger] keys[j] by {
            assert(distances[i] <= distances[j]);
        }
        assert forall|j: int| 0 <= j < i implies keys[i] < #[trigger] keys[j] by {
            assert(distances[i] < distances[j]);
        }
    }
}

/// At most one candidate is the nearest, so `closest_index` has one possible
/// result on each input.
pub proof fn lemma_closest_unique(keys: Seq<u64>, i: int, j: int)
    requires
        is_closest(keys, i),
        is_closest(keys, j),
    ensures
        i == j,
{
    if i < j {
        assert(keys[j] < keys[i]);
        assert(keys[i] <= keys[j]);
    } else if j < i {
        assert(keys[i] < keys[j]);
        assert(keys[j] <= keys[i]);
    }
}

/// The nearest candidate is the one that a stable sort by ascending key puts
/// first.
pub proof fn lemma_closest_heads_stable_sort(keys: Seq<u64>, order: Seq<int>)
    requires
        keys.len() > 0,
        is_stable_sort(keys, order),
    ensures
        is_closest(keys, order[0]),
{
    let head = order[0];
    assert forall|j: int| 0 <= j < keys.len() implies keys[head] <= #[trigger] keys[j] by {
        assert(order.contains(j));
        let k = choose|k: int| 0 <= k < order.len() && #[trigger] order[k] == j;
        if k > 0 {
            assert(keys[order[0]] <= keys[order[k]]);
        }
    }
    assert forall|j: int| 0 <= j < head implies keys[head] < #[trigger] keys[j] by {
        assert(order.contains(j));
        let k = choose|k: int| 0 <= k < order.len() && #[trigger] order[k] == j;
        assert(k > 0);
        assert(keys[order[0]] <= keys[order[k]]);
        if keys[order[0]] == keys[order[k]] {
            assert(order[0] < order[k]);
        }
    }
}

} // verus!
