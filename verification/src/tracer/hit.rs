use vstd::prelude::*;

verus! {

// The distance at which a ray meets a primitive is carried as a key, made
// by `distance_key`: the greater the key, the farther the point, and a key
// that is not positive stands for "no hit".

/// The key of 0.0001, the distance up to which a plane does not count as
/// hit: it guards against rays that run nearly along the plane and against
/// a surface hitting itself through rounding.
pub const HIT_EPSILON: i64 = 0x3F1A_36E2_EB1C_432D;

/// The key of 0.00005, the distance within which a primitive does not count
/// as standing in a light's way: it keeps a surface from shadowing itself
/// through rounding.
pub const SHADOW_EPSILON: i64 = 0x3F0A_36E2_EB1C_432D;

/// No primitive is hit: none of `distances` is positive.
pub open spec fn misses(distances: Seq<i64>) -> bool {
    forall|j: int| 0 <= j < distances.len() ==> #[trigger] distances[j] <= 0
}

/// Primitive `i` is the nearest hit: its distance is positive, no positive
/// distance is smaller, and every primitive before it with a positive
/// distance is strictly farther.
pub open spec fn is_nearest(distances: Seq<i64>, i: int) -> bool {
    &&& 0 <= i < distances.len()
    &&& distances[i] > 0
    &&& forall|j: int|
        0 <= j < distances.len() && #[trigger] distances[j] > 0 ==> distances[i] <= distances[j]
    &&& forall|j: int| 0 <= j < i && #[trigger] distances[j] > 0 ==> distances[i] < distances[j]
}

/// Some primitive is hit strictly between `nearer` and `farther`.
pub open spec fn blocked_between(distances: Seq<i64>, nearer: i64, farther: i64) -> bool {
    exists|j: int| 0 <= j < distances.len() && nearer < #[trigger] distances[j] < farther
}

/// Picks the primitive that a ray hits first, given the distance at which it
/// meets each one. Of several at the same smallest distance the first in
/// order is kept.
pub fn nearest_hit(distances: &Vec<i64>) -> (hit: Option<usize>)
    ensures
        match hit {
            Some(i) => is_nearest(distances@, i as int),
            None => misses(distances@),
        },
{
    let mut best: Option<usize> = None;
    let mut k: usize = 0;
    while k < distances.len()
        invariant
            k <= distances.len(),
            match best {
                Some(i) => i < k && is_nearest(distances@.take(k as int), i as int),
                None => misses(distances@.take(k as int)),
            },
        decreases distances.len() - k,
    {
        let dist: i64 = distances[k];
        let ghost seen = distances@.take(k as int);
        let ghost next = distances@.take(k + 1);
        proof {
            assert(forall|j: int| 0 <= j < k ==> next[j] == seen[j]);
            assert(next[k as int] == dist);
        }
        if dist > 0 {
            match best {
                None => {
                    best = Some(k);
                },
                Some(i) => {
                    if dist < distances[i] {
                        best = Some(k);
                    }
                },
            }
        }
        proof {
            match best {
                Some(i) => {
                    assert(is_nearest(next, i as int));
                },
                None => {
                    assert(misses(next));
                },
            }
        }
        k = k + 1;
    }
    proof {
        assert(distances@.take(distances.len() as int) =~= distances@);
    }
    best
}

/// Tells whether the way to a light is blocked: whether some primitive is
/// hit farther than `epsilon` and nearer than the light, both bounds left
/// out.
pub fn occluded(distances: &Vec<i64>, epsilon: i64, light_distance: i64) -> (shadow: bool)
    ensures
        shadow == blocked_between(distances@, epsilon, light_distance),
{
    let mut k: usize = 0;
    while k < distances.len()
        invariant
            k <= distances.len(),
            !blocked_between(distances@.take(k as int), epsilon, light_distance),
        decreases distances.len() - k,
    {
        let dist: i64 = distances[k];
        if epsilon < dist && dist < light_distance {
            return true;
        }
        proof {
            let seen = distances@.take(k as int);
            let next = distances@.take(k + 1);
            assert forall|j: int| 0 <= j < next.len() implies !(epsilon < #[trigger] next[j]
                < light_distance) by {
                if j < k {
                    assert(seen[j] == next[j]);
                }
            }
        }
        k = k + 1;
    }
    proof {
        assert(distances@.take(distances.len() as int) =~= distances@);
    }
    false
}

/// At most one primitive is the nearest hit.
pub proof fn lemma_nearest_unique(distances: Seq<i64>, i: int, k: int)
    requires
        is_nearest(distances, i),
        is_nearest(distances, k),
    ensures
        i == k,
{
}

/// A ray either misses everything or has a nearest hit, never both.
pub proof fn lemma_miss_or_nearest(distances: Seq<i64>, i: int)
    requires
        is_nearest(distances, i),
    ensures
        !misses(distances),
{
}

} // verus!
