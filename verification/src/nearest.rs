//! Which member of an aggregate a ray strikes first.
//!
//! A distance along a ray is carried as an ordered key: a `u64` that orders
//! as the distance does. The bit pattern of a non-negative `IEEE 754` double
//! is such a key, with positive infinity above every finite distance.

use vstd::prelude::*;

verus! {

/// Whether a member that reports `d` is struck within `t_min ..= t_max`.
pub open spec fn admits(t_min: u64, t_max: u64, d: Option<u64>) -> bool {
    d matches Some(t) && t_min <= t <= t_max
}

/// No member is struck within the range.
pub open spec fn all_miss(distances: Seq<Option<u64>>, t_min: u64, t_max: u64) -> bool {
    forall|i: int| 0 <= i < distances.len() ==> !admits(t_min, t_max, #[trigger] distances[i])
}

/// Member `k` is struck within the range, and no member is struck within the
/// range at a smaller distance.
pub open spec fn is_nearest(distances: Seq<Option<u64>>, t_min: u64, t_max: u64, k: int) -> bool {
    &&& 0 <= k < distances.len()
    &&& admits(t_min, t_max, distances[k])
    &&& forall|i: int|
        0 <= i < distances.len() && admits(t_min, t_max, #[trigger] distances[i])
            ==> distances[k]->0 <= distances[i]->0
}

/// The range of distances that is still acceptable while the members of an
/// aggregate are tried one after the other, and the member that narrowed it
/// last.
#[derive(Clone, Copy, Debug, PartialEq, Eq, Structural)]
pub struct HitWindow {
    /// The smallest acceptable distance.
    pub t_min: u64,
    /// The largest acceptable distance: the closest hit so far, or the
    /// limit the scan began with.
    pub closest: u64,
    /// The member struck at `closest`, if any was struck yet.
    pub winner: Option<usize>,
}

impl HitWindow {
    /// The window at the start of a scan.
    pub fn new(t_min: u64, t_max: u64) -> (window: HitWindow)
        ensures
            window == (HitWindow { t_min, closest: t_max, winner: None }),
    {
        HitWindow { t_min, closest: t_max, winner: None }
    }

    /// The largest distance at which the next member may still report a hit.
    pub fn limit(&self) -> (t_max: u64)
        ensures
            t_max == self.closest,
    {
        self.closest
    }

    /// Takes the report of member `index`, struck at distance `t`. The
    /// report is accepted where `t` lies in the window, which then closes
    /// down to `t`; a report from outside the window changes nothing.
    pub fn offer(&mut self, index: usize, t: u64) -> (accepted: bool)
        ensures
            accepted <==> old(self).t_min <= t <= old(self).closest,
            accepted ==> *final(self) == (HitWindow {
                t_min: old(self).t_min,
                closest: t,
                winner: Some(index),
            }),
            !accepted ==> *final(self) == *old(self),
    {
        if self.t_min <= t && t <= self.closest {
            self.closest = t;
            self.winner = Some(index);
            true
        } else {
            false
        }
    }
}

/// The member struck first within `t_min ..= t_max`, where `distances[i]` is
/// the distance at which member `i` is struck, if it is struck at all. Of
/// members struck at the same smallest distance, the last one is named.
pub fn nearest_hit(distances: &Vec<Option<u64>>, t_min: u64, t_max: u64) -> (hit: Option<usize>)
    ensures
        match hit {
            Some(k) => {
                &&& is_nearest(distances@, t_min, t_max, k as int)
                &&& forall|i: int|
                    k < i < distances.len() ==> #[trigger] distances[i] != distances[k as int]
            },
            None => all_miss(distances@, t_min, t_max),
        },
{
    let mut window = HitWindow::new(t_min, t_max);
    let mut i: usize = 0;
    while i < distances.len()
        invariant
            0 <= i <= distances.len(),
            window.t_min == t_min,
            window.closest <= t_max,
            match window.winner {
                Some(k) => {
                    &&& k < i
                    &&& distances[k as int] == Some(window.closest)
                    &&& is_nearest(distances@.take(i as int), t_min, t_max, k as int)
                    &&& forall|j: int| k < j < i ==> #[trigger] distances[j] != distances[k as int]
                },
                None => window.closest == t_max && all_miss(
                    distances@.take(i as int),
                    t_min,
                    t_max,
                ),
            },
        decreases distances.len() - i,
    {
        let ghost before = window;
        let ghost seen = distances@.take(i as int);
        let ghost now = distances@.take(i + 1);
        assert(forall|j: int| 0 <= j < i ==> now[j] == seen[j]);
        assert(now[i as int] == distances[i as int]);
        match distances[i] {
            Some(t) => {
                let accepted = window.offer(i, t);
                proof {
                    if accepted {
                        assert forall|j: int|
                            0 <= j < now.len() && admits(t_min, t_max, #[trigger] now[j]) implies t
                            <= now[j]->0 by {
                            if j < i {
                                assert(admits(t_min, t_max, seen[j]));
                            }
                        }
                    } else {
                        assert(!admits(t_min, before.closest, Some(t)));
                    }
                }
            },
            None => {},
        }
        i = i + 1;
    }
    assert(distances@.take(i as int) =~= distances@);
    window.winner
}

/// The distance of the nearest hit does not depend on the order in which the
/// members stand in the aggregate.
pub proof fn lemma_nearest_ignores_order(
    a: Seq<Option<u64>>,
    b: Seq<Option<u64>>,
    t_min: u64,
    t_max: u64,
    i: int,
    j: int,
)
    requires
        a.to_multiset() == b.to_multiset(),
        is_nearest(a, t_min, t_max, i),
        is_nearest(b, t_min, t_max, j),
    ensures
        a[i] == b[j],
{
    a.to_multiset_ensures();
    b.to_multiset_ensures();
    assert(a.contains(a[i]));
    assert(a.to_multiset().count(a[i]) > 0);
    assert(b.to_multiset().count(a[i]) > 0);
    assert(b.contains(a[i]));
    let i2 = choose|k: int| 0 <= k < b.len() && b[k] == a[i];
    assert(admits(t_min, t_max, b[i2]));
    assert(b.contains(b[j]));
    assert(b.to_multiset().count(b[j]) > 0);
    assert(a.to_multiset().count(b[j]) > 0);
    assert(a.contains(b[j]));
    let j2 = choose|k: int| 0 <= k < a.len() && a[k] == b[j];
    assert(admits(t_min, t_max, a[j2]));
}

/// Whether a ray misses every member does not depend on the order in which
/// the members stand in the aggregate.
pub proof fn lemma_miss_ignores_order(
    a: Seq<Option<u64>>,
    b: Seq<Option<u64>>,
    t_min: u64,
    t_max: u64,
)
    requires
        a.to_multiset() == b.to_multiset(),
        all_miss(a, t_min, t_max),
    ensures
        all_miss(b, t_min, t_max),
{
    a.to_multiset_ensures();
    b.to_multiset_ensures();
    assert forall|i: int| 0 <= i < b.len() implies !admits(t_min, t_max, #[trigger] b[i]) by {
        assert(b.contains(b[i]));
        assert(b.to_multiset().count(b[i]) > 0);
        assert(a.to_multiset().count(b[i]) > 0);
        assert(a.contains(b[i]));
        let k = choose|k: int| 0 <= k < a.len() && a[k] == b[i];
        assert(!admits(t_min, t_max, a[k]));
    }
}

} // verus!
