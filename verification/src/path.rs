//! How far a light path may go.
//!
//! A path is traced ray by ray. Each ray either strikes the scene, and the
//! surface scatters a new ray, or leaves it. The bounce budget is the only
//! bound on the length of a path: a path that has used it up ends black.

use vstd::prelude::*;

verus! {

/// Where a path stands.
#[derive(Clone, Copy, Debug, PartialEq, Eq, Structural)]
pub enum PathState {
    /// The next ray is still to be tried against the scene. `bounces_left`
    /// rays may be traced, that one included.
    Tracing { bounces_left: usize },
    /// The budget ran out before the path left the scene: it carries no light.
    Exhausted,
    /// The last ray struck nothing: the path carries the light of the sky.
    Escaped,
}

impl PathState {
    /// Whether a ray is still to be traced.
    pub open spec fn tracing(self) -> bool {
        self is Tracing
    }

    /// The state of a path before its first ray.
    pub open spec fn begin(max_bounces: usize) -> PathState {
        if max_bounces == 0 {
            PathState::Exhausted
        } else {
            PathState::Tracing { bounces_left: max_bounces }
        }
    }

    /// The state after the next ray was tried: `hit` says whether it struck
    /// the scene. A path that has ended stays as it is.
    pub open spec fn after(self, hit: bool) -> PathState {
        match self {
            PathState::Tracing { bounces_left } => if !hit {
                PathState::Escaped
            } else if bounces_left <= 1 {
                PathState::Exhausted
            } else {
                PathState::Tracing { bounces_left: (bounces_left - 1) as usize }
            },
            ended => ended,
        }
    }

    /// The state after the rays whose outcomes `hits` lists were tried in turn.
    pub open spec fn after_all(self, hits: Seq<bool>) -> PathState
        decreases hits.len(),
    {
        if hits.len() == 0 {
            self
        } else {
            self.after(hits.first()).after_all(hits.drop_first())
        }
    }

    /// The state of a path that may trace `max_bounces` rays. With none
    /// allowed the path is exhausted before it meets the scene.
    pub fn start(max_bounces: usize) -> (state: PathState)
        ensures
            state == PathState::begin(max_bounces),
            max_bounces == 0 ==> state == PathState::Exhausted,
    {
        if max_bounces == 0 {
            PathState::Exhausted
        } else {
            PathState::Tracing { bounces_left: max_bounces }
        }
    }

    /// The state after the next ray was tried against the scene.
    pub fn step(self, hit: bool) -> (next: PathState)
        ensures
            next == self.after(hit),
    {
        match self {
            PathState::Tracing { bounces_left } => {
                if !hit {
                    PathState::Escaped
                } else if bounces_left <= 1 {
                    PathState::Exhausted
                } else {
                    PathState::Tracing { bounces_left: bounces_left - 1 }
                }
            },
            ended => ended,
        }
    }

    /// Whether a ray is still to be traced.
    pub fn is_tracing(&self) -> (tracing: bool)
        ensures
            tracing == self.tracing(),
    {
        match self {
            PathState::Tracing { .. } => true,
            _ => false,
        }
    }
}

/// A path that has ended is not moved by further outcomes.
proof fn lemma_ended_stays(state: PathState, hits: Seq<bool>)
    requires
        !state.tracing(),
    ensures
        state.after_all(hits) == state,
    decreases hits.len(),
{
    if hits.len() > 0 {
        lemma_ended_stays(state, hits.drop_first());
    }
}

/// Every path ends: whatever the scene holds, once as many rays were tried
/// as the budget allows, no ray is left to trace.
pub proof fn lemma_path_ends(max_bounces: usize, hits: Seq<bool>)
    requires
        hits.len() >= max_bounces,
    ensures
        !PathState::begin(max_bounces).after_all(hits).tracing(),
    decreases max_bounces,
{
    let start = PathState::begin(max_bounces);
    if max_bounces == 0 {
        lemma_ended_stays(start, hits);
    } else {
        let next = start.after(hits.first());
        if next.tracing() {
            assert(next == PathState::begin((max_bounces - 1) as usize));
            lemma_path_ends((max_bounces - 1) as usize, hits.drop_first());
        } else {
            lemma_ended_stays(next, hits.drop_first());
        }
    }
}

/// A path ends exhausted exactly where each of its first `max_bounces` rays
/// struck the scene, and escaped exactly where one of them struck nothing.
pub proof fn lemma_exhausted_iff_all_hit(max_bounces: usize, hits: Seq<bool>)
    requires
        hits.len() >= max_bounces,
    ensures
        PathState::begin(max_bounces).after_all(hits) == PathState::Exhausted <==> forall|i: int|
            0 <= i < max_bounces ==> hits[i],
        PathState::begin(max_bounces).after_all(hits) == PathState::Escaped <==> exists|i: int|
            0 <= i < max_bounces && !hits[i],
    decreases max_bounces,
{
    let start = PathState::begin(max_bounces);
    if max_bounces == 0 {
        lemma_ended_stays(start, hits);
    } else {
        let rest = hits.drop_first();
        let next = start.after(hits.first());
        assert(forall|i: int| 0 <= i < rest.len() ==> rest[i] == hits[i + 1]);
        if next.tracing() {
            assert(next == PathState::begin((max_bounces - 1) as usize));
            lemma_exhausted_iff_all_hit((max_bounces - 1) as usize, rest);
            if exists|i: int| 0 <= i < max_bounces - 1 && !rest[i] {
                let i = choose|i: int| 0 <= i < max_bounces - 1 && !rest[i];
                assert(!hits[i + 1]);
            }
            if exists|i: int| 0 <= i < max_bounces && !hits[i] {
                let i = choose|i: int| 0 <= i < max_bounces && !hits[i];
                assert(!rest[i - 1]);
            }
            if forall|i: int| 0 <= i < max_bounces - 1 ==> rest[i] {
                assert forall|i: int| 0 <= i < max_bounces implies hits[i] by {
                    if i > 0 {
                        assert(rest[i - 1]);
                    }
                }
            }
        } else {
            lemma_ended_stays(next, rest);
            if hits.first() {
                assert(max_bounces == 1);
            } else {
                assert(!hits[0]);
            }
        }
    }
}

} // verus!
