//! Rhythm islands: runs of objects with (almost) the same delta time, as the
//! rhythm evaluator groups them.
//!
//! Closeness of two deltas is judged against an epsilon. Deltas are whole
//! milliseconds, so "the distance is below epsilon" is the same as "the
//! distance is below the smallest integer not less than epsilon"; that integer
//! is what the functions here take, under the name `epsilon_bound`.

use vstd::prelude::*;

verus! {

/// The smallest delta an island records.
pub const MIN_ISLAND_DELTA: i32 = 25;

/// A run of objects of similar delta time.
#[derive(Clone, Copy, Debug)]
pub struct RhythmIsland {
    delta: i32,
    delta_count: i32,
    occurrences: i32,
}

/// The rhythm evaluator. Its per-object scoring works on floating-point
/// timings; what it decides about islands is below.
pub struct RhythmEvaluator;

impl RhythmIsland {
    #[verifier::type_invariant]
    spec fn valid(self) -> bool {
        &&& self.delta >= MIN_ISLAND_DELTA
        &&& self.delta_count >= 1
        &&& self.occurrences >= 1
    }

    /// The island's delta; `i32::MAX` marks an island that has none yet.
    pub closed spec fn spec_delta(self) -> i32 {
        self.delta
    }

    /// How many deltas the island holds.
    pub closed spec fn spec_delta_count(self) -> i32 {
        self.delta_count
    }

    /// How often an island like this one has been seen.
    pub closed spec fn spec_occurrences(self) -> i32 {
        self.occurrences
    }

    /// An island of one delta, `delta` raised to at least 25.
    pub fn new(delta: i32) -> (island: Self)
        ensures
            island.spec_delta() == raised(delta),
            delta >= 25 ==> island.spec_delta() == delta,
            delta < 25 ==> island.spec_delta() == 25,
            island.spec_delta_count() == 1,
            island.spec_occurrences() == 1,
    {
        let d = if delta < MIN_ISLAND_DELTA {
            MIN_ISLAND_DELTA
        } else {
            delta
        };
        RhythmIsland { delta: d, delta_count: 1, occurrences: 1 }
    }

    /// Adds one delta to the island. An island without a delta takes this
    /// one, raised to at least 25; an island with a delta keeps it.
    pub fn add_delta(&mut self, delta: i32)
        requires
            old(self).spec_delta_count() < i32::MAX,
        ensures
            final(self).spec_delta() == (if old(self).spec_delta() == i32::MAX {
                raised(delta)
            } else {
                old(self).spec_delta()
            }),
            old(self).spec_delta() == i32::MAX && delta >= 25 ==> final(self).spec_delta() == delta,
            old(self).spec_delta() == i32::MAX && delta < 25 ==> final(self).spec_delta() == 25,
            final(self).spec_delta_count() == old(self).spec_delta_count() + 1,
            final(self).spec_occurrences() == old(self).spec_occurrences(),
    {
        proof {
            use_type_invariant(&*self);
        }
        if self.delta == i32::MAX {
            self.delta = if delta < MIN_ISLAND_DELTA {
                MIN_ISLAND_DELTA
            } else {
                delta
            };
        }
        self.delta_count = self.delta_count + 1;
    }

    /// Counts one more occurrence of the island.
    fn add_occurrence(&mut self)
        requires
            old(self).spec_occurrences() < i32::MAX,
        ensures
            final(self).spec_delta() == old(self).spec_delta(),
            final(self).spec_delta_count() == old(self).spec_delta_count(),
            final(self).spec_occurrences() == old(self).spec_occurrences() + 1,
    {
        proof {
            use_type_invariant(&*self);
        }
        self.occurrences = self.occurrences + 1;
    }

    /// The island's delta.
    pub fn delta(&self) -> (d: i32)
        ensures
            d == self.spec_delta(),
            d >= MIN_ISLAND_DELTA,
    {
        proof {
            use_type_invariant(self);
        }
        self.delta
    }

    /// How many deltas the island holds.
    pub fn delta_count(&self) -> (c: i32)
        ensures
            c == self.spec_delta_count(),
            c >= 1,
    {
        proof {
            use_type_invariant(self);
        }
        self.delta_count
    }

    /// How often an island like this one has been seen.
    pub fn occurrences(&self) -> (c: i32)
        ensures
            c == self.spec_occurrences(),
            c >= 1,
    {
        proof {
            use_type_invariant(self);
        }
        self.occurrences
    }

    /// Whether two islands alternate in the same way: both hold more than one
    /// delta, their deltas are closer than `epsilon_bound`, and their counts
    /// have the same parity.
    pub fn is_similar_polarity(&self, other: &Self, epsilon_bound: i64) -> (r: bool)
        ensures
            r == similar_polarity(*self, *other, epsilon_bound),
            r <==> (self.spec_delta_count() > 1 && other.spec_delta_count() > 1 && -epsilon_bound
                < self.spec_delta() - other.spec_delta() < epsilon_bound && self.spec_delta_count()
                % 2 == other.spec_delta_count() % 2),
    {
        proof {
            use_type_invariant(self);
            use_type_invariant(other);
        }
        if self.delta_count <= 1 || other.delta_count <= 1 {
            return false;
        }
        let diff: i64 = (self.delta as i64) - (other.delta as i64);
        let dist: i64 = if diff < 0 {
            -diff
        } else {
            diff
        };
        if dist < epsilon_bound {
            return self.delta_count % 2 == other.delta_count % 2;
        }
        false
    }

    /// Whether two islands are the same up to epsilon: their deltas are closer
    /// than `epsilon_bound` and they hold equally many deltas.
    pub fn almost_equals(&self, other: &Self, epsilon_bound: i64) -> (r: bool)
        ensures
            r == almost_equal(*self, *other, epsilon_bound),
            r <==> (-epsilon_bound < self.spec_delta() - other.spec_delta() < epsilon_bound
                && self.spec_delta_count() == other.spec_delta_count()),
    {
        proof {
            use_type_invariant(self);
            use_type_invariant(other);
        }
        let diff: i64 = (self.delta as i64) - (other.delta as i64);
        let dist: i64 = if diff < 0 {
            -diff
        } else {
            diff
        };
        if dist < epsilon_bound {
            return self.delta_count == other.delta_count;
        }
        false
    }
}

impl RhythmEvaluator {
    /// Looks `island` up among the islands seen so far.
    ///
    /// The first island of `list` that is almost equal to `island` is the
    /// match. If there is one, it counts one more occurrence when `previous`
    /// is almost equal to `island` too, and its occurrence count is returned.
    /// If there is none, `island` is appended to `list` (it holds at least one
    /// delta) and `None` is returned.
    pub fn record_island(
        list: &mut Vec<RhythmIsland>,
        island: &RhythmIsland,
        previous: &RhythmIsland,
        epsilon_bound: i64,
    ) -> (r: Option<i32>)
        requires
            can_record(old(list)@, *island, *previous, epsilon_bound),
        ensures
            island_recorded(old(list)@, final(list)@, *island, *previous, epsilon_bound, r),
    {
        let n = list.len();
        let also_previous = previous.almost_equals(island, epsilon_bound);
        let mut i: usize = 0;
        while i < n
            invariant
                n == list@.len(),
                list@ == old(list)@,
                0 <= i <= n,
                also_previous == almost_equal(*previous, *island, epsilon_bound),
                forall|k: int| 0 <= k < i ==> !almost_equal(#[trigger] list@[k], *island, epsilon_bound),
                forall|j: int|
                    is_first_match(old(list)@, j, *island, epsilon_bound) && almost_equal(
                        *previous,
                        *island,
                        epsilon_bound,
                    ) ==> #[trigger] old(list)@[j].spec_occurrences() < i32::MAX,
            decreases n - i,
        {
            if list[i].almost_equals(island, epsilon_bound) {
                assert(is_first_match(old(list)@, i as int, *island, epsilon_bound));
                let mut item = list[i];
                if also_previous {
                    item.add_occurrence();
                }
                list.set(i, item);
                let occ = item.occurrences();
                proof {
                    assert forall|j: int| #[trigger]
                        is_first_match(old(list)@, j, *island, epsilon_bound) implies j == i by {
                        if j < i {
                        } else if j > i {
                            assert(!almost_equal(old(list)@[i as int], *island, epsilon_bound));
                        }
                    }
                }
                return Some(occ);
            }
            i = i + 1;
        }
        if island.delta_count() > 0 {
            list.push(*island);
        }
        None
    }
}

/// Recording `island` cannot overflow an occurrence count.
pub open spec fn can_record(
    list: Seq<RhythmIsland>,
    island: RhythmIsland,
    previous: RhythmIsland,
    epsilon_bound: i64,
) -> bool {
    forall|j: int|
        is_first_match(list, j, island, epsilon_bound) && almost_equal(previous, island, epsilon_bound)
            ==> #[trigger] list[j].spec_occurrences() < i32::MAX
}

/// What recording `island` does to the islands seen so far (`before`, then
/// `after`) and what it returns (`r`); see [`RhythmEvaluator::record_island`].
pub open spec fn island_recorded(
    before: Seq<RhythmIsland>,
    after: Seq<RhythmIsland>,
    island: RhythmIsland,
    previous: RhythmIsland,
    epsilon_bound: i64,
    r: Option<i32>,
) -> bool {
    &&& r is None <==> (forall|j: int|
        0 <= j < before.len() ==> !almost_equal(#[trigger] before[j], island, epsilon_bound))
    &&& r is None ==> after == before.push(island)
    &&& forall|j: int|
        #[trigger] is_first_match(before, j, island, epsilon_bound) ==> {
            &&& after.len() == before.len()
            &&& after[j].spec_delta() == before[j].spec_delta()
            &&& after[j].spec_delta_count() == before[j].spec_delta_count()
            &&& after[j].spec_occurrences() == before[j].spec_occurrences() + (if almost_equal(
                previous,
                island,
                epsilon_bound,
            ) {
                1int
            } else {
                0int
            })
            &&& forall|k: int| 0 <= k < before.len() && k != j ==> after[k] == before[k]
            &&& r == Some(after[j].spec_occurrences())
        }
}

/// `j` is the first index of `list` whose island is almost equal to `island`.
pub open spec fn is_first_match(
    list: Seq<RhythmIsland>,
    j: int,
    island: RhythmIsland,
    epsilon_bound: i64,
) -> bool {
    &&& 0 <= j < list.len()
    &&& almost_equal(list[j], island, epsilon_bound)
    &&& forall|k: int| 0 <= k < j ==> !almost_equal(#[trigger] list[k], island, epsilon_bound)
}

/// `delta` raised to at least 25, as an island records it.
pub open spec fn raised(delta: i32) -> i32 {
    if delta < MIN_ISLAND_DELTA {
        MIN_ISLAND_DELTA
    } else {
        delta
    }
}

/// A fresh island of `delta`: the delta raised to at least 25, one delta, seen once.
pub open spec fn is_fresh_island(island: RhythmIsland, delta: i32) -> bool {
    &&& island.spec_delta() == raised(delta)
    &&& island.spec_delta_count() == 1
    &&& island.spec_occurrences() == 1
}

/// The current island once a step of delta `delta` has been taken into it:
/// an island without a delta starts afresh with this one, and a delta close
/// to the last one joins the island.
pub closed spec fn prepared_island(island: RhythmIsland, delta: i32, close: bool) -> RhythmIsland {
    let unset = island.delta == i32::MAX;
    let count = if unset {
        1int
    } else {
        island.delta_count as int
    };
    RhythmIsland {
        delta: if unset {
            raised(delta)
        } else {
            island.delta
        },
        delta_count: (if close {
            count + 1
        } else {
            count
        }) as i32,
        occurrences: if unset {
            1
        } else {
            island.occurrences
        },
    }
}

/// The fields of [`prepared_island`].
pub proof fn prepared_island_fields(island: RhythmIsland, delta: i32, close: bool)
    ensures
        prepared_island(island, delta, close).spec_delta() == (if island.spec_delta() == i32::MAX {
            raised(delta)
        } else {
            island.spec_delta()
        }),
        prepared_island(island, delta, close).spec_delta_count() == ((if island.spec_delta()
            == i32::MAX {
            1int
        } else {
            island.spec_delta_count() as int
        }) + if close {
            1int
        } else {
            0int
        }) as i32,
        prepared_island(island, delta, close).spec_occurrences() == (if island.spec_delta()
            == i32::MAX {
            1
        } else {
            island.spec_occurrences()
        }),
{
}

/// No two of the islands are almost equal.
pub open spec fn pairwise_apart(s: Seq<RhythmIsland>, epsilon_bound: i64) -> bool {
    forall|i: int, j: int|
        0 <= i < s.len() && 0 <= j < s.len() && i != j ==> !almost_equal(
            #[trigger] s[i],
            #[trigger] s[j],
            epsilon_bound,
        )
}

/// Recording an island keeps the islands seen so far pairwise apart.
pub proof fn recording_keeps_islands_apart(
    before: Seq<RhythmIsland>,
    after: Seq<RhythmIsland>,
    island: RhythmIsland,
    previous: RhythmIsland,
    epsilon_bound: i64,
    r: Option<i32>,
)
    requires
        pairwise_apart(before, epsilon_bound),
        island_recorded(before, after, island, previous, epsilon_bound, r),
    ensures
        pairwise_apart(after, epsilon_bound),
{
    if r is None {
        assert forall|i: int, j: int|
            0 <= i < after.len() && 0 <= j < after.len() && i != j implies !almost_equal(
                #[trigger] after[i],
                #[trigger] after[j],
                epsilon_bound,
            ) by {
            if i == before.len() {
                assert(!almost_equal(before[j], island, epsilon_bound));
            } else if j == before.len() {
                assert(!almost_equal(before[i], island, epsilon_bound));
            } else {
                assert(after[i] == before[i] && after[j] == before[j]);
            }
        }
    } else {
        let w = choose|j: int| 0 <= j < before.len() && almost_equal(before[j], island, epsilon_bound);
        let f = first_match_exists(before, island, epsilon_bound, w);
        assert forall|i: int, j: int|
            0 <= i < after.len() && 0 <= j < after.len() && i != j implies !almost_equal(
                #[trigger] after[i],
                #[trigger] after[j],
                epsilon_bound,
            ) by {
            assert(!almost_equal(before[i], before[j], epsilon_bound));
        }
    }
}

/// If some island of `list` is almost equal to `island`, a first one is.
pub proof fn first_match_exists(list: Seq<RhythmIsland>, island: RhythmIsland, epsilon_bound: i64, w: int) -> (f: int)
    requires
        0 <= w < list.len(),
        almost_equal(list[w], island, epsilon_bound),
    ensures
        is_first_match(list, f, island, epsilon_bound),
    decreases w,
{
    if forall|k: int| 0 <= k < w ==> !almost_equal(#[trigger] list[k], island, epsilon_bound) {
        w
    } else {
        let v = choose|k: int| 0 <= k < w && !!almost_equal(#[trigger] list[k], island, epsilon_bound);
        first_match_exists(list, island, epsilon_bound, v)
    }
}

/// What the rhythm evaluator learns about one earlier object. `delta` is its
/// delta time in whole milliseconds; the four flags compare it with the delta
/// of the object after it, against epsilon:
/// `close` (they differ by less than epsilon), `apart` (by more than epsilon),
/// `slowed` (the later delta exceeds this one by more than epsilon) and
/// `sped_up` (this delta exceeds the later one by more than epsilon).
#[derive(Clone, Copy, Debug)]
pub struct RhythmStep {
    pub delta: i32,
    pub close: bool,
    pub apart: bool,
    pub slowed: bool,
    pub sped_up: bool,
}

/// What a step did.
#[derive(Clone, Copy, Debug, PartialEq, Eq)]
pub enum RhythmOutcome {
    /// The step joined or left the current island; nothing more.
    Continued,
    /// The rhythm changed: a new island starts with this step, and from now
    /// on islands are closed and compared.
    Started,
    /// The current island was closed and a new one starts with this step.
    /// `similar_polarity` and `same_count` compare the closed island with the
    /// one closed before it, `occurrences` is what recording it among the
    /// islands seen so far returned, and `delta` and `delta_count` are its own.
    Closed {
        similar_polarity: bool,
        same_count: bool,
        occurrences: Option<i32>,
        delta: i32,
        delta_count: i32,
    },
}

/// The islands of one rhythm evaluation: the current one, the one closed
/// before it, every distinct island closed so far, and whether islands are
/// being closed yet.
pub struct RhythmState {
    island: RhythmIsland,
    previous_island: RhythmIsland,
    islands: Vec<RhythmIsland>,
    changing: bool,
    epsilon_bound: i64,
}

impl RhythmState {
    #[verifier::type_invariant]
    spec fn valid(self) -> bool {
        pairwise_apart(self.islands@, self.epsilon_bound)
    }

    /// The current island.
    pub closed spec fn spec_island(self) -> RhythmIsland {
        self.island
    }

    /// The island closed last.
    pub closed spec fn spec_previous_island(self) -> RhythmIsland {
        self.previous_island
    }

    /// The distinct islands closed so far.
    pub closed spec fn spec_islands(self) -> Seq<RhythmIsland> {
        self.islands@
    }

    /// Whether islands are being closed yet.
    pub closed spec fn spec_changing(self) -> bool {
        self.changing
    }

    /// The bound deltas must stay below to count as close.
    pub closed spec fn spec_epsilon_bound(self) -> i64 {
        self.epsilon_bound
    }

    /// The islands before the first step: none set, none closed.
    pub fn new(epsilon_bound: i64) -> (r: Self)
        ensures
            r.spec_island().spec_delta() == i32::MAX,
            r.spec_island().spec_delta_count() == 1,
            r.spec_island().spec_occurrences() == 1,
            r.spec_previous_island().spec_delta() == i32::MAX,
            r.spec_previous_island().spec_delta_count() == 1,
            r.spec_previous_island().spec_occurrences() == 1,
            r.spec_islands() == Seq::<RhythmIsland>::empty(),
            !r.spec_changing(),
            r.spec_epsilon_bound() == epsilon_bound,
    {
        RhythmState {
            island: RhythmIsland::default(),
            previous_island: RhythmIsland::default(),
            islands: Vec::new(),
            changing: false,
            epsilon_bound,
        }
    }

    /// The current island.
    pub fn island(&self) -> (r: RhythmIsland)
        ensures
            r == self.spec_island(),
    {
        self.island
    }

    /// The distinct islands closed so far; no two are almost equal.
    pub fn islands(&self) -> (r: &[RhythmIsland])
        ensures
            r@ == self.spec_islands(),
            pairwise_apart(r@, self.spec_epsilon_bound()),
    {
        proof {
            use_type_invariant(self);
        }
        self.islands.as_slice()
    }

    /// Takes one earlier object into the islands.
    ///
    /// The current island first takes the step in (see [`prepared_island`]).
    /// Once the rhythm has changed, a step `apart` from the next closes the
    /// current island: it is compared with the island closed before, recorded
    /// among the islands seen so far, becomes the island closed last, and a
    /// fresh island of this step takes its place; a step that `sped_up` stops
    /// the closing. Before the rhythm has changed, a step that `slowed` starts
    /// a fresh island and the closing.
    pub fn step(&mut self, input: RhythmStep) -> (outcome: RhythmOutcome)
        requires
            input.close && old(self).spec_island().spec_delta() != i32::MAX ==> old(
                self,
            ).spec_island().spec_delta_count() < i32::MAX,
            old(self).spec_changing() && input.apart ==> can_record(
                old(self).spec_islands(),
                prepared_island(old(self).spec_island(), input.delta, input.close),
                old(self).spec_previous_island(),
                old(self).spec_epsilon_bound(),
            ),
        ensures
            final(self).spec_epsilon_bound() == old(self).spec_epsilon_bound(),
            old(self).spec_changing() && input.apart ==> {
                let p = prepared_island(old(self).spec_island(), input.delta, input.close);
                let prev = old(self).spec_previous_island();
                let eps = old(self).spec_epsilon_bound();
                &&& outcome matches RhythmOutcome::Closed {
                    similar_polarity,
                    same_count,
                    occurrences,
                    delta,
                    delta_count,
                } && similar_polarity == crate::osu::difficulty::evaluators::rhythm::similar_polarity(p, prev, eps)
                    && same_count == (prev.spec_delta_count() == p.spec_delta_count())
                    && delta == p.spec_delta() && delta_count == p.spec_delta_count()
                    && island_recorded(
                    old(self).spec_islands(),
                    final(self).spec_islands(),
                    p,
                    prev,
                    eps,
                    occurrences,
                )
                &&& final(self).spec_previous_island() == p
                &&& is_fresh_island(final(self).spec_island(), input.delta)
                &&& final(self).spec_changing() == !input.sped_up
            },
            old(self).spec_changing() && !input.apart ==> {
                &&& outcome == RhythmOutcome::Continued
                &&& final(self).spec_island() == prepared_island(
                    old(self).spec_island(),
                    input.delta,
                    input.close,
                )
                &&& final(self).spec_previous_island() == old(self).spec_previous_island()
                &&& final(self).spec_islands() == old(self).spec_islands()
                &&& final(self).spec_changing()
            },
            !old(self).spec_changing() && input.slowed ==> {
                &&& outcome == RhythmOutcome::Started
                &&& is_fresh_island(final(self).spec_island(), input.delta)
                &&& final(self).spec_previous_island() == old(self).spec_previous_island()
                &&& final(self).spec_islands() == old(self).spec_islands()
                &&& final(self).spec_changing()
            },
            !old(self).spec_changing() && !input.slowed ==> {
                &&& outcome == RhythmOutcome::Continued
                &&& final(self).spec_island() == prepared_island(
                    old(self).spec_island(),
                    input.delta,
                    input.close,
                )
                &&& final(self).spec_previous_island() == old(self).spec_previous_island()
                &&& final(self).spec_islands() == old(self).spec_islands()
                &&& !final(self).spec_changing()
            },
    {
        proof {
            use_type_invariant(&*self);
        }
        let eps = self.epsilon_bound;
        let mut island = self.island;
        if island.delta() == i32::MAX {
            island = RhythmIsland::new(input.delta);
        }
        if input.close {
            island.add_delta(input.delta);
        }
        proof {
            prepared_island_fields(self.island, input.delta, input.close);
            use_type_invariant(&island);
            assert(island == prepared_island(self.island, input.delta, input.close));
        }
        if self.changing {
            if input.apart {
                let previous = self.previous_island;
                let similar = island.is_similar_polarity(&previous, eps);
                let same_count = previous.delta_count() == island.delta_count();
                let ghost before = self.islands@;
                let mut islands = Vec::new();
                std::mem::swap(&mut islands, &mut self.islands);
                let occurrences = RhythmEvaluator::record_island(&mut islands, &island, &previous, eps);
                proof {
                    recording_keeps_islands_apart(before, islands@, island, previous, eps, occurrences);
                }
                let changing = !input.sped_up;
                let fresh = RhythmIsland::new(input.delta);
                *self = RhythmState {
                    island: fresh,
                    previous_island: island,
                    islands,
                    changing,
                    epsilon_bound: eps,
                };
                RhythmOutcome::Closed {
                    similar_polarity: similar,
                    same_count,
                    occurrences,
                    delta: island.delta(),
                    delta_count: island.delta_count(),
                }
            } else {
                self.island = island;
                RhythmOutcome::Continued
            }
        } else if input.slowed {
            self.changing = true;
            self.island = RhythmIsland::new(input.delta);
            RhythmOutcome::Started
        } else {
            self.island = island;
            RhythmOutcome::Continued
        }
    }
}

impl Default for RhythmIsland {
    /// An island without a delta: delta `i32::MAX`, one delta, seen once.
    fn default() -> (island: Self)
        ensures
            island.spec_delta() == i32::MAX,
            island.spec_delta_count() == 1,
            island.spec_occurrences() == 1,
    {
        RhythmIsland { delta: i32::MAX, delta_count: 1, occurrences: 1 }
    }
}

/// The distance between the deltas of two islands.
pub open spec fn delta_distance(a: RhythmIsland, b: RhythmIsland) -> int {
    let d = a.spec_delta() - b.spec_delta();
    if d < 0 {
        -d
    } else {
        d
    }
}

/// See [`RhythmIsland::almost_equals`].
pub open spec fn almost_equal(a: RhythmIsland, b: RhythmIsland, epsilon_bound: i64) -> bool {
    delta_distance(a, b) < epsilon_bound && a.spec_delta_count() == b.spec_delta_count()
}

/// See [`RhythmIsland::is_similar_polarity`].
pub open spec fn similar_polarity(a: RhythmIsland, b: RhythmIsland, epsilon_bound: i64) -> bool {
    &&& a.spec_delta_count() > 1
    &&& b.spec_delta_count() > 1
    &&& delta_distance(a, b) < epsilon_bound
    &&& a.spec_delta_count() % 2 == b.spec_delta_count() % 2
}

/// Being almost equal and being of similar polarity are both symmetric; an
/// island is almost equal to itself whenever the bound is positive.
pub proof fn island_relations_symmetric(a: RhythmIsland, b: RhythmIsland, epsilon_bound: i64)
    ensures
        almost_equal(a, b, epsilon_bound) == almost_equal(b, a, epsilon_bound),
        similar_polarity(a, b, epsilon_bound) == similar_polarity(b, a, epsilon_bound),
        epsilon_bound > 0 ==> almost_equal(a, a, epsilon_bound),
{
}

/// A delta of at least 25 ms is kept as it is; a smaller one becomes 25 ms.
pub proof fn raising_keeps_deltas_from_25(delta: i32)
    ensures
        delta >= 25 ==> raised(delta) == delta,
        delta < 25 ==> raised(delta) == 25,
        raised(delta) >= delta,
        raised(delta) >= 25,
{
}

/// Two islands are almost equal exactly when their deltas differ by less than
/// the bound and they hold the same number of deltas; in particular islands of
/// different delta counts are never almost equal.
pub proof fn almost_equal_means_same_count(a: RhythmIsland, b: RhythmIsland, epsilon_bound: i64)
    ensures
        almost_equal(a, b, epsilon_bound) <==> (-epsilon_bound < a.spec_delta() - b.spec_delta()
            < epsilon_bound && a.spec_delta_count() == b.spec_delta_count()),
        almost_equal(a, b, epsilon_bound) ==> a.spec_delta_count() == b.spec_delta_count(),
{
}

/// Two islands that both hold more than one delta, with deltas closer than the
/// bound, are of similar polarity exactly when their delta counts have the same
/// parity (counts 2 and 4 are, counts 2 and 3 are not); islands holding a single
/// delta, or with deltas too far apart, never are.
pub proof fn similar_polarity_is_parity(a: RhythmIsland, b: RhythmIsland, epsilon_bound: i64)
    ensures
        a.spec_delta_count() > 1 && b.spec_delta_count() > 1 && -epsilon_bound < a.spec_delta()
            - b.spec_delta() < epsilon_bound ==> (similar_polarity(a, b, epsilon_bound) <==> a.spec_delta_count()
            % 2 == b.spec_delta_count() % 2),
        a.spec_delta_count() <= 1 || b.spec_delta_count() <= 1 ==> !similar_polarity(a, b, epsilon_bound),
        !(-epsilon_bound < a.spec_delta() - b.spec_delta() < epsilon_bound) ==> !similar_polarity(
            a,
            b,
            epsilon_bound,
        ),
{
}

} // verus!
