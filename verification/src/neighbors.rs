//! Neighbour search: which other agents lie within an agent's ranges.
//!
//! Distances and ranges are handed in as ordered keys: unsigned integers that
//! compare as the measured lengths do, with key zero standing for length zero.

use vstd::prelude::*;

verus! {

/// The three flocking behaviours, each with a neighbourhood of its own.
#[derive(Clone, Copy, Debug, PartialEq, Eq, Structural)]
pub enum Behavior {
    Cohesion,
    Alignment,
    Separation,
}

/// An agent's three range radii, as ordered keys.
#[derive(Clone, Copy, Debug, PartialEq, Eq, Structural)]
pub struct Ranges {
    pub cohesion: u32,
    pub alignment: u32,
    pub separation: u32,
}

/// The neighbours of one agent, as indices into the population, ascending.
#[derive(Debug)]
pub struct Neighbors {
    pub cohesion: Vec<usize>,
    pub alignment: Vec<usize>,
    pub separation: Vec<usize>,
}

/// The radius that `ranges` gives to `behavior`.
pub open spec fn radius(behavior: Behavior, ranges: Ranges) -> u32 {
    match behavior {
        Behavior::Cohesion => ranges.cohesion,
        Behavior::Alignment => ranges.alignment,
        Behavior::Separation => ranges.separation,
    }
}

/// Whether the agent `other`, at `distance` from the agent `me`, is a
/// neighbour of `me` for `behavior`: never `me` itself, within the radius
/// (the radius included), and for separation not at distance zero.
pub open spec fn is_neighbor(
    behavior: Behavior,
    me: int,
    other: int,
    distance: u32,
    ranges: Ranges,
) -> bool {
    &&& other != me
    &&& distance <= radius(behavior, ranges)
    &&& behavior == Behavior::Separation ==> 0 < distance
}

/// `list` names, in ascending order and once each, exactly those agents below
/// `upto` that are neighbours of `me` for `behavior`.
pub open spec fn lists_neighbors(
    list: Seq<usize>,
    behavior: Behavior,
    me: int,
    distances: Seq<u32>,
    ranges: Ranges,
    upto: int,
) -> bool {
    &&& forall|a: int, b: int| 0 <= a < b < list.len() ==> list[a] < list[b]
    &&& forall|a: int|
        0 <= a < list.len() ==> (#[trigger] list[a]) < upto && is_neighbor(
            behavior,
            me,
            list[a] as int,
            distances[list[a] as int],
            ranges,
        )
    &&& forall|j: int|
        0 <= j < upto && is_neighbor(behavior, me, j, #[trigger] distances[j], ranges)
            ==> list.contains(j as usize)
}

/// Decides one membership question.
pub fn neighbor_test(
    behavior: Behavior,
    me: usize,
    other: usize,
    distance: u32,
    ranges: &Ranges,
) -> (within: bool)
    ensures
        within == is_neighbor(behavior, me as int, other as int, distance, *ranges),
{
    if other == me {
        return false;
    }
    match behavior {
        Behavior::Cohesion => distance <= ranges.cohesion,
        Behavior::Alignment => distance <= ranges.alignment,
        Behavior::Separation => 0 < distance && distance <= ranges.separation,
    }
}

/// Scans the whole population once for the agent `me`, where `distances[j]`
/// is the planar distance from `me` to agent `j`, and sorts every other agent
/// into the three neighbourhoods.
pub fn find_neighbors(me: usize, distances: &Vec<u32>, ranges: &Ranges) -> (found: Neighbors)
    ensures
        lists_neighbors(
            found.cohesion@,
            Behavior::Cohesion,
            me as int,
            distances@,
            *ranges,
            distances@.len() as int,
        ),
        lists_neighbors(
            found.alignment@,
            Behavior::Alignment,
            me as int,
            distances@,
            *ranges,
            distances@.len() as int,
        ),
        lists_neighbors(
            found.separation@,
            Behavior::Separation,
            me as int,
            distances@,
            *ranges,
            distances@.len() as int,
        ),
{
    let mut cohesion: Vec<usize> = Vec::new();
    let mut alignment: Vec<usize> = Vec::new();
    let mut separation: Vec<usize> = Vec::new();
    let mut other: usize = 0;
    while other < distances.len()
        invariant
            other <= distances@.len(),
            lists_neighbors(
                cohesion@,
                Behavior::Cohesion,
                me as int,
                distances@,
                *ranges,
                other as int,
            ),
            lists_neighbors(
                alignment@,
                Behavior::Alignment,
                me as int,
                distances@,
                *ranges,
                other as int,
            ),
            lists_neighbors(
                separation@,
                Behavior::Separation,
                me as int,
                distances@,
                *ranges,
                other as int,
            ),
        decreases distances@.len() - other,
    {
        let distance: u32 = distances[other];
        let ghost before_cohesion = cohesion@;
        let ghost before_alignment = alignment@;
        let ghost before_separation = separation@;
        if neighbor_test(Behavior::Cohesion, me, other, distance, ranges) {
            cohesion.push(other);
        }
        if neighbor_test(Behavior::Alignment, me, other, distance, ranges) {
            alignment.push(other);
        }
        if neighbor_test(Behavior::Separation, me, other, distance, ranges) {
            separation.push(other);
        }
        proof {
            lemma_scan_step(
                before_cohesion,
                cohesion@,
                Behavior::Cohesion,
                me as int,
                distances@,
                *ranges,
                other as int,
            );
            lemma_scan_step(
                before_alignment,
                alignment@,
                Behavior::Alignment,
                me as int,
                distances@,
                *ranges,
                other as int,
            );
            lemma_scan_step(
                before_separation,
                separation@,
                Behavior::Separation,
                me as int,
                distances@,
                *ranges,
                other as int,
            );
        }
        other = other + 1;
    }
    Neighbors { cohesion, alignment, separation }
}

/// What one agent brings to the search: its ranges, and its planar distance
/// to every agent of the population, by index.
#[derive(Debug)]
pub struct Outlook {
    pub ranges: Ranges,
    pub distances: Vec<u32>,
}

/// `found` holds the three neighbourhoods of the agent `me` with `outlook`.
pub open spec fn is_neighborhood(found: Neighbors, me: int, outlook: Outlook) -> bool {
    &&& lists_neighbors(
        found.cohesion@,
        Behavior::Cohesion,
        me,
        outlook.distances@,
        outlook.ranges,
        outlook.distances@.len() as int,
    )
    &&& lists_neighbors(
        found.alignment@,
        Behavior::Alignment,
        me,
        outlook.distances@,
        outlook.ranges,
        outlook.distances@.len() as int,
    )
    &&& lists_neighbors(
        found.separation@,
        Behavior::Separation,
        me,
        outlook.distances@,
        outlook.ranges,
        outlook.distances@.len() as int,
    )
}

/// The search for the whole population, from one snapshot of it: agent `i`
/// gets the neighbourhoods that its own outlook gives it.
pub fn find_all_neighbors(outlooks: &Vec<Outlook>) -> (all: Vec<Neighbors>)
    ensures
        all@.len() == outlooks@.len(),
        forall|i: int| 0 <= i < all@.len() ==> is_neighborhood(#[trigger] all@[i], i, outlooks@[i]),
{
    let mut all: Vec<Neighbors> = Vec::new();
    let mut me: usize = 0;
    while me < outlooks.len()
        invariant
            me <= outlooks@.len(),
            all@.len() == me,
            forall|i: int| 0 <= i < me ==> is_neighborhood(#[trigger] all@[i], i, outlooks@[i]),
        decreases outlooks@.len() - me,
    {
        let found = find_neighbors(me, &outlooks[me].distances, &outlooks[me].ranges);
        all.push(found);
        me = me + 1;
    }
    all
}

/// One step of the scan keeps the list exact: the agent `next` is appended
/// if and only if it is a neighbour.
proof fn lemma_scan_step(
    before: Seq<usize>,
    after: Seq<usize>,
    behavior: Behavior,
    me: int,
    distances: Seq<u32>,
    ranges: Ranges,
    next: int,
)
    requires
        0 <= next < distances.len(),
        next <= usize::MAX,
        lists_neighbors(before, behavior, me, distances, ranges, next),
        after == if is_neighbor(behavior, me, next, distances[next], ranges) {
            before.push(next as usize)
        } else {
            before
        },
    ensures
        lists_neighbors(after, behavior, me, distances, ranges, next + 1),
{
    assert forall|a: int| 0 <= a < after.len() implies (#[trigger] after[a]) < next + 1
        && is_neighbor(behavior, me, after[a] as int, distances[after[a] as int], ranges) by {
        if a < before.len() {
            assert(after[a] == before[a]);
        }
    }
    assert forall|a: int, b: int| 0 <= a < b < after.len() implies after[a] < after[b] by {
        assert(after[a] == before[a]);
        if b < before.len() {
            assert(after[b] == before[b]);
        }
    }
    assert forall|j: int|
        0 <= j < next + 1 && is_neighbor(
            behavior,
            me,
            j,
            #[trigger] distances[j],
            ranges,
        ) implies after.contains(j as usize) by {
        if j < next {
            let a = choose|a: int| 0 <= a < before.len() && before[a] == j as usize;
            assert(after[a] == j as usize);
        } else {
            assert(after[after.len() - 1] == next as usize);
        }
    }
}

/// Membership is symmetric: where two agents see the same distance between
/// them and have the same radius for a behaviour, each is a neighbour of the
/// other or neither is. What each collects differs: the other's index.
pub proof fn lemma_membership_symmetric(
    behavior: Behavior,
    first: int,
    second: int,
    distance: u32,
    ranges_first: Ranges,
    ranges_second: Ranges,
)
    requires
        radius(behavior, ranges_first) == radius(behavior, ranges_second),
    ensures
        is_neighbor(behavior, first, second, distance, ranges_first) == is_neighbor(
            behavior,
            second,
            first,
            distance,
            ranges_second,
        ),
{
}

/// The same on the lists that a search gives: where two agents see the same
/// distance between them and have the same radius, each is on the other's
/// list or neither is.
pub proof fn lemma_lists_are_mutual(
    behavior: Behavior,
    first: int,
    second: int,
    list_first: Seq<usize>,
    list_second: Seq<usize>,
    distances_first: Seq<u32>,
    distances_second: Seq<u32>,
    ranges_first: Ranges,
    ranges_second: Ranges,
)
    requires
        0 <= first < distances_second.len(),
        0 <= second < distances_first.len(),
        first <= usize::MAX,
        second <= usize::MAX,
        distances_first[second] == distances_second[first],
        radius(behavior, ranges_first) == radius(behavior, ranges_second),
        lists_neighbors(
            list_first,
            behavior,
            first,
            distances_first,
            ranges_first,
            distances_first.len() as int,
        ),
        lists_neighbors(
            list_second,
            behavior,
            second,
            distances_second,
            ranges_second,
            distances_second.len() as int,
        ),
    ensures
        list_first.contains(second as usize) == list_second.contains(first as usize),
{
    lemma_listed_iff_neighbor(
        list_first,
        behavior,
        first,
        distances_first,
        ranges_first,
        second,
    );
    lemma_listed_iff_neighbor(
        list_second,
        behavior,
        second,
        distances_second,
        ranges_second,
        first,
    );
}

/// An agent of the population is on a list exactly if it is a neighbour.
pub proof fn lemma_listed_iff_neighbor(
    list: Seq<usize>,
    behavior: Behavior,
    me: int,
    distances: Seq<u32>,
    ranges: Ranges,
    other: int,
)
    requires
        0 <= other < distances.len(),
        other <= usize::MAX,
        lists_neighbors(list, behavior, me, distances, ranges, distances.len() as int),
    ensures
        list.contains(other as usize) == is_neighbor(
            behavior,
            me,
            other,
            distances[other],
            ranges,
        ),
{
    if list.contains(other as usize) {
        let a = choose|a: int| 0 <= a < list.len() && list[a] == other as usize;
        assert(is_neighbor(behavior, me, list[a] as int, distances[list[a] as int], ranges));
    }
}

/// An agent exactly at the radius is a neighbour, also for separation as
/// long as that radius is not zero.
pub proof fn lemma_radius_is_included(behavior: Behavior, me: int, other: int, ranges: Ranges)
    requires
        other != me,
        behavior == Behavior::Separation ==> 0 < ranges.separation,
    ensures
        is_neighbor(behavior, me, other, radius(behavior, ranges), ranges),
{
}

/// No agent is its own neighbour, whatever the distance and the ranges, and
/// none at distance zero is a separation neighbour.
pub proof fn lemma_self_is_excluded(
    behavior: Behavior,
    me: int,
    other: int,
    distance: u32,
    ranges: Ranges,
)
    ensures
        !is_neighbor(behavior, me, me, distance, ranges),
        !is_neighbor(Behavior::Separation, me, other, 0, ranges),
{
}

/// A list that `lists_neighbors` accepts never names the agent itself.
pub proof fn lemma_lists_exclude_self(
    list: Seq<usize>,
    behavior: Behavior,
    me: int,
    distances: Seq<u32>,
    ranges: Ranges,
    upto: int,
)
    requires
        lists_neighbors(list, behavior, me, distances, ranges, upto),
    ensures
        forall|a: int| 0 <= a < list.len() ==> #[trigger] list[a] as int != me,
{
    assert forall|a: int| 0 <= a < list.len() implies #[trigger] list[a] as int != me by {
        assert(is_neighbor(behavior, me, list[a] as int, distances[list[a] as int], ranges));
    }
}

/// Two lists of the same neighbourhood agree in their first `upto` places.
proof fn lemma_lists_agree(
    first: Seq<usize>,
    second: Seq<usize>,
    behavior: Behavior,
    me: int,
    distances: Seq<u32>,
    ranges: Ranges,
    limit: int,
    upto: int,
)
    requires
        lists_neighbors(first, behavior, me, distances, ranges, limit),
        lists_neighbors(second, behavior, me, distances, ranges, limit),
        0 <= upto <= first.len(),
    ensures
        upto <= second.len(),
        forall|i: int| 0 <= i < upto ==> first[i] == second[i],
    decreases upto,
{
    if upto > 0 {
        lemma_lists_agree(first, second, behavior, me, distances, ranges, limit, upto - 1);
        let here = upto - 1;
        assert(is_neighbor(
            behavior,
            me,
            first[here] as int,
            distances[first[here] as int],
            ranges,
        ));
        assert(second.contains(first[here] as int as usize));
        let in_second = choose|at: int| 0 <= at < second.len() && second[at] == first[here];
        if in_second < here {
            assert(first[in_second] < first[here]);
        }
        assert(is_neighbor(
            behavior,
            me,
            second[here] as int,
            distances[second[here] as int],
            ranges,
        ));
        assert(first.contains(second[here] as int as usize));
        let in_first = choose|at: int| 0 <= at < first.len() && first[at] == second[here];
        if in_first < here {
            assert(second[in_first] < second[here]);
        }
        if here < in_first {
            assert(first[here] < first[in_first]);
        }
        if here < in_second {
            assert(second[here] < second[in_second]);
        }
    }
}

/// The search has one right answer: two lists of the same neighbourhood are
/// equal.
pub proof fn lemma_lists_are_unique(
    first: Seq<usize>,
    second: Seq<usize>,
    behavior: Behavior,
    me: int,
    distances: Seq<u32>,
    ranges: Ranges,
    upto: int,
)
    requires
        lists_neighbors(first, behavior, me, distances, ranges, upto),
        lists_neighbors(second, behavior, me, distances, ranges, upto),
    ensures
        first == second,
{
    lemma_lists_agree(first, second, behavior, me, distances, ranges, upto, first.len() as int);
    lemma_lists_agree(second, first, behavior, me, distances, ranges, upto, second.len() as int);
    assert(first =~= second);
}

} // verus!
