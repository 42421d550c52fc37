//! Demand scores: how much each group asks to proceed.
//!
//! At every tick the score of a group grows by what its `High` sensors
//! contribute. A score never shrinks here; the end of a phase sets it back to
//! zero.
use crate::intersections::group::{Group, GroupView};
use crate::intersections::intersection::{Intersection, IntersectionView};
use crate::intersections::sensor::{Sensor, SensorState, SensorView};
use vstd::prelude::*;

verus! {

/// The time between two ticks, in milliseconds.
pub const POLL_MILLIS: u64 = 100;

/// How long a sensor has to be `High` before its weight counts, in
/// milliseconds.
pub const PERSISTENCE_MILLIS: u64 = 3000;

/// What one sensor adds to the score of its group at `now`: nothing while it
/// is not `High`; its weight if that is positive and the sensor has been
/// `High` for three seconds; else 1.
pub open spec fn sensor_demand(sensor: SensorView, now: int) -> int {
    if sensor.state != SensorState::High {
        0
    } else if sensor.distance > 0 && sensor.triggered_for(3000, SensorState::High, now) {
        sensor.distance
    } else {
        1
    }
}

/// What the first `n` of `sensors` add together at `now`.
pub open spec fn demand(sensors: Seq<SensorView>, n: int, now: int) -> int
    decreases n,
{
    if n <= 0 {
        0
    } else {
        demand(sensors, n - 1, now) + sensor_demand(sensors[n - 1], now)
    }
}

/// The score of `group` after a tick at `now`: its score and the demand of
/// its sensors, but no more than 32 bits hold.
pub open spec fn polled_score(group: GroupView, now: int) -> int {
    let total = group.score + demand(group.sensors, group.sensors.len() as int, now);
    if total > i32::MAX {
        i32::MAX as int
    } else {
        total
    }
}

/// Demand is never negative.
pub proof fn lemma_demand_nonnegative(sensors: Seq<SensorView>, n: int, now: int)
    ensures
        demand(sensors, n, now) >= 0,
    decreases n,
{
    if n > 0 {
        lemma_demand_nonnegative(sensors, n - 1, now);
    }
}

/// The intersection after a tick at `now` took its first `n` groups: each got
/// its new score, and each score was told.
pub open spec fn polled_first(intersection: IntersectionView, n: int, now: int) -> IntersectionView
    decreases n,
{
    if n <= 0 {
        intersection
    } else {
        let before = polled_first(intersection, n - 1, now);
        let group = before.groups[n - 1];
        IntersectionView {
            groups: before.groups.update(
                n - 1,
                GroupView { score: polled_score(group, now), ..group },
            ),
            channels: before.channels.send_score(group.id),
            ..before
        }
    }
}

/// The intersection after a tick at `now`.
pub open spec fn polled(intersection: IntersectionView, now: int) -> IntersectionView {
    polled_first(intersection, intersection.groups.len() as int, now)
}

/// A tick changes nothing of a group but its score, and leaves the groups it
/// has not taken yet as they were.
pub proof fn lemma_polled_first(intersection: IntersectionView, n: int, now: int)
    requires
        0 <= n <= intersection.groups.len(),
    ensures
        polled_first(intersection, n, now).groups.len() == intersection.groups.len(),
        forall|i: int|
            0 <= i < n ==> #[trigger] polled_first(intersection, n, now).groups[i] == (GroupView {
                score: polled_score(intersection.groups[i], now),
                ..intersection.groups[i]
            }),
        forall|i: int|
            n <= i < intersection.groups.len() ==> #[trigger] polled_first(
                intersection,
                n,
                now,
            ).groups[i] == intersection.groups[i],
    decreases n,
{
    if n > 0 {
        lemma_polled_first(intersection, n - 1, now);
    }
}

/// A tick never lowers the score of a group.
pub proof fn lemma_poll_never_decreases(intersection: IntersectionView, now: int, i: int)
    requires
        0 <= i < intersection.groups.len(),
        intersection.groups[i].score <= i32::MAX,
    ensures
        polled(intersection, now).groups.len() == intersection.groups.len(),
        polled(intersection, now).groups[i].score >= intersection.groups[i].score,
{
    lemma_polled_first(intersection, intersection.groups.len() as int, now);
    lemma_demand_nonnegative(
        intersection.groups[i].sensors,
        intersection.groups[i].sensors.len() as int,
        now,
    );
}

/// A tick keeps a sound intersection sound.
pub proof fn lemma_polled_first_sound(intersection: IntersectionView, n: int, now: int)
    requires
        intersection.sound(),
        0 <= n <= intersection.groups.len(),
    ensures
        polled_first(intersection, n, now).sound(),
        polled_first(intersection, n, now).same_ids(intersection),
    decreases n,
{
    if n > 0 {
        lemma_polled_first_sound(intersection, n - 1, now);
        let before = polled_first(intersection, n - 1, now);
        let after = polled_first(intersection, n, now);
        assert forall|g: int| 0 <= g < after.groups.len() implies (#[trigger] after.groups[g]).same_ids(
            before.groups[g],
        ) by {}
        before.lemma_components_reachable(n - 1);
        before.lemma_sound_kept(after);
        after.lemma_same_ids_chain(before, intersection);
    } else {
        assert forall|g: int| 0 <= g < intersection.groups.len() implies (
        #[trigger] intersection.groups[g]).same_ids(intersection.groups[g]) by {}
    }
}

/// Recomputes the scores of the groups of an intersection.
pub struct ScorePoller {}

impl ScorePoller {
    /// A poller.
    pub fn new() -> Self {
        Self {  }
    }

    /// What `sensor` adds to the score of its group at `now`.
    pub fn sensor_demand(sensor: &Sensor, now: i64) -> (added: i32)
        ensures
            added == sensor_demand(sensor@, now as int),
    {
        if sensor.state() != SensorState::High {
            0
        } else if sensor.distance > 0 && sensor.triggered_for(
            PERSISTENCE_MILLIS,
            SensorState::High,
            now,
        ) {
            sensor.distance
        } else {
            1
        }
    }

    /// The score of `group` after a tick at `now`.
    pub fn polled_score(group: &Group, now: i64) -> (score: i32)
        ensures
            score == polled_score(group@, now as int),
    {
        let limit: i64 = 2147483647;
        let mut total: i64 = group.score as i64;
        let mut i: usize = 0;
        while i < group.sensors.len()
            invariant
                i <= group.sensors.len(),
                limit == i32::MAX,
                i32::MIN <= total <= limit,
                total == if group@.score + demand(group@.sensors, i as int, now as int) > limit {
                    limit as int
                } else {
                    group@.score + demand(group@.sensors, i as int, now as int)
                },
            decreases group.sensors.len() - i,
        {
            let added = Self::sensor_demand(&group.sensors[i], now);
            proof {
                lemma_demand_nonnegative(group@.sensors, i as int, now as int);
                lemma_demand_nonnegative(group@.sensors, i + 1, now as int);
            }
            total = total + added as i64;
            if total > limit {
                total = limit;
            }
            i += 1;
        }
        total as i32
    }

    /// One tick at `now`: every group gets its new score, first to last, and
    /// every score is told, whether it changed or not.
    pub fn poll(&self, intersection: &mut Intersection, now: i64)
        ensures
            final(intersection)@ == polled(old(intersection)@, now as int),
            old(intersection)@.sound() ==> final(intersection)@.sound(),
            final(intersection)@.groups.len() == old(intersection)@.groups.len(),
            forall|i: int|
                0 <= i < old(intersection)@.groups.len() ==> (
                #[trigger] final(intersection)@.groups[i]).score >= old(
                    intersection,
                )@.groups[i].score,
    {
        let mut i: usize = 0;
        while i < intersection.groups.len()
            invariant
                i <= intersection.groups.len(),
                intersection.groups.len() == old(intersection).groups.len(),
                intersection@ == polled_first(old(intersection)@, i as int, now as int),
            decreases intersection.groups.len() - i,
        {
            let ghost before = intersection@;
            let score = Self::polled_score(&intersection.groups[i], now);
            intersection.groups[i].set_score(score, &mut intersection.channels);
            assert(intersection@.groups =~= before.groups.update(
                i as int,
                GroupView { score: score as int, ..before.groups[i as int] },
            ));
            i += 1;
        }
        proof {
            if old(intersection)@.sound() {
                lemma_polled_first_sound(
                    old(intersection)@,
                    old(intersection)@.groups.len() as int,
                    now as int,
                );
            }
            assert forall|i: int| 0 <= i < old(intersection)@.groups.len() implies (
            #[trigger] intersection@.groups[i]).score >= old(intersection)@.groups[i].score by {
                lemma_poll_never_decreases(old(intersection)@, now as int, i);
            }
        }
    }
}

} // verus!
