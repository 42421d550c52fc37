//! The phase scheduler of the road intersection.
//!
//! At every tick the scheduler blocks or unblocks the groups that a traffic
//! jam concerns, picks the groups of the next phase and plans the phase: one
//! share of work for every kind of group, with times such that all kinds end
//! together. A worker then takes a share through its three steps: proceed,
//! transition, prohibit.
use crate::config::groups::{Group as ConfigGroup, Groups as ConfigGroups};
use crate::intersections::component::{ComponentId, ComponentKind, ComponentUid};
use crate::intersections::group::{
    lemma_position_is, position, GroupId, GroupKind, GroupView,
};
use crate::intersections::intersection::{group_views, Intersection, IntersectionView};
use crate::intersections::light::LightState;
use crate::intersections::sensor::SensorState;
use vstd::prelude::*;

verus! {

/// The longest time between two ticks, in milliseconds.
pub const TICK_MILLIS: u64 = 100;

/// The pause after a phase, in milliseconds.
pub const PAUSE_MILLIS: u64 = 1000;

/// How long the jam sensor has to be `High` before groups are blocked, in
/// milliseconds.
pub const JAM_MILLIS: u64 = 3000;

/// The sensor that tells a traffic jam: sensor 1 of motor vehicle group 14.
pub open spec fn jam_sensor() -> ComponentUid {
    ComponentUid {
        group_id: GroupId { kind: GroupKind::MotorVehicle, id: 14 },
        component_id: ComponentId { kind: ComponentKind::Sensor, id: 1 },
    }
}

/// Whether there is a traffic jam at `now`: the jam sensor exists and has been
/// `High` for three seconds.
pub open spec fn jammed(intersection: IntersectionView, now: int) -> bool {
    intersection.has_sensor(jam_sensor()) && intersection.sensor(jam_sensor()).triggered_for(
        3000,
        SensorState::High,
        now,
    )
}

/// The group blocked or not as `block` says, if it can be blocked at all.
pub open spec fn group_blocked(group: GroupView, block: bool) -> GroupView {
    if group.can_be_blocked {
        GroupView { block, ..group }
    } else {
        group
    }
}

/// The intersection with every group that can be blocked blocked or not, as
/// `block` says.
pub open spec fn blocked(intersection: IntersectionView, block: bool) -> IntersectionView {
    IntersectionView {
        groups: Seq::new(
            intersection.groups.len(),
            |i: int| group_blocked(intersection.groups[i], block),
        ),
        ..intersection
    }
}

/// The kinds of group, in the order in which a phase takes them.
pub open spec fn kind_at(i: int) -> GroupKind {
    if i == 0 {
        GroupKind::MotorVehicle
    } else if i == 1 {
        GroupKind::Cycle
    } else if i == 2 {
        GroupKind::Foot
    } else if i == 3 {
        GroupKind::Vessel
    } else {
        GroupKind::Bridge
    }
}

/// Those among the first `n` of `ids` that are of kind `kind`, in order.
pub open spec fn groups_of_kind(ids: Seq<GroupId>, kind: GroupKind, n: int) -> Seq<GroupId>
    decreases n,
{
    if n <= 0 {
        Seq::empty()
    } else if ids[n - 1].kind == kind {
        groups_of_kind(ids, kind, n - 1).push(ids[n - 1])
    } else {
        groups_of_kind(ids, kind, n - 1)
    }
}

/// The groups `ids` by kind, for the first `n` kinds: each kind that has a
/// group, with its groups in order.
pub open spec fn by_kind(ids: Seq<GroupId>, n: int) -> Seq<(GroupKind, Seq<GroupId>)>
    decreases n,
{
    if n <= 0 {
        Seq::empty()
    } else {
        let groups = groups_of_kind(ids, kind_at(n - 1), ids.len() as int);
        if groups.len() > 0 {
            by_kind(ids, n - 1).push((kind_at(n - 1), groups))
        } else {
            by_kind(ids, n - 1)
        }
    }
}

/// A configured time in milliseconds; a negative number counts as none.
pub open spec fn millis(time: i32) -> int {
    if time < 0 {
        0
    } else {
        time as int
    }
}

/// The kinds that the records of `config` are for, in order.
pub open spec fn configured_kinds(config: Seq<ConfigGroup>) -> Seq<Seq<char>> {
    config.map_values(|g: ConfigGroup| g.kind@)
}

/// Where the first record for `kind` stands in `config`, or its length.
pub open spec fn config_position(config: Seq<ConfigGroup>, kind: GroupKind) -> int {
    position(configured_kinds(config), kind.text())
}

/// Whether `config` has a record for `kind`.
pub open spec fn is_configured(config: Seq<ConfigGroup>, kind: GroupKind) -> bool {
    config_position(config, kind) < config.len()
}

/// The time of a whole phase for `kind`: its shortest go time and its
/// shortest transition time together.
pub open spec fn total_time(config: Seq<ConfigGroup>, kind: GroupKind) -> int
    recommends
        is_configured(config, kind),
{
    let record = config[config_position(config, kind)];
    millis(record.min_go_time) + millis(record.min_transition_time)
}

/// The longest time of a whole phase among the configured ones of the first
/// `n` of `kinds`; 0 where none is configured.
pub open spec fn largest_total_time(config: Seq<ConfigGroup>, kinds: Seq<GroupKind>, n: int) -> int
    decreases n,
{
    if n <= 0 {
        0
    } else {
        let before = largest_total_time(config, kinds, n - 1);
        if is_configured(config, kinds[n - 1]) && total_time(config, kinds[n - 1]) > before {
            total_time(config, kinds[n - 1])
        } else {
            before
        }
    }
}

/// How long the lights of a kind let traffic proceed and how long they show
/// the transition, in milliseconds.
#[derive(Clone, Copy, Debug, Eq, PartialEq, Structural)]
pub struct PhaseTimes {
    pub proceed: u64,
    pub transitioning: u64,
}

/// The times of `kind` in a phase whose longest kind takes `largest`: the
/// transition takes its shortest time, and the go time is stretched so that
/// the kind ends together with the longest.
pub open spec fn phase_times(config: Seq<ConfigGroup>, kind: GroupKind, largest: int) -> (int, int)
    recommends
        is_configured(config, kind),
{
    let record = config[config_position(config, kind)];
    (
        millis(record.min_go_time) + (largest - total_time(config, kind)),
        millis(record.min_transition_time),
    )
}

/// The times of the configured ones among the first `n` of `kinds`, in a
/// phase whose longest kind takes `largest`.
pub open spec fn times_of(
    config: Seq<ConfigGroup>,
    kinds: Seq<GroupKind>,
    n: int,
    largest: int,
) -> Seq<(GroupKind, (int, int))>
    decreases n,
{
    if n <= 0 {
        Seq::empty()
    } else if is_configured(config, kinds[n - 1]) {
        times_of(config, kinds, n - 1, largest).push(
            (kinds[n - 1], phase_times(config, kinds[n - 1], largest)),
        )
    } else {
        times_of(config, kinds, n - 1, largest)
    }
}

/// No kind takes longer than the longest.
pub proof fn lemma_largest_total_time(config: Seq<ConfigGroup>, kinds: Seq<GroupKind>, n: int)
    requires
        0 <= n <= kinds.len(),
    ensures
        0 <= largest_total_time(config, kinds, n) <= 2 * i32::MAX,
        forall|i: int|
            0 <= i < n && is_configured(config, #[trigger] kinds[i]) ==> total_time(
                config,
                kinds[i],
            ) <= largest_total_time(config, kinds, n),
    decreases n,
{
    if n > 0 {
        lemma_largest_total_time(config, kinds, n - 1);
    }
}

/// All kinds of a phase take the same time: go time and transition time of
/// every configured kind add up to the longest total.
pub proof fn lemma_phases_end_together(
    config: Seq<ConfigGroup>,
    kinds: Seq<GroupKind>,
    i: int,
)
    requires
        0 <= i < kinds.len(),
        is_configured(config, kinds[i]),
    ensures
        ({
            let largest = largest_total_time(config, kinds, kinds.len() as int);
            let times = phase_times(config, kinds[i], largest);
            times.0 + times.1 == largest && times.0 >= millis(
                config[config_position(config, kinds[i])].min_go_time,
            )
        }),
{
    lemma_largest_total_time(config, kinds, kinds.len() as int);
}

/// The groups of one kind, within a phase.
pub struct KindGroups {
    pub kind: GroupKind,
    pub groups: Vec<GroupId>,
}

/// The share of one kind in a phase: its groups and its times.
pub struct KindPhase {
    pub kind: GroupKind,
    pub groups: Vec<GroupId>,
    pub times: PhaseTimes,
}

/// The groups by kind in `list`, as pairs.
pub open spec fn kind_groups_views(list: Seq<KindGroups>) -> Seq<(GroupKind, Seq<GroupId>)> {
    list.map_values(|k: KindGroups| (k.kind, k.groups@))
}

/// The phase that is planned for the groups `runnables` under `config`: for
/// every kind that has a group and is configured, its groups and its times.
pub open spec fn planned(config: Seq<ConfigGroup>, runnables: Seq<GroupId>, n: int) -> Seq<
    (GroupKind, Seq<GroupId>, (int, int)),
>
    decreases n,
{
    let parts = by_kind(runnables, 5);
    let kinds = parts.map_values(|p: (GroupKind, Seq<GroupId>)| p.0);
    let largest = largest_total_time(config, kinds, kinds.len() as int);
    if n <= 0 {
        Seq::empty()
    } else if is_configured(config, parts[n - 1].0) {
        planned(config, runnables, n - 1).push(
            (parts[n - 1].0, parts[n - 1].1, phase_times(config, parts[n - 1].0, largest)),
        )
    } else {
        planned(config, runnables, n - 1)
    }
}

/// The shares in `list`, as triples.
pub open spec fn phase_views(list: Seq<KindPhase>) -> Seq<(GroupKind, Seq<GroupId>, (int, int))> {
    list.map_values(
        |p: KindPhase| (p.kind, p.groups@, (p.times.proceed as int, p.times.transitioning as int)),
    )
}

/// Where the scheduler stands: what it waits for.
#[derive(Clone, Copy, Debug, Eq, PartialEq, Structural)]
pub enum SchedulerStep {
    /// The next tick.
    Waiting,
    /// The end of the phase that the workers run.
    Running,
    /// The end of the pause after a phase.
    Pausing,
    /// Nothing: the scheduler was stopped.
    Stopped,
}

/// What the scheduler waits for before its next step. A stop ends every wait.
pub enum SchedulerWait {
    /// A change of a state in the intersection, or the time of a tick.
    Tick,
    /// The workers of these shares: one worker takes each share through the
    /// phase, and all of them have to end.
    Workers(Vec<KindPhase>),
    /// The time of a pause.
    Pause,
    /// Nothing: the scheduler has ended.
    Stop,
}

/// What a wait is, with the shares of its workers as triples.
pub enum SchedulerWaitView {
    Tick,
    Workers(Seq<(GroupKind, Seq<GroupId>, (int, int))>),
    Pause,
    Stop,
}

impl View for SchedulerWait {
    type V = SchedulerWaitView;

    open spec fn view(&self) -> SchedulerWaitView {
        match self {
            SchedulerWait::Tick => SchedulerWaitView::Tick,
            SchedulerWait::Workers(phases) => SchedulerWaitView::Workers(phase_views(phases@)),
            SchedulerWait::Pause => SchedulerWaitView::Pause,
            SchedulerWait::Stop => SchedulerWaitView::Stop,
        }
    }
}

/// What the scheduler does next, from `step`, after the wait that the step
/// before asked for, at `now`: the step it reaches, the intersection it
/// leaves, and what it waits for. `stopped` says whether a stop was asked
/// for.
///
/// A tick that plans nothing is followed by the next tick; a tick that plans
/// a phase is followed by the phase, the phase by a pause, and the pause by
/// the next tick.
pub open spec fn scheduler_next(
    config: Seq<ConfigGroup>,
    step: SchedulerStep,
    intersection: IntersectionView,
    stopped: bool,
    now: int,
) -> (SchedulerStep, IntersectionView, SchedulerWaitView) {
    if stopped {
        (SchedulerStep::Stopped, intersection, SchedulerWaitView::Stop)
    } else {
        match step {
            SchedulerStep::Waiting => {
                let after = blocked(intersection, jammed(intersection, now));
                let plan = planned(
                    config,
                    after.runnables(),
                    by_kind(after.runnables(), 5).len() as int,
                );
                if plan.len() == 0 {
                    (SchedulerStep::Waiting, after, SchedulerWaitView::Tick)
                } else {
                    (SchedulerStep::Running, after, SchedulerWaitView::Workers(plan))
                }
            },
            SchedulerStep::Running => (
                SchedulerStep::Pausing,
                intersection,
                SchedulerWaitView::Pause,
            ),
            SchedulerStep::Pausing => (SchedulerStep::Waiting, intersection, SchedulerWaitView::Tick),
            SchedulerStep::Stopped => (
                SchedulerStep::Stopped,
                intersection,
                SchedulerWaitView::Stop,
            ),
        }
    }
}

/// Plans the phases of the road intersection.
pub struct TrafficLightsRunner {
    pub groups_config: ConfigGroups,
    pub step: SchedulerStep,
}

impl TrafficLightsRunner {
    /// A scheduler with the phase times `groups_config`, waiting for its first
    /// tick.
    pub fn new(groups_config: ConfigGroups) -> (runner: Self)
        ensures
            runner.groups_config == groups_config,
            runner.step == SchedulerStep::Waiting,
    {
        Self { groups_config, step: SchedulerStep::Waiting }
    }

    /// The next step of the scheduler, at `now`, after the wait that the step
    /// before asked for. `stopped` says whether a stop was asked for.
    pub fn advance(&mut self, intersection: &mut Intersection, stopped: bool, now: i64) -> (wait:
        SchedulerWait)
        ensures
            (final(self).step, final(intersection)@, wait@) == scheduler_next(
                old(self).groups_config.groups@,
                old(self).step,
                old(intersection)@,
                stopped,
                now as int,
            ),
            final(self).groups_config == old(self).groups_config,
            old(intersection)@.sound() ==> final(intersection)@.sound(),
    {
        proof {
            if old(intersection)@.sound() {
                lemma_scheduler_next_sound(
                    old(self).groups_config.groups@,
                    old(self).step,
                    old(intersection)@,
                    stopped,
                    now as int,
                );
            }
        }
        if stopped {
            self.step = SchedulerStep::Stopped;
            return SchedulerWait::Stop;
        }
        match self.step {
            SchedulerStep::Waiting => {
                let phases = self.tick(intersection, now);
                if phases.len() == 0 {
                    SchedulerWait::Tick
                } else {
                    self.step = SchedulerStep::Running;
                    SchedulerWait::Workers(phases)
                }
            },
            SchedulerStep::Running => {
                self.step = SchedulerStep::Pausing;
                SchedulerWait::Pause
            },
            SchedulerStep::Pausing => {
                self.step = SchedulerStep::Waiting;
                SchedulerWait::Tick
            },
            SchedulerStep::Stopped => SchedulerWait::Stop,
        }
    }

    /// The kind at place `i` of the order in which a phase takes the kinds.
    fn kind_at(i: usize) -> (kind: GroupKind)
        ensures
            kind == kind_at(i as int),
    {
        if i == 0 {
            GroupKind::MotorVehicle
        } else if i == 1 {
            GroupKind::Cycle
        } else if i == 2 {
            GroupKind::Foot
        } else if i == 3 {
            GroupKind::Vessel
        } else {
            GroupKind::Bridge
        }
    }

    /// Whether there is a traffic jam at `now`.
    pub fn jammed(&self, intersection: &Intersection, now: i64) -> (jam: bool)
        ensures
            jam == jammed(intersection@, now as int),
    {
        let uid = ComponentUid::new(GroupKind::MotorVehicle, 14, ComponentKind::Sensor, 1);
        match intersection.find_sensor(uid) {
            Some(sensor) => sensor.triggered_for(JAM_MILLIS, SensorState::High, now),
            None => false,
        }
    }

    /// Blocks every group that can be blocked, or lifts the block of every
    /// such group, as `block` says.
    pub fn set_blocks(&self, intersection: &mut Intersection, block: bool)
        ensures
            final(intersection)@ == blocked(old(intersection)@, block),
            old(intersection)@.sound() ==> final(intersection)@.sound(),
    {
        proof {
            if old(intersection)@.sound() {
                lemma_blocked_sound(old(intersection)@, block);
            }
        }
        let mut i: usize = 0;
        while i < intersection.groups.len()
            invariant
                i <= intersection.groups.len(),
                intersection.groups.len() == old(intersection).groups.len(),
                intersection@.alias == old(intersection)@.alias,
                intersection@.channels == old(intersection)@.channels,
                forall|j: int|
                    0 <= j < i ==> (#[trigger] intersection@.groups[j]) == group_blocked(
                        old(intersection)@.groups[j],
                        block,
                    ),
                forall|j: int|
                    i <= j < intersection.groups.len() ==> (#[trigger] intersection@.groups[j])
                        == old(intersection)@.groups[j],
            decreases intersection.groups.len() - i,
        {
            let ghost before = intersection@;
            let ghost group = intersection.groups@[i as int];
            assert(before.groups[i as int] == group@);
            if intersection.groups[i].can_be_blocked {
                intersection.groups[i].block = block;
            }
            assert(intersection.groups@[i as int]@ == group_blocked(group@, block));
            assert(intersection@.groups[i as int] == intersection.groups@[i as int]@);
            assert forall|j: int|
                0 <= j < intersection.groups.len() && j != i implies (
            #[trigger] intersection@.groups[j]) == before.groups[j] by {}
            i += 1;
        }
        assert(intersection@.groups =~= blocked(old(intersection)@, block).groups);
    }

    /// The groups of `runnables` by kind: every kind that has a group, with
    /// its groups in order.
    pub fn runnables_by_group_kind(&self, runnables: &Vec<GroupId>) -> (parts: Vec<KindGroups>)
        ensures
            kind_groups_views(parts@) == by_kind(runnables@, 5),
    {
        let mut parts: Vec<KindGroups> = Vec::new();
        let mut k: usize = 0;
        assert(kind_groups_views(parts@) =~= by_kind(runnables@, 0));
        while k < 5
            invariant
                k <= 5,
                kind_groups_views(parts@) == by_kind(runnables@, k as int),
            decreases 5 - k,
        {
            let kind = Self::kind_at(k);
            let mut groups: Vec<GroupId> = Vec::new();
            let mut i: usize = 0;
            while i < runnables.len()
                invariant
                    i <= runnables.len(),
                    groups@ == groups_of_kind(runnables@, kind, i as int),
                decreases runnables.len() - i,
            {
                if runnables[i].kind == kind {
                    groups.push(runnables[i]);
                }
                i += 1;
            }
            if groups.len() > 0 {
                let ghost before = parts@;
                parts.push(KindGroups { kind, groups });
                assert(kind_groups_views(parts@) =~= kind_groups_views(before).push(
                    (kind, groups_of_kind(runnables@, kind, runnables@.len() as int)),
                ));
            }
            k += 1;
        }
        parts
    }

    /// The first record of the configuration that is for `kind`, if there is
    /// one.
    pub fn group_config(&self, kind: GroupKind) -> (found: Option<&ConfigGroup>)
        ensures
            found.is_some() == is_configured(self.groups_config.groups@, kind),
            found matches Some(record) ==> *record == self.groups_config.groups@[config_position(
                self.groups_config.groups@,
                kind,
            )],
    {
        let ghost kinds = configured_kinds(self.groups_config.groups@);
        let mut i: usize = 0;
        while i < self.groups_config.groups.len()
            invariant
                i <= self.groups_config.groups.len(),
                kinds == configured_kinds(self.groups_config.groups@),
                forall|j: int| 0 <= j < i ==> kinds[j] != kind.text(),
            decreases self.groups_config.groups.len() - i,
        {
            if crate::text::same_text(self.groups_config.groups[i].kind.as_str(), kind.as_str()) {
                proof {
                    lemma_position_is(kinds, kind.text(), i as int);
                }
                return Some(&self.groups_config.groups[i]);
            }
            i += 1;
        }
        proof {
            lemma_position_is(kinds, kind.text(), i as int);
        }
        None
    }

    /// A configured time as milliseconds; a negative number counts as none.
    fn millis(time: i32) -> (ms: u64)
        ensures
            ms == millis(time),
    {
        if time < 0 {
            0
        } else {
            time as u64
        }
    }

    /// The time of a whole phase for `kind`, if the kind is configured.
    pub fn total_time(&self, kind: GroupKind) -> (total: Option<u64>)
        ensures
            total.is_some() == is_configured(self.groups_config.groups@, kind),
            total matches Some(t) ==> t == total_time(self.groups_config.groups@, kind),
    {
        match self.group_config(kind) {
            Some(config) => Some(
                Self::millis(config.min_go_time) + Self::millis(config.min_transition_time),
            ),
            None => None,
        }
    }

    /// The longest time of a whole phase among the configured ones of `kinds`;
    /// 0 where none is configured.
    pub fn largest_total_time(&self, kinds: &Vec<GroupKind>) -> (largest: u64)
        ensures
            largest == largest_total_time(
                self.groups_config.groups@,
                kinds@,
                kinds@.len() as int,
            ),
    {
        let mut largest: u64 = 0;
        let mut i: usize = 0;
        while i < kinds.len()
            invariant
                i <= kinds.len(),
                largest == largest_total_time(self.groups_config.groups@, kinds@, i as int),
            decreases kinds.len() - i,
        {
            match self.total_time(kinds[i]) {
                Some(total) => {
                    if total > largest {
                        largest = total;
                    }
                },
                None => {},
            }
            i += 1;
        }
        largest
    }

    /// The times of `kind` in a phase whose longest kind takes `largest`, if
    /// the kind is configured.
    fn times_for(&self, kind: GroupKind, largest: u64) -> (times: Option<PhaseTimes>)
        requires
            largest <= 2 * i32::MAX,
            is_configured(self.groups_config.groups@, kind) ==> total_time(
                self.groups_config.groups@,
                kind,
            ) <= largest,
        ensures
            times.is_some() == is_configured(self.groups_config.groups@, kind),
            times matches Some(t) ==> (t.proceed as int, t.transitioning as int) == phase_times(
                self.groups_config.groups@,
                kind,
                largest as int,
            ),
    {
        match self.group_config(kind) {
            Some(config) => {
                let go = Self::millis(config.min_go_time);
                let transition = Self::millis(config.min_transition_time);
                Some(PhaseTimes { proceed: go + (largest - (go + transition)), transitioning: transition })
            },
            None => None,
        }
    }

    /// The times of every configured kind of `kinds`, in order, for a phase of
    /// these kinds: the transition takes its shortest time, and the go time is
    /// stretched so that all kinds end together.
    pub fn get_times(&self, kinds: &Vec<GroupKind>) -> (times: Vec<(GroupKind, PhaseTimes)>)
        ensures
            times@.map_values(
                |t: (GroupKind, PhaseTimes)|
                    (t.0, (t.1.proceed as int, t.1.transitioning as int)),
            ) == times_of(
                self.groups_config.groups@,
                kinds@,
                kinds@.len() as int,
                largest_total_time(self.groups_config.groups@, kinds@, kinds@.len() as int),
            ),
    {
        let largest = self.largest_total_time(kinds);
        proof {
            lemma_largest_total_time(self.groups_config.groups@, kinds@, kinds@.len() as int);
        }
        let mut times: Vec<(GroupKind, PhaseTimes)> = Vec::new();
        let mut i: usize = 0;
        assert(times@.map_values(
            |t: (GroupKind, PhaseTimes)| (t.0, (t.1.proceed as int, t.1.transitioning as int)),
        ) =~= times_of(self.groups_config.groups@, kinds@, 0, largest as int));
        while i < kinds.len()
            invariant
                i <= kinds.len(),
                largest <= 2 * i32::MAX,
                forall|j: int|
                    0 <= j < kinds.len() && is_configured(
                        self.groups_config.groups@,
                        #[trigger] kinds@[j],
                    ) ==> total_time(self.groups_config.groups@, kinds@[j]) <= largest,
                times@.map_values(
                    |t: (GroupKind, PhaseTimes)|
                        (t.0, (t.1.proceed as int, t.1.transitioning as int)),
                ) == times_of(self.groups_config.groups@, kinds@, i as int, largest as int),
            decreases kinds.len() - i,
        {
            let ghost before = times@;
            match self.times_for(kinds[i], largest) {
                Some(t) => {
                    times.push((kinds[i], t));
                    assert(times@.map_values(
                        |t: (GroupKind, PhaseTimes)|
                            (t.0, (t.1.proceed as int, t.1.transitioning as int)),
                    ) =~= before.map_values(
                        |t: (GroupKind, PhaseTimes)|
                            (t.0, (t.1.proceed as int, t.1.transitioning as int)),
                    ).push((kinds@[i as int], (t.proceed as int, t.transitioning as int))));
                },
                None => {},
            }
            i += 1;
        }
        times
    }

    /// The phase for the groups `runnables`: for every kind that has a group
    /// and is configured, its groups and its times.
    pub fn plan(&self, runnables: &Vec<GroupId>) -> (phases: Vec<KindPhase>)
        ensures
            phase_views(phases@) == planned(
                self.groups_config.groups@,
                runnables@,
                by_kind(runnables@, 5).len() as int,
            ),
    {
        let parts = self.runnables_by_group_kind(runnables);
        let ghost views = by_kind(runnables@, 5);
        let ghost kind_list = views.map_values(|p: (GroupKind, Seq<GroupId>)| p.0);
        let mut kinds: Vec<GroupKind> = Vec::new();
        let mut k: usize = 0;
        while k < parts.len()
            invariant
                k <= parts.len(),
                kind_groups_views(parts@) == views,
                kind_list == views.map_values(|p: (GroupKind, Seq<GroupId>)| p.0),
                kinds@ == kind_list.take(k as int),
            decreases parts.len() - k,
        {
            kinds.push(parts[k].kind);
            assert(kind_groups_views(parts@)[k as int] == views[k as int]);
            assert(kind_list.take(k + 1) =~= kind_list.take(k as int).push(kind_list[k as int]));
            k += 1;
        }
        assert(kind_list.take(k as int) =~= kind_list);
        let largest = self.largest_total_time(&kinds);
        proof {
            lemma_largest_total_time(self.groups_config.groups@, kinds@, kinds@.len() as int);
        }
        let mut phases: Vec<KindPhase> = Vec::new();
        let mut parts = parts;
        let mut i: usize = 0;
        assert(phase_views(phases@) =~= planned(self.groups_config.groups@, runnables@, 0));
        while i < parts.len()
            invariant
                i <= parts.len(),
                parts.len() == views.len(),
                views == by_kind(runnables@, 5),
                forall|j: int|
                    i <= j < parts.len() ==> ((#[trigger] parts@[j]).kind, parts@[j].groups@)
                        == views[j],
                kind_list == views.map_values(|p: (GroupKind, Seq<GroupId>)| p.0),
                kinds@ == kind_list,
                largest == largest_total_time(
                    self.groups_config.groups@,
                    kind_list,
                    kind_list.len() as int,
                ),
                largest <= 2 * i32::MAX,
                forall|j: int|
                    0 <= j < kinds.len() && is_configured(
                        self.groups_config.groups@,
                        #[trigger] kinds@[j],
                    ) ==> total_time(self.groups_config.groups@, kinds@[j]) <= largest,
                phase_views(phases@) == planned(self.groups_config.groups@, runnables@, i as int),
            decreases parts.len() - i,
        {
            let kind = parts[i].kind;
            assert(kinds@[i as int] == kind);
            match self.times_for(kind, largest) {
                Some(times) => {
                    let mut groups: Vec<GroupId> = Vec::new();
                    std::mem::swap(&mut parts[i].groups, &mut groups);
                    let ghost before = phases@;
                    phases.push(KindPhase { kind, groups, times });
                    assert(phase_views(phases@) =~= phase_views(before).push(
                        (
                            kind,
                            views[i as int].1,
                            (times.proceed as int, times.transitioning as int),
                        ),
                    ));
                },
                None => {},
            }
            i += 1;
        }
        phases
    }

    /// One tick at `now`: blocks the groups that can be blocked while there is
    /// a traffic jam and unblocks them while there is none, picks the groups
    /// of the next phase and plans it. An empty plan means that nothing is to
    /// be done before the next tick.
    pub fn tick(&self, intersection: &mut Intersection, now: i64) -> (phases: Vec<KindPhase>)
        ensures
            final(intersection)@ == blocked(
                old(intersection)@,
                jammed(old(intersection)@, now as int),
            ),
            phase_views(phases@) == planned(
                self.groups_config.groups@,
                final(intersection)@.runnables(),
                by_kind(final(intersection)@.runnables(), 5).len() as int,
            ),
            old(intersection)@.sound() ==> final(intersection)@.sound(),
    {
        let jam = self.jammed(intersection, now);
        self.set_blocks(intersection, jam);
        let runnables = intersection.get_runnables();
        self.plan(&runnables)
    }
}

/// The intersection after every light of the first `n` groups of `ids` was
/// set to `state` at `now`, group by group.
pub open spec fn lights_set(
    intersection: IntersectionView,
    ids: Seq<GroupId>,
    n: int,
    state: LightState,
    now: int,
) -> IntersectionView
    decreases n,
{
    if n <= 0 {
        intersection
    } else {
        lights_set(intersection, ids, n - 1, state, now).set_lights(ids[n - 1], state, now)
    }
}

/// The intersection after the phase of the first `n` groups of `ids` ended at
/// `now`: group by group, every light was set to `Prohibit` and the score was
/// set back to 0.
pub open spec fn phase_ended(
    intersection: IntersectionView,
    ids: Seq<GroupId>,
    n: int,
    now: int,
) -> IntersectionView
    decreases n,
{
    if n <= 0 {
        intersection
    } else {
        phase_ended(intersection, ids, n - 1, now).set_lights(
            ids[n - 1],
            LightState::Prohibit,
            now,
        ).set_score(ids[n - 1], 0)
    }
}

/// Blocking keeps a sound intersection sound.
pub proof fn lemma_blocked_sound(intersection: IntersectionView, block: bool)
    requires
        intersection.sound(),
    ensures
        blocked(intersection, block).sound(),
        blocked(intersection, block).same_ids(intersection),
{
    let after = blocked(intersection, block);
    assert forall|g: int| 0 <= g < after.groups.len() implies (#[trigger] after.groups[g]).same_ids(
        intersection.groups[g],
    ) by {}
    intersection.lemma_sound_kept(after);
}

/// Setting the lights of groups keeps a sound intersection sound.
pub proof fn lemma_lights_set_sound(
    intersection: IntersectionView,
    ids: Seq<GroupId>,
    n: int,
    state: LightState,
    now: int,
)
    requires
        intersection.sound(),
    ensures
        lights_set(intersection, ids, n, state, now).sound(),
        lights_set(intersection, ids, n, state, now).same_ids(intersection),
    decreases n,
{
    if n > 0 {
        lemma_lights_set_sound(intersection, ids, n - 1, state, now);
        let before = lights_set(intersection, ids, n - 1, state, now);
        before.lemma_set_lights_sound(ids[n - 1], state, now);
        lights_set(intersection, ids, n, state, now).lemma_same_ids_chain(before, intersection);
    } else {
        assert forall|g: int| 0 <= g < intersection.groups.len() implies (
        #[trigger] intersection.groups[g]).same_ids(intersection.groups[g]) by {}
    }
}

/// Ending a phase keeps a sound intersection sound.
pub proof fn lemma_phase_ended_sound(
    intersection: IntersectionView,
    ids: Seq<GroupId>,
    n: int,
    now: int,
)
    requires
        intersection.sound(),
    ensures
        phase_ended(intersection, ids, n, now).sound(),
        phase_ended(intersection, ids, n, now).same_ids(intersection),
    decreases n,
{
    if n > 0 {
        lemma_phase_ended_sound(intersection, ids, n - 1, now);
        let before = phase_ended(intersection, ids, n - 1, now);
        before.lemma_set_lights_sound(ids[n - 1], LightState::Prohibit, now);
        let dark = before.set_lights(ids[n - 1], LightState::Prohibit, now);
        dark.lemma_set_score_sound(ids[n - 1], 0);
        let after = phase_ended(intersection, ids, n, now);
        after.lemma_same_ids_chain(dark, before);
        after.lemma_same_ids_chain(before, intersection);
    } else {
        assert forall|g: int| 0 <= g < intersection.groups.len() implies (
        #[trigger] intersection.groups[g]).same_ids(intersection.groups[g]) by {}
    }
}

/// How far a worker has taken its share of a phase.
#[derive(Clone, Copy, Debug, Eq, PartialEq, Structural)]
pub enum WorkerStep {
    /// Nothing is done yet.
    Start,
    /// The lights let traffic proceed; the go time runs.
    Proceeding,
    /// The lights show the transition; the transition time runs.
    Transitioning,
    /// The share is done, or was given up on a stop.
    Done,
}

/// What a worker waits for before its next step.
#[derive(Clone, Copy, Debug, Eq, PartialEq, Structural)]
pub enum WorkerWait {
    /// So many milliseconds, or a stop, whichever comes first.
    Timer(u64),
    /// Nothing: the worker has ended.
    Done,
}

/// What a worker does next, from step `step` of a share with the groups `ids`
/// and the times `times`: the step it reaches, the intersection it leaves,
/// and what it waits for. `stopped` says whether a stop was asked for during
/// the wait.
///
/// A stop ends the share at once; the lights then stay as they are and the
/// scores are not set back.
pub open spec fn worker_next(
    ids: Seq<GroupId>,
    times: PhaseTimes,
    step: WorkerStep,
    intersection: IntersectionView,
    stopped: bool,
    now: int,
) -> (WorkerStep, IntersectionView, WorkerWait) {
    match step {
        WorkerStep::Start => (
            WorkerStep::Proceeding,
            lights_set(intersection, ids, ids.len() as int, LightState::Proceed, now),
            WorkerWait::Timer(times.proceed),
        ),
        WorkerStep::Proceeding => if stopped {
            (WorkerStep::Done, intersection, WorkerWait::Done)
        } else {
            (
                WorkerStep::Transitioning,
                lights_set(intersection, ids, ids.len() as int, LightState::Transitioning, now),
                WorkerWait::Timer(times.transitioning),
            )
        },
        WorkerStep::Transitioning => if stopped {
            (WorkerStep::Done, intersection, WorkerWait::Done)
        } else {
            (
                WorkerStep::Done,
                phase_ended(intersection, ids, ids.len() as int, now),
                WorkerWait::Done,
            )
        },
        WorkerStep::Done => (WorkerStep::Done, intersection, WorkerWait::Done),
    }
}

/// Whatever a worker does next, it keeps a sound intersection sound.
pub proof fn lemma_worker_next_sound(
    ids: Seq<GroupId>,
    times: PhaseTimes,
    step: WorkerStep,
    intersection: IntersectionView,
    stopped: bool,
    now: int,
)
    requires
        intersection.sound(),
    ensures
        worker_next(ids, times, step, intersection, stopped, now).1.sound(),
{
    lemma_lights_set_sound(intersection, ids, ids.len() as int, LightState::Proceed, now);
    lemma_lights_set_sound(intersection, ids, ids.len() as int, LightState::Transitioning, now);
    lemma_phase_ended_sound(intersection, ids, ids.len() as int, now);
}

/// Whatever the scheduler does next, it keeps a sound intersection sound.
pub proof fn lemma_scheduler_next_sound(
    config: Seq<ConfigGroup>,
    step: SchedulerStep,
    intersection: IntersectionView,
    stopped: bool,
    now: int,
)
    requires
        intersection.sound(),
    ensures
        scheduler_next(config, step, intersection, stopped, now).1.sound(),
{
    lemma_blocked_sound(intersection, jammed(intersection, now));
}

/// Takes the share of one kind through a phase.
pub struct PhaseWorker {
    pub phase: KindPhase,
    pub step: WorkerStep,
}

impl PhaseWorker {
    /// A worker that has not begun its share `phase`.
    pub fn new(phase: KindPhase) -> (worker: Self)
        ensures
            worker.phase == phase,
            worker.step == WorkerStep::Start,
    {
        Self { phase, step: WorkerStep::Start }
    }

    /// Sets every light of every group of the share to `state` at `now`.
    fn set_lights(&self, intersection: &mut Intersection, state: LightState, now: i64)
        ensures
            final(intersection)@ == lights_set(
                old(intersection)@,
                self.phase.groups@,
                self.phase.groups@.len() as int,
                state,
                now as int,
            ),
    {
        let mut i: usize = 0;
        while i < self.phase.groups.len()
            invariant
                i <= self.phase.groups.len(),
                intersection@ == lights_set(
                    old(intersection)@,
                    self.phase.groups@,
                    i as int,
                    state,
                    now as int,
                ),
            decreases self.phase.groups.len() - i,
        {
            intersection.set_lights(self.phase.groups[i], state, now);
            i += 1;
        }
    }

    /// Ends the share at `now`: group by group, every light is set to
    /// `Prohibit` and the score is set back to 0.
    fn end_phase(&self, intersection: &mut Intersection, now: i64)
        ensures
            final(intersection)@ == phase_ended(
                old(intersection)@,
                self.phase.groups@,
                self.phase.groups@.len() as int,
                now as int,
            ),
    {
        let mut i: usize = 0;
        while i < self.phase.groups.len()
            invariant
                i <= self.phase.groups.len(),
                intersection@ == phase_ended(
                    old(intersection)@,
                    self.phase.groups@,
                    i as int,
                    now as int,
                ),
            decreases self.phase.groups.len() - i,
        {
            intersection.set_lights(self.phase.groups[i], LightState::Prohibit, now);
            intersection.reset_score(self.phase.groups[i]);
            i += 1;
        }
    }

    /// The next step of the share, at `now`, after the wait that the step
    /// before asked for. `stopped` says whether a stop was asked for.
    pub fn advance(&mut self, intersection: &mut Intersection, stopped: bool, now: i64) -> (wait:
        WorkerWait)
        ensures
            (final(self).step, final(intersection)@, wait) == worker_next(
                old(self).phase.groups@,
                old(self).phase.times,
                old(self).step,
                old(intersection)@,
                stopped,
                now as int,
            ),
            final(self).phase == old(self).phase,
            old(intersection)@.sound() ==> final(intersection)@.sound(),
    {
        proof {
            if old(intersection)@.sound() {
                lemma_worker_next_sound(
                    old(self).phase.groups@,
                    old(self).phase.times,
                    old(self).step,
                    old(intersection)@,
                    stopped,
                    now as int,
                );
            }
        }
        match self.step {
            WorkerStep::Start => {
                self.set_lights(intersection, LightState::Proceed, now);
                self.step = WorkerStep::Proceeding;
                WorkerWait::Timer(self.phase.times.proceed)
            },
            WorkerStep::Proceeding => {
                if stopped {
                    self.step = WorkerStep::Done;
                    WorkerWait::Done
                } else {
                    self.set_lights(intersection, LightState::Transitioning, now);
                    self.step = WorkerStep::Transitioning;
                    WorkerWait::Timer(self.phase.times.transitioning)
                }
            },
            WorkerStep::Transitioning => {
                if stopped {
                    self.step = WorkerStep::Done;
                    WorkerWait::Done
                } else {
                    self.end_phase(intersection, now);
                    self.step = WorkerStep::Done;
                    WorkerWait::Done
                }
            },
            WorkerStep::Done => WorkerWait::Done,
        }
    }
}

} // verus!
