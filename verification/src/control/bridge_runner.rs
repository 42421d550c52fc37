//! The sequence of the movable bridge.
//!
//! The road is served until a vessel waits. The road light then warns and
//! stops the road, the deck is left to drain, the gates close and the deck
//! opens. Vessels pass one approach at a time: its lights let vessels proceed
//! until a vessel has gone under the deck and left. When no vessel waits any
//! more the deck closes, the gates open and the road proceeds again.
//!
//! The runner does one step at a time and says what to wait for before the
//! next. A stop that is asked for during a wait ends the sequence where it
//! stands.
//!
//! Whatever happens, the deck is open only while both gates are closed and
//! the road light prohibits.
use crate::intersections::component::{ComponentId, ComponentKind, ComponentUid};
use crate::intersections::deck::DeckState;
use crate::intersections::gate::GateState;
use crate::intersections::group::{GroupId, GroupKind};
use crate::intersections::intersection::{Intersection, IntersectionView};
use crate::intersections::light::LightState;
use crate::intersections::sensor::SensorState;
use vstd::prelude::*;

verus! {

/// How long the road light warns, in milliseconds.
pub const ROAD_WARN_MILLIS: u64 = 4000;

/// How long the road is left to clear after its light prohibits, in
/// milliseconds.
pub const ROAD_STOP_MILLIS: u64 = 6000;

/// How long the gates take to close or open, in milliseconds.
pub const GATES_MILLIS: u64 = 4000;

/// How long the deck takes to open or close, in milliseconds.
pub const DECK_MILLIS: u64 = 10000;

/// How long the road proceeds at least before vessels are served again, in
/// milliseconds.
pub const ROAD_GO_MILLIS: u64 = 30000;

/// The bridge group.
pub open spec fn bridge_group() -> GroupId {
    GroupId { kind: GroupKind::Bridge, id: 1 }
}

/// The light of the road over the bridge.
pub open spec fn road_light() -> ComponentUid {
    ComponentUid {
        group_id: bridge_group(),
        component_id: ComponentId { kind: ComponentKind::Light, id: 1 },
    }
}

/// Gate 1, in front of the deck.
pub open spec fn front_gate() -> ComponentUid {
    ComponentUid {
        group_id: bridge_group(),
        component_id: ComponentId { kind: ComponentKind::Gate, id: 1 },
    }
}

/// Gate 2, behind the deck.
pub open spec fn back_gate() -> ComponentUid {
    ComponentUid {
        group_id: bridge_group(),
        component_id: ComponentId { kind: ComponentKind::Gate, id: 2 },
    }
}

/// The deck.
pub open spec fn bridge_deck() -> ComponentUid {
    ComponentUid {
        group_id: bridge_group(),
        component_id: ComponentId { kind: ComponentKind::Deck, id: 1 },
    }
}

/// The sensor that tells whether traffic is on the deck.
pub open spec fn above_deck_sensor() -> ComponentUid {
    ComponentUid {
        group_id: bridge_group(),
        component_id: ComponentId { kind: ComponentKind::Sensor, id: 1 },
    }
}

/// The sensor that tells whether a vessel is under the deck.
pub open spec fn below_deck_sensor() -> ComponentUid {
    ComponentUid {
        group_id: GroupId { kind: GroupKind::Vessel, id: 3 },
        component_id: ComponentId { kind: ComponentKind::Sensor, id: 1 },
    }
}

/// The two approaches whose lights are driven: vessel group 1, then vessel
/// group 2.
pub open spec fn main_vessel(k: int) -> GroupId {
    if k <= 0 {
        GroupId { kind: GroupKind::Vessel, id: 1 }
    } else {
        GroupId { kind: GroupKind::Vessel, id: 2 }
    }
}

/// Whether some vessel group has a `High` sensor.
pub open spec fn one_vessel_high(intersection: IntersectionView) -> bool {
    exists|i: int|
        0 <= i < intersection.groups.len() && (#[trigger] intersection.groups[i]).id.kind
            == GroupKind::Vessel && intersection.groups[i].one_sensor_high()
}

/// Whether the sensor `uid` exists and is `High`.
pub open spec fn sensor_high(intersection: IntersectionView, uid: ComponentUid) -> bool {
    intersection.has_sensor(uid) && intersection.sensor(uid).state == SensorState::High
}

/// Whether a vessel waits at the approach `k`.
pub open spec fn vessel_waits(intersection: IntersectionView, k: int) -> bool {
    intersection.has_group(main_vessel(k)) && intersection.group(main_vessel(k)).one_sensor_high()
}

/// The first approach from `from` on at which a vessel waits; 2 where there
/// is none.
pub open spec fn next_waiting(intersection: IntersectionView, from: int) -> int {
    if from <= 0 && vessel_waits(intersection, 0) {
        0
    } else if from <= 1 && vessel_waits(intersection, 1) {
        1
    } else {
        2
    }
}

/// Where the sequence stands: what was done last and is being waited on.
#[derive(Clone, Copy, Debug, Eq, PartialEq, Structural)]
pub enum BridgePhase {
    /// The road is served; a vessel is waited for.
    Idle,
    /// The road light shows the transition.
    RoadWarn,
    /// The road light prohibits.
    RoadStop,
    /// The deck is not clear yet.
    Drain,
    /// The gates are closing.
    CloseGates,
    /// The deck is opening.
    OpenDeck,
    /// A vessel waits, but at none of the two approaches.
    AwaitVessels,
    /// The lights of an approach let vessels proceed; none is under the deck
    /// yet.
    VesselApproach(u8),
    /// A vessel from an approach is under the deck.
    VesselPassing(u8),
    /// The deck is closing.
    CloseDeck,
    /// The gates are opening.
    OpenGates,
    /// The road proceeds again.
    RoadGo,
    /// The sequence was stopped.
    Stopped,
}

/// What the runner waits for before its next step. A stop ends every wait.
#[derive(Clone, Copy, Debug, Eq, PartialEq, Structural)]
pub enum BridgeWait {
    /// A change of a sensor of a vessel group.
    Vessels,
    /// A change of the sensor above the deck.
    AboveDeck,
    /// A change of the sensor below the deck.
    BelowDeck,
    /// So many milliseconds.
    Timer(u64),
    /// Nothing: the runner has ended.
    Stop,
}

/// The outcome of a step: where the sequence stands now, what the
/// intersection is now, and what to wait for.
pub struct BridgeOutcome {
    pub phase: BridgePhase,
    pub intersection: IntersectionView,
    pub wait: BridgeWait,
}

/// The start of the sequence: the road is warned if a vessel waits.
pub open spec fn begin(intersection: IntersectionView, now: int) -> BridgeOutcome {
    if one_vessel_high(intersection) {
        BridgeOutcome {
            phase: BridgePhase::RoadWarn,
            intersection: intersection.set_light_state(
                road_light(),
                LightState::Transitioning,
                now,
            ),
            wait: BridgeWait::Timer(4000),
        }
    } else {
        BridgeOutcome { phase: BridgePhase::Idle, intersection, wait: BridgeWait::Vessels }
    }
}

/// After the road has stopped: the gates close as soon as the deck is clear.
pub open spec fn drain(intersection: IntersectionView, now: int) -> BridgeOutcome {
    if sensor_high(intersection, above_deck_sensor()) {
        BridgeOutcome { phase: BridgePhase::Drain, intersection, wait: BridgeWait::AboveDeck }
    } else {
        BridgeOutcome {
            phase: BridgePhase::CloseGates,
            intersection: intersection.set_gate_state(
                front_gate(),
                GateState::Close,
                now,
            ).set_gate_state(back_gate(), GateState::Close, now),
            wait: BridgeWait::Timer(4000),
        }
    }
}

/// The lights of the approach `k` let vessels proceed, and a vessel is waited
/// for under the deck.
pub open spec fn let_pass(intersection: IntersectionView, k: int, now: int) -> BridgeOutcome {
    let after = intersection.set_lights(main_vessel(k), LightState::Proceed, now);
    BridgeOutcome {
        phase: if sensor_high(intersection, below_deck_sensor()) {
            BridgePhase::VesselPassing(k as u8)
        } else {
            BridgePhase::VesselApproach(k as u8)
        },
        intersection: after,
        wait: BridgeWait::BelowDeck,
    }
}

/// With the deck open: the deck closes when no vessel waits any more; else
/// the next approach from `from` on at which a vessel waits is let through, or
/// the first one where there is none from `from` on.
pub open spec fn serve(intersection: IntersectionView, from: int, now: int) -> BridgeOutcome {
    if !one_vessel_high(intersection) {
        BridgeOutcome {
            phase: BridgePhase::CloseDeck,
            intersection: intersection.set_deck_state(bridge_deck(), DeckState::Close, now),
            wait: BridgeWait::Timer(10000),
        }
    } else if next_waiting(intersection, from) < 2 {
        let_pass(intersection, next_waiting(intersection, from), now)
    } else if next_waiting(intersection, 0) < 2 {
        let_pass(intersection, next_waiting(intersection, 0), now)
    } else {
        BridgeOutcome { phase: BridgePhase::AwaitVessels, intersection, wait: BridgeWait::Vessels }
    }
}

/// The approach that `k` stands for: the first for 0, the second for
/// anything else.
pub open spec fn approach(k: u8) -> int {
    if k == 0 {
        0
    } else {
        1
    }
}

/// What the runner does next: from `phase`, after the wait that the step
/// before asked for, at `now`. `stopped` says whether a stop was asked for.
pub open spec fn bridge_next(
    phase: BridgePhase,
    intersection: IntersectionView,
    stopped: bool,
    now: int,
) -> BridgeOutcome {
    if stopped {
        BridgeOutcome { phase: BridgePhase::Stopped, intersection, wait: BridgeWait::Stop }
    } else {
        match phase {
            BridgePhase::Idle => begin(intersection, now),
            BridgePhase::RoadGo => begin(intersection, now),
            BridgePhase::RoadWarn => BridgeOutcome {
                phase: BridgePhase::RoadStop,
                intersection: intersection.set_light_state(
                    road_light(),
                    LightState::Prohibit,
                    now,
                ),
                wait: BridgeWait::Timer(6000),
            },
            BridgePhase::RoadStop => drain(intersection, now),
            BridgePhase::Drain => drain(intersection, now),
            BridgePhase::CloseGates => BridgeOutcome {
                phase: BridgePhase::OpenDeck,
                intersection: intersection.set_deck_state(bridge_deck(), DeckState::Open, now),
                wait: BridgeWait::Timer(10000),
            },
            BridgePhase::OpenDeck => serve(intersection, 0, now),
            BridgePhase::AwaitVessels => serve(intersection, 0, now),
            BridgePhase::VesselApproach(k) => BridgeOutcome {
                phase: if sensor_high(intersection, below_deck_sensor()) {
                    BridgePhase::VesselPassing(k)
                } else {
                    BridgePhase::VesselApproach(k)
                },
                intersection,
                wait: BridgeWait::BelowDeck,
            },
            BridgePhase::VesselPassing(k) => if sensor_high(intersection, below_deck_sensor()) {
                BridgeOutcome {
                    phase: BridgePhase::VesselPassing(k),
                    intersection,
                    wait: BridgeWait::BelowDeck,
                }
            } else {
                serve(
                    intersection.set_lights(main_vessel(approach(k)), LightState::Prohibit, now),
                    approach(k) + 1,
                    now,
                )
            },
            BridgePhase::CloseDeck => BridgeOutcome {
                phase: BridgePhase::OpenGates,
                intersection: intersection.set_gate_state(
                    front_gate(),
                    GateState::Open,
                    now,
                ).set_gate_state(back_gate(), GateState::Open, now),
                wait: BridgeWait::Timer(4000),
            },
            BridgePhase::OpenGates => BridgeOutcome {
                phase: BridgePhase::RoadGo,
                intersection: intersection.set_light_state(road_light(), LightState::Proceed, now),
                wait: BridgeWait::Timer(30000),
            },
            BridgePhase::Stopped => BridgeOutcome {
                phase: BridgePhase::Stopped,
                intersection,
                wait: BridgeWait::Stop,
            },
        }
    }
}

/// Whether the intersection holds what the bridge is made of: the road light,
/// both gates and the deck.
pub open spec fn bridge_complete(intersection: IntersectionView) -> bool {
    &&& intersection.has_light(road_light())
    &&& intersection.has_gate(front_gate())
    &&& intersection.has_gate(back_gate())
    &&& intersection.has_deck(bridge_deck())
}

/// Whether the deck is open.
pub open spec fn deck_open(intersection: IntersectionView) -> bool {
    intersection.deck(bridge_deck()).state == DeckState::Open
}

/// Whether the road light prohibits.
pub open spec fn road_prohibited(intersection: IntersectionView) -> bool {
    intersection.light(road_light()).state == LightState::Prohibit
}

/// Whether the road is closed: its light prohibits and both gates are closed.
pub open spec fn road_closed(intersection: IntersectionView) -> bool {
    &&& road_prohibited(intersection)
    &&& intersection.gate(front_gate()).state == GateState::Close
    &&& intersection.gate(back_gate()).state == GateState::Close
}

/// Whether the bridge is safe: the deck is open only while the road is
/// closed.
pub open spec fn bridge_safe(intersection: IntersectionView) -> bool {
    deck_open(intersection) ==> road_closed(intersection)
}

/// Whether the bridge is as the sequence has left it when it stands at
/// `phase`. The deck is closed until the gates have closed and again from the
/// moment it is told to close; the road is closed from the moment its gates
/// close until the deck has closed again; and the road light prohibits from
/// the end of its warning until the gates have opened again.
pub open spec fn in_order(phase: BridgePhase, intersection: IntersectionView) -> bool {
    bridge_complete(intersection) && match phase {
        BridgePhase::Idle => !deck_open(intersection),
        BridgePhase::RoadWarn => !deck_open(intersection),
        BridgePhase::RoadGo => !deck_open(intersection),
        BridgePhase::RoadStop => !deck_open(intersection) && road_prohibited(intersection),
        BridgePhase::Drain => !deck_open(intersection) && road_prohibited(intersection),
        BridgePhase::OpenGates => !deck_open(intersection) && road_prohibited(intersection),
        BridgePhase::CloseGates => !deck_open(intersection) && road_closed(intersection),
        BridgePhase::CloseDeck => !deck_open(intersection) && road_closed(intersection),
        BridgePhase::OpenDeck => road_closed(intersection),
        BridgePhase::AwaitVessels => road_closed(intersection),
        BridgePhase::VesselApproach(_) => road_closed(intersection),
        BridgePhase::VesselPassing(_) => road_closed(intersection),
        BridgePhase::Stopped => bridge_safe(intersection),
    }
}

/// Setting the road light changes nothing else of the bridge.
pub proof fn lemma_road_light_set(intersection: IntersectionView, state: LightState, now: int)
    requires
        bridge_complete(intersection),
    ensures
        bridge_complete(intersection.set_light_state(road_light(), state, now)),
        intersection.set_light_state(road_light(), state, now).light(road_light()).state == state,
        intersection.set_light_state(road_light(), state, now).gate(front_gate())
            == intersection.gate(front_gate()),
        intersection.set_light_state(road_light(), state, now).gate(back_gate())
            == intersection.gate(back_gate()),
        intersection.set_light_state(road_light(), state, now).deck(bridge_deck())
            == intersection.deck(bridge_deck()),
{
    intersection.lemma_set_light_state(road_light(), state, now);
    intersection.lemma_set_light_state_frame(road_light(), state, now, front_gate());
    intersection.lemma_set_light_state_frame(road_light(), state, now, back_gate());
    intersection.lemma_set_light_state_frame(road_light(), state, now, bridge_deck());
}

/// Setting both gates changes nothing else of the bridge.
pub proof fn lemma_gates_set(intersection: IntersectionView, state: GateState, now: int)
    requires
        bridge_complete(intersection),
    ensures
        ({
            let after = intersection.set_gate_state(front_gate(), state, now).set_gate_state(
                back_gate(),
                state,
                now,
            );
            &&& bridge_complete(after)
            &&& after.gate(front_gate()).state == state
            &&& after.gate(back_gate()).state == state
            &&& after.light(road_light()) == intersection.light(road_light())
            &&& after.deck(bridge_deck()) == intersection.deck(bridge_deck())
        }),
{
    let middle = intersection.set_gate_state(front_gate(), state, now);
    intersection.lemma_set_gate_state(front_gate(), state, now);
    intersection.lemma_set_gate_state_frame(front_gate(), state, now, back_gate());
    intersection.lemma_set_gate_state_frame(front_gate(), state, now, road_light());
    intersection.lemma_set_gate_state_frame(front_gate(), state, now, bridge_deck());
    middle.lemma_set_gate_state(back_gate(), state, now);
    middle.lemma_set_gate_state_frame(back_gate(), state, now, front_gate());
    middle.lemma_set_gate_state_frame(back_gate(), state, now, road_light());
    middle.lemma_set_gate_state_frame(back_gate(), state, now, bridge_deck());
}

/// Setting the deck changes nothing else of the bridge.
pub proof fn lemma_deck_set(intersection: IntersectionView, state: DeckState, now: int)
    requires
        bridge_complete(intersection),
    ensures
        bridge_complete(intersection.set_deck_state(bridge_deck(), state, now)),
        intersection.set_deck_state(bridge_deck(), state, now).deck(bridge_deck()).state == state,
        intersection.set_deck_state(bridge_deck(), state, now).gate(front_gate())
            == intersection.gate(front_gate()),
        intersection.set_deck_state(bridge_deck(), state, now).gate(back_gate())
            == intersection.gate(back_gate()),
        intersection.set_deck_state(bridge_deck(), state, now).light(road_light())
            == intersection.light(road_light()),
{
    intersection.lemma_set_deck_state(bridge_deck(), state, now);
    intersection.lemma_set_deck_state_frame(bridge_deck(), state, now, front_gate());
    intersection.lemma_set_deck_state_frame(bridge_deck(), state, now, back_gate());
    intersection.lemma_set_deck_state_frame(bridge_deck(), state, now, road_light());
}

/// Setting the lights of an approach changes nothing of the bridge.
pub proof fn lemma_vessel_lights_set(
    intersection: IntersectionView,
    k: int,
    state: LightState,
    now: int,
)
    requires
        bridge_complete(intersection),
    ensures
        ({
            let after = intersection.set_lights(main_vessel(k), state, now);
            &&& bridge_complete(after)
            &&& after.light(road_light()) == intersection.light(road_light())
            &&& after.gate(front_gate()) == intersection.gate(front_gate())
            &&& after.gate(back_gate()) == intersection.gate(back_gate())
            &&& after.deck(bridge_deck()) == intersection.deck(bridge_deck())
        }),
{
    intersection.lemma_set_lights_frame(main_vessel(k), state, now, road_light());
    intersection.lemma_set_lights_frame(main_vessel(k), state, now, front_gate());
    intersection.lemma_set_lights_frame(main_vessel(k), state, now, back_gate());
    intersection.lemma_set_lights_frame(main_vessel(k), state, now, bridge_deck());
}

/// A sensor that is set changes nothing of the bridge: what the simulator
/// reports between two steps leaves the bridge as the sequence has left it.
pub proof fn lemma_sensor_keeps_order(
    phase: BridgePhase,
    intersection: IntersectionView,
    uid: ComponentUid,
    state: SensorState,
    now: int,
)
    requires
        in_order(phase, intersection),
    ensures
        in_order(phase, intersection.set_sensor_state(uid, state, now)),
{
    intersection.lemma_set_sensor_state_frame(uid, state, now, road_light());
    intersection.lemma_set_sensor_state_frame(uid, state, now, front_gate());
    intersection.lemma_set_sensor_state_frame(uid, state, now, back_gate());
    intersection.lemma_set_sensor_state_frame(uid, state, now, bridge_deck());
}

/// Serving vessels keeps the road closed, and closes the deck when it ends.
pub proof fn lemma_serve_safe(intersection: IntersectionView, from: int, now: int)
    requires
        bridge_complete(intersection),
        road_closed(intersection),
    ensures
        in_order(serve(intersection, from, now).phase, serve(intersection, from, now).intersection),
{
    lemma_deck_set(intersection, DeckState::Close, now);
    lemma_vessel_lights_set(intersection, 0, LightState::Proceed, now);
    lemma_vessel_lights_set(intersection, 1, LightState::Proceed, now);
}

/// The bridge is never open to vessels and to the road at once: every step
/// of the sequence leaves the bridge as the sequence has to leave it, and so
/// the deck open only while both gates are closed and the road light
/// prohibits. A stop leaves the bridge as it stands.
pub proof fn lemma_bridge_next_safe(
    phase: BridgePhase,
    intersection: IntersectionView,
    stopped: bool,
    now: int,
)
    requires
        in_order(phase, intersection),
    ensures
        in_order(
            bridge_next(phase, intersection, stopped, now).phase,
            bridge_next(phase, intersection, stopped, now).intersection,
        ),
        bridge_safe(bridge_next(phase, intersection, stopped, now).intersection),
{
    if !stopped {
        match phase {
            BridgePhase::Idle => {
                lemma_road_light_set(intersection, LightState::Transitioning, now);
            },
            BridgePhase::RoadGo => {
                lemma_road_light_set(intersection, LightState::Transitioning, now);
            },
            BridgePhase::RoadWarn => {
                lemma_road_light_set(intersection, LightState::Prohibit, now);
            },
            BridgePhase::RoadStop => {
                lemma_gates_set(intersection, GateState::Close, now);
            },
            BridgePhase::Drain => {
                lemma_gates_set(intersection, GateState::Close, now);
            },
            BridgePhase::CloseGates => {
                lemma_deck_set(intersection, DeckState::Open, now);
            },
            BridgePhase::OpenDeck => {
                lemma_serve_safe(intersection, 0, now);
            },
            BridgePhase::AwaitVessels => {
                lemma_serve_safe(intersection, 0, now);
            },
            BridgePhase::VesselApproach(_) => {},
            BridgePhase::VesselPassing(k) => {
                lemma_vessel_lights_set(intersection, approach(k), LightState::Prohibit, now);
                lemma_serve_safe(
                    intersection.set_lights(main_vessel(approach(k)), LightState::Prohibit, now),
                    approach(k) + 1,
                    now,
                );
            },
            BridgePhase::CloseDeck => {
                lemma_gates_set(intersection, GateState::Open, now);
            },
            BridgePhase::OpenGates => {
                lemma_road_light_set(intersection, LightState::Proceed, now);
            },
            BridgePhase::Stopped => {},
        }
    }
}

/// Whatever the runner does next, it keeps a sound intersection sound.
pub proof fn lemma_bridge_next_sound(
    phase: BridgePhase,
    intersection: IntersectionView,
    stopped: bool,
    now: int,
)
    requires
        intersection.sound(),
    ensures
        bridge_next(phase, intersection, stopped, now).intersection.sound(),
{
    intersection.lemma_set_light_state_sound(road_light(), LightState::Transitioning, now);
    intersection.lemma_set_light_state_sound(road_light(), LightState::Prohibit, now);
    intersection.lemma_set_light_state_sound(road_light(), LightState::Proceed, now);
    intersection.lemma_set_gate_state_sound(front_gate(), GateState::Close, now);
    intersection.set_gate_state(front_gate(), GateState::Close, now).lemma_set_gate_state_sound(
        back_gate(),
        GateState::Close,
        now,
    );
    intersection.lemma_set_gate_state_sound(front_gate(), GateState::Open, now);
    intersection.set_gate_state(front_gate(), GateState::Open, now).lemma_set_gate_state_sound(
        back_gate(),
        GateState::Open,
        now,
    );
    intersection.lemma_set_deck_state_sound(bridge_deck(), DeckState::Open, now);
    lemma_serve_sound(intersection, 0, now);
    match phase {
        BridgePhase::VesselPassing(k) => {
            intersection.lemma_set_lights_sound(
                main_vessel(approach(k)),
                LightState::Prohibit,
                now,
            );
            lemma_serve_sound(
                intersection.set_lights(main_vessel(approach(k)), LightState::Prohibit, now),
                approach(k) + 1,
                now,
            );
        },
        _ => {},
    }
}

/// Serving vessels keeps a sound intersection sound.
pub proof fn lemma_serve_sound(intersection: IntersectionView, from: int, now: int)
    requires
        intersection.sound(),
    ensures
        serve(intersection, from, now).intersection.sound(),
{
    intersection.lemma_set_deck_state_sound(bridge_deck(), DeckState::Close, now);
    intersection.lemma_set_lights_sound(main_vessel(0), LightState::Proceed, now);
    intersection.lemma_set_lights_sound(main_vessel(1), LightState::Proceed, now);
}

/// Takes the bridge through its sequence.
pub struct BridgeRunner {
    pub phase: BridgePhase,
}

impl BridgeRunner {
    /// A runner at the start of the sequence.
    pub fn new() -> (runner: Self)
        ensures
            runner.phase == BridgePhase::Idle,
    {
        Self { phase: BridgePhase::Idle }
    }

    /// The bridge group.
    fn bridge_group() -> (id: GroupId)
        ensures
            id == bridge_group(),
    {
        GroupId { kind: GroupKind::Bridge, id: 1 }
    }

    /// The component `kind`/`id` of the bridge group.
    fn bridge_component(kind: ComponentKind, id: i32) -> (uid: ComponentUid)
        ensures
            uid == (ComponentUid {
                group_id: bridge_group(),
                component_id: ComponentId { kind, id },
            }),
    {
        ComponentUid { group_id: Self::bridge_group(), component_id: ComponentId { kind, id } }
    }

    /// The approach `k`.
    fn main_vessel(k: u8) -> (id: GroupId)
        ensures
            id == main_vessel(approach(k)),
    {
        if k == 0 {
            GroupId { kind: GroupKind::Vessel, id: 1 }
        } else {
            GroupId { kind: GroupKind::Vessel, id: 2 }
        }
    }

    /// The two approaches that the intersection holds, first before second.
    pub fn main_vessels(intersection: &Intersection) -> (ids: Vec<GroupId>)
        ensures
            ids@ == (if intersection@.has_group(main_vessel(0)) {
                seq![main_vessel(0)]
            } else {
                Seq::<GroupId>::empty()
            }) + (if intersection@.has_group(main_vessel(1)) {
                seq![main_vessel(1)]
            } else {
                Seq::<GroupId>::empty()
            }),
    {
        let mut ids: Vec<GroupId> = Vec::new();
        if intersection.find_group(Self::main_vessel(0)).is_some() {
            ids.push(Self::main_vessel(0));
        }
        if intersection.find_group(Self::main_vessel(1)).is_some() {
            ids.push(Self::main_vessel(1));
        }
        ids
    }

    /// Whether some vessel group has a `High` sensor.
    pub fn one_vessel_high(intersection: &Intersection) -> (high: bool)
        ensures
            high == one_vessel_high(intersection@),
    {
        let mut i: usize = 0;
        while i < intersection.groups.len()
            invariant
                i <= intersection.groups.len(),
                forall|j: int|
                    0 <= j < i ==> !((#[trigger] intersection@.groups[j]).id.kind
                        == GroupKind::Vessel && intersection@.groups[j].one_sensor_high()),
            decreases intersection.groups.len() - i,
        {
            if intersection.groups[i].id.kind == GroupKind::Vessel
                && intersection.groups[i].one_sensor_high() {
                assert(intersection@.groups[i as int].id.kind == GroupKind::Vessel
                    && intersection@.groups[i as int].one_sensor_high());
                return true;
            }
            i += 1;
        }
        false
    }

    /// Whether the sensor `uid` exists and is `High`.
    fn sensor_high(intersection: &Intersection, uid: ComponentUid) -> (high: bool)
        ensures
            high == sensor_high(intersection@, uid),
    {
        match intersection.find_sensor(uid) {
            Some(sensor) => sensor.state() == SensorState::High,
            None => false,
        }
    }

    /// Whether the sensor below the deck exists and is `High`.
    fn below_deck_high(intersection: &Intersection) -> (high: bool)
        ensures
            high == sensor_high(intersection@, below_deck_sensor()),
    {
        Self::sensor_high(
            intersection,
            ComponentUid::new(GroupKind::Vessel, 3, ComponentKind::Sensor, 1),
        )
    }

    /// Whether a vessel waits at the approach `k`.
    fn vessel_waits(intersection: &Intersection, k: u8) -> (waits: bool)
        ensures
            waits == vessel_waits(intersection@, approach(k)),
    {
        match intersection.find_group(Self::main_vessel(k)) {
            Some(group) => group.one_sensor_high(),
            None => false,
        }
    }

    /// The first approach from `from` on at which a vessel waits; 2 where
    /// there is none.
    fn next_waiting(intersection: &Intersection, from: u8) -> (k: u8)
        ensures
            k == next_waiting(intersection@, from as int),
    {
        if from == 0 && Self::vessel_waits(intersection, 0) {
            0
        } else if from <= 1 && Self::vessel_waits(intersection, 1) {
            1
        } else {
            2
        }
    }

    /// The start of the sequence.
    fn begin(&mut self, intersection: &mut Intersection, now: i64) -> (wait: BridgeWait)
        ensures
            (BridgeOutcome { phase: final(self).phase, intersection: final(intersection)@, wait })
                == begin(old(intersection)@, now as int),
    {
        if Self::one_vessel_high(intersection) {
            intersection.set_light_state(
                Self::bridge_component(ComponentKind::Light, 1),
                LightState::Transitioning,
                now,
            );
            self.phase = BridgePhase::RoadWarn;
            BridgeWait::Timer(ROAD_WARN_MILLIS)
        } else {
            self.phase = BridgePhase::Idle;
            BridgeWait::Vessels
        }
    }

    /// After the road has stopped.
    fn drain(&mut self, intersection: &mut Intersection, now: i64) -> (wait: BridgeWait)
        ensures
            (BridgeOutcome { phase: final(self).phase, intersection: final(intersection)@, wait })
                == drain(old(intersection)@, now as int),
    {
        if Self::sensor_high(intersection, Self::bridge_component(ComponentKind::Sensor, 1)) {
            self.phase = BridgePhase::Drain;
            BridgeWait::AboveDeck
        } else {
            intersection.set_gate_state(
                Self::bridge_component(ComponentKind::Gate, 1),
                GateState::Close,
                now,
            );
            intersection.set_gate_state(
                Self::bridge_component(ComponentKind::Gate, 2),
                GateState::Close,
                now,
            );
            self.phase = BridgePhase::CloseGates;
            BridgeWait::Timer(GATES_MILLIS)
        }
    }

    /// Lets vessels pass from the approach `k`.
    fn let_pass(&mut self, intersection: &mut Intersection, k: u8, now: i64) -> (wait: BridgeWait)
        requires
            k < 2,
        ensures
            (BridgeOutcome { phase: final(self).phase, intersection: final(intersection)@, wait })
                == let_pass(old(intersection)@, k as int, now as int),
    {
        let passing = Self::below_deck_high(intersection);
        intersection.set_lights(Self::main_vessel(k), LightState::Proceed, now);
        self.phase = if passing {
            BridgePhase::VesselPassing(k)
        } else {
            BridgePhase::VesselApproach(k)
        };
        BridgeWait::BelowDeck
    }

    /// With the deck open.
    fn serve(&mut self, intersection: &mut Intersection, from: u8, now: i64) -> (wait: BridgeWait)
        requires
            from <= 2,
        ensures
            (BridgeOutcome { phase: final(self).phase, intersection: final(intersection)@, wait })
                == serve(old(intersection)@, from as int, now as int),
    {
        if !Self::one_vessel_high(intersection) {
            intersection.set_deck_state(
                Self::bridge_component(ComponentKind::Deck, 1),
                DeckState::Close,
                now,
            );
            self.phase = BridgePhase::CloseDeck;
            return BridgeWait::Timer(DECK_MILLIS);
        }
        let k = Self::next_waiting(intersection, from);
        if k < 2 {
            return self.let_pass(intersection, k, now);
        }
        let first = Self::next_waiting(intersection, 0);
        if first < 2 {
            return self.let_pass(intersection, first, now);
        }
        self.phase = BridgePhase::AwaitVessels;
        BridgeWait::Vessels
    }

    /// The next step of the sequence, at `now`, after the wait that the step
    /// before asked for. `stopped` says whether a stop was asked for.
    pub fn advance(&mut self, intersection: &mut Intersection, stopped: bool, now: i64) -> (wait:
        BridgeWait)
        ensures
            (BridgeOutcome { phase: final(self).phase, intersection: final(intersection)@, wait })
                == bridge_next(old(self).phase, old(intersection)@, stopped, now as int),
            old(intersection)@.sound() ==> final(intersection)@.sound(),
            in_order(old(self).phase, old(intersection)@) ==> in_order(
                final(self).phase,
                final(intersection)@,
            ) && bridge_safe(final(intersection)@),
    {
        proof {
            if old(intersection)@.sound() {
                lemma_bridge_next_sound(old(self).phase, old(intersection)@, stopped, now as int);
            }
            if in_order(old(self).phase, old(intersection)@) {
                lemma_bridge_next_safe(old(self).phase, old(intersection)@, stopped, now as int);
            }
        }
        if stopped {
            self.phase = BridgePhase::Stopped;
            return BridgeWait::Stop;
        }
        match self.phase {
            BridgePhase::Idle => self.begin(intersection, now),
            BridgePhase::RoadGo => self.begin(intersection, now),
            BridgePhase::RoadWarn => {
                intersection.set_light_state(
                    Self::bridge_component(ComponentKind::Light, 1),
                    LightState::Prohibit,
                    now,
                );
                self.phase = BridgePhase::RoadStop;
                BridgeWait::Timer(ROAD_STOP_MILLIS)
            },
            BridgePhase::RoadStop => self.drain(intersection, now),
            BridgePhase::Drain => self.drain(intersection, now),
            BridgePhase::CloseGates => {
                intersection.set_deck_state(
                    Self::bridge_component(ComponentKind::Deck, 1),
                    DeckState::Open,
                    now,
                );
                self.phase = BridgePhase::OpenDeck;
                BridgeWait::Timer(DECK_MILLIS)
            },
            BridgePhase::OpenDeck => self.serve(intersection, 0, now),
            BridgePhase::AwaitVessels => self.serve(intersection, 0, now),
            BridgePhase::VesselApproach(k) => {
                if Self::below_deck_high(intersection) {
                    self.phase = BridgePhase::VesselPassing(k);
                }
                BridgeWait::BelowDeck
            },
            BridgePhase::VesselPassing(k) => {
                if Self::below_deck_high(intersection) {
                    BridgeWait::BelowDeck
                } else {
                    intersection.set_lights(Self::main_vessel(k), LightState::Prohibit, now);
                    let next: u8 = if k == 0 {
                        1
                    } else {
                        2
                    };
                    self.serve(intersection, next, now)
                }
            },
            BridgePhase::CloseDeck => {
                intersection.set_gate_state(
                    Self::bridge_component(ComponentKind::Gate, 1),
                    GateState::Open,
                    now,
                );
                intersection.set_gate_state(
                    Self::bridge_component(ComponentKind::Gate, 2),
                    GateState::Open,
                    now,
                );
                self.phase = BridgePhase::OpenGates;
                BridgeWait::Timer(GATES_MILLIS)
            },
            BridgePhase::OpenGates => {
                intersection.set_light_state(
                    Self::bridge_component(ComponentKind::Light, 1),
                    LightState::Proceed,
                    now,
                );
                self.phase = BridgePhase::RoadGo;
                BridgeWait::Timer(ROAD_GO_MILLIS)
            },
            BridgePhase::Stopped => BridgeWait::Stop,
        }
    }
}

} // verus!
