//! The supervisor: routes inbound messages, resets the installation and
//! keeps track of whether the runners run.
//!
//! A lifecycle message of the simulator restarts or halts the runners; a
//! component message sets the sensor that it is about. Anything else is
//! passed over.
use crate::config::Config;
use crate::control::bridge_runner::{BridgePhase, BridgeRunner};
use crate::control::message_publisher::Message;
use crate::control::state_publisher::{publication, ComponentNotFound, StatePublisher};
use crate::control::traffic_lights_runner::{SchedulerStep, TrafficLightsRunner};
use crate::intersections::component::{ComponentState, ComponentUid};
use crate::intersections::group::GroupKind;
use crate::intersections::intersection::{
    sensors_of, Intersection, IntersectionView, Notification,
};
use crate::intersections::sensor::{SensorState, SensorStateError};
use crate::io::client::AnyTopic;
use crate::io::topics::component_topic::ComponentTopic;
use crate::io::topics::lifecycle_topic::{Device, Handler, LifeCycleTopic};
use crate::text::{parse_i32_str, parse_int, split};
use std::convert::TryFrom;
use vstd::prelude::*;

verus! {

/// What a lifecycle message asks the supervisor to do.
#[derive(Clone, Copy, Debug, Eq, PartialEq, Structural)]
pub enum LifeCycleAction {
    /// Stop the runners if they run, reset every group, start the runners.
    Restart,
    /// Stop the runners if they run, and reset every group.
    Halt,
    /// Nothing.
    Ignore,
}

/// Why a component message was not taken.
#[derive(Clone, Copy, Debug, Eq, PartialEq, Structural)]
pub enum ComponentMessageError {
    /// The payload is no number of 32 bits.
    InvalidPayload,
    /// The payload is the code of no sensor state.
    InvalidState(SensorStateError),
}

/// What became of an inbound message.
#[derive(Clone, Copy, Debug, Eq, PartialEq)]
pub enum Routed {
    /// It was a lifecycle message, and this is what it asks for.
    LifeCycle(LifeCycleAction),
    /// It was a component message, and it was taken or not.
    Component(Result<(), ComponentMessageError>),
    /// Its topic is neither a lifecycle topic nor a component topic.
    Ignored,
}

/// What a lifecycle message under `topic` asks for: the simulator's connect
/// restarts, the simulator's disconnect halts, and the controller's own
/// messages ask for nothing.
pub open spec fn life_cycle_action(topic: LifeCycleTopic) -> LifeCycleAction {
    if topic.device == Device::Simulator && topic.handler == Handler::Connect {
        LifeCycleAction::Restart
    } else if topic.device == Device::Simulator && topic.handler == Handler::Disconnect {
        LifeCycleAction::Halt
    } else {
        LifeCycleAction::Ignore
    }
}

/// The sensor state that the payload `payload` stands for: the state whose
/// code the payload is, as a decimal number.
pub open spec fn payload_state(payload: Seq<char>) -> Result<SensorState, ComponentMessageError> {
    match parse_int(payload) {
        None => Err(ComponentMessageError::InvalidPayload),
        Some(code) => match SensorState::decoded(code) {
            Some(state) => Ok(state),
            None => Err(
                ComponentMessageError::InvalidState(
                    SensorStateError::CouldNotConvert { value: code as i32 },
                ),
            ),
        },
    }
}

/// The component topics of `uids`, with no team set, in order.
pub open spec fn topics_of(uids: Seq<ComponentUid>) -> Seq<AnyTopic> {
    uids.map_values(|uid: ComponentUid| AnyTopic::Component(ComponentTopic { team_id: None, uid }))
}

/// The two lifecycle topics that the supervisor listens to: the simulator's
/// connect and the simulator's disconnect.
pub open spec fn life_cycle_topics() -> Seq<AnyTopic> {
    seq![
        AnyTopic::LifeCycle(
            LifeCycleTopic { team_id: None, device: Device::Simulator, handler: Handler::Connect },
        ),
        AnyTopic::LifeCycle(
            LifeCycleTopic {
                team_id: None,
                device: Device::Simulator,
                handler: Handler::Disconnect,
            },
        ),
    ]
}

/// What is published for the first `n` of `notifications`, in order: one
/// entry for every notification that leads to a publication.
pub open spec fn messages_for(
    notifications: Seq<Notification>,
    n: int,
    traffic_light: IntersectionView,
    bridge: IntersectionView,
) -> Seq<Result<(AnyTopic, Seq<u8>), ComponentNotFound>>
    decreases n,
{
    if n <= 0 {
        Seq::empty()
    } else {
        let before = messages_for(notifications, n - 1, traffic_light, bridge);
        match publication(notifications[n - 1], traffic_light, bridge) {
            Ok(None) => before,
            Ok(Some(m)) => before.push(Ok(m)),
            Err(e) => before.push(Err(e)),
        }
    }
}

/// The view of what is to be published.
pub open spec fn message_views(list: Seq<Result<Message, ComponentNotFound>>) -> Seq<
    Result<(AnyTopic, Seq<u8>), ComponentNotFound>,
> {
    list.map_values(
        |r: Result<Message, ComponentNotFound>|
            match r {
                Ok(m) => Ok((m.topic, m.payload@)),
                Err(e) => Err(e),
            },
    )
}

/// A text is never both a lifecycle topic and a component topic.
pub proof fn lemma_topics_exclusive(s: Seq<char>)
    ensures
        !(LifeCycleTopic::parsed(s).is_ok() && ComponentTopic::parsed(s).is_ok()),
{
    reveal_strlit("features");
    reveal_strlit("motor_vehicle");
    reveal_strlit("cycle");
    reveal_strlit("foot");
    reveal_strlit("vessel");
    reveal_strlit("bridge");
    if LifeCycleTopic::parsed(s).is_ok() {
        let parts = split(s, '/');
        assert(parts[1] == "features"@);
        assert(parts[1].len() == 8);
        assert(GroupKind::named(parts[1]).is_none());
    }
}

/// The supervisor of one installation: a road intersection and a bridge.
pub struct Controller {
    pub traffic_lights: Intersection,
    pub bridge: Intersection,
    pub traffic_lights_runner: TrafficLightsRunner,
    pub bridge_runner: BridgeRunner,
    pub state_publisher: StatePublisher,
    pub runners_started: bool,
}

impl Controller {
    /// A supervisor of `traffic_lights` and `bridge` whose runners do not run
    /// yet, with the phase times of `config`.
    pub fn new(traffic_lights: Intersection, bridge: Intersection, config: Config) -> (controller:
        Self)
        ensures
            controller.traffic_lights == traffic_lights,
            controller.bridge == bridge,
            controller.traffic_lights_runner.groups_config == config.groups,
            controller.traffic_lights_runner.step == SchedulerStep::Waiting,
            controller.bridge_runner.phase == BridgePhase::Idle,
            !controller.runners_started,
    {
        Self {
            traffic_lights,
            bridge,
            traffic_lights_runner: TrafficLightsRunner::new(config.groups),
            bridge_runner: BridgeRunner::new(),
            state_publisher: StatePublisher::new(),
            runners_started: false,
        }
    }

    /// The topics to subscribe to: those of the sensors of the road
    /// intersection, those of the sensors of the bridge, and the two
    /// lifecycle topics of the simulator, none with a team set.
    pub fn subscriptions(&self) -> (topics: Vec<AnyTopic>)
        ensures
            topics@ == topics_of(
                sensors_of(self.traffic_lights@.groups, self.traffic_lights@.groups.len() as int),
            ) + topics_of(sensors_of(self.bridge@.groups, self.bridge@.groups.len() as int))
                + life_cycle_topics(),
    {
        let mut topics: Vec<AnyTopic> = Vec::new();
        let road = self.traffic_lights.sensors();
        let mut i: usize = 0;
        while i < road.len()
            invariant
                i <= road.len(),
                topics@ == topics_of(road@).take(i as int),
            decreases road.len() - i,
        {
            topics.push(AnyTopic::Component(ComponentTopic::from(road[i])));
            assert(topics_of(road@).take(i + 1) =~= topics_of(road@).take(i as int).push(
                topics_of(road@)[i as int],
            ));
            i += 1;
        }
        assert(topics_of(road@).take(i as int) =~= topics_of(road@));
        let water = self.bridge.sensors();
        let mut j: usize = 0;
        while j < water.len()
            invariant
                j <= water.len(),
                topics@ == topics_of(road@) + topics_of(water@).take(j as int),
            decreases water.len() - j,
        {
            topics.push(AnyTopic::Component(ComponentTopic::from(water[j])));
            assert(topics_of(water@).take(j + 1) =~= topics_of(water@).take(j as int).push(
                topics_of(water@)[j as int],
            ));
            j += 1;
        }
        assert(topics_of(water@).take(j as int) =~= topics_of(water@));
        topics.push(AnyTopic::LifeCycle(LifeCycleTopic::new(Device::Simulator, Handler::Connect)));
        topics.push(
            AnyTopic::LifeCycle(LifeCycleTopic::new(Device::Simulator, Handler::Disconnect)),
        );
        assert(topics@ =~= topics_of(road@) + topics_of(water@) + life_cycle_topics());
        topics
    }

    /// Routes an inbound message that came at `now`: a lifecycle topic gives
    /// what it asks for, a component topic sets its sensor, and any other
    /// topic is passed over.
    pub fn handle_message(&mut self, topic: &str, payload: &str, now: i64) -> (routed: Routed)
        ensures
            routed == match LifeCycleTopic::parsed(topic@) {
                Ok(t) => Routed::LifeCycle(life_cycle_action(t)),
                Err(_) => match ComponentTopic::parsed(topic@) {
                    Ok(_) => Routed::Component(
                        match payload_state(payload@) {
                            Ok(_) => Ok::<(), ComponentMessageError>(()),
                            Err(e) => Err::<(), ComponentMessageError>(e),
                        },
                    ),
                    Err(_) => Routed::Ignored,
                },
            },
            match (LifeCycleTopic::parsed(topic@), ComponentTopic::parsed(topic@), payload_state(payload@)) {
                (Err(_), Ok(t), Ok(state)) => final(self).traffic_lights@ == old(self).traffic_lights@.set_sensor_state(t.uid, state, now as int) && final(self).bridge@
                    == old(self).bridge@.set_sensor_state(t.uid, state, now as int),
                _ => final(self).traffic_lights@ == old(self).traffic_lights@ && final(self).bridge@ == old(self).bridge@,
            },
            final(self).runners_started == old(self).runners_started,
            final(self).bridge_runner == old(self).bridge_runner,
            final(self).traffic_lights_runner == old(self).traffic_lights_runner,
            old(self).traffic_lights@.sound() ==> final(self).traffic_lights@.sound(),
            old(self).bridge@.sound() ==> final(self).bridge@.sound(),
    {
        match LifeCycleTopic::try_from(topic) {
            Ok(t) => {
                return Routed::LifeCycle(self.handle_life_cycle_message(t));
            },
            Err(_) => {},
        }
        match ComponentTopic::try_from(topic) {
            Ok(t) => Routed::Component(self.handle_component_message(t, payload, now)),
            Err(_) => Routed::Ignored,
        }
    }

    /// What the lifecycle message under `topic` asks for.
    pub fn handle_life_cycle_message(&self, topic: LifeCycleTopic) -> (action: LifeCycleAction)
        ensures
            action == life_cycle_action(topic),
    {
        if topic.device == Device::Simulator && topic.handler == Handler::Connect {
            LifeCycleAction::Restart
        } else if topic.device == Device::Simulator && topic.handler == Handler::Disconnect {
            LifeCycleAction::Halt
        } else {
            LifeCycleAction::Ignore
        }
    }

    /// Takes the component message under `topic` that came at `now`: the
    /// payload is read as the code of a sensor state, and the sensor of the
    /// topic is set to it in whichever intersection holds it. A payload that
    /// is no such code changes nothing.
    pub fn handle_component_message(&mut self, topic: ComponentTopic, payload: &str, now: i64) -> (result:
        Result<(), ComponentMessageError>)
        ensures
            match payload_state(payload@) {
                Ok(state) => result == Ok::<(), ComponentMessageError>(()) && final(self).traffic_lights@ == old(self).traffic_lights@.set_sensor_state(topic.uid, state, now as int) && final(self).bridge@ == old(self).bridge@.set_sensor_state(topic.uid, state, now as int),
                Err(e) => result == Err::<(), ComponentMessageError>(e) && final(self).traffic_lights@ == old(self).traffic_lights@ && final(self).bridge@ == old(self).bridge@,
            },
            final(self).runners_started == old(self).runners_started,
            final(self).bridge_runner == old(self).bridge_runner,
            final(self).traffic_lights_runner == old(self).traffic_lights_runner,
            old(self).traffic_lights@.sound() ==> final(self).traffic_lights@.sound(),
            old(self).bridge@.sound() ==> final(self).bridge@.sound(),
    {
        let code = match parse_i32_str(payload) {
            Some(code) => code,
            None => {
                return Err(ComponentMessageError::InvalidPayload);
            },
        };
        let state = match SensorState::try_from(code) {
            Ok(state) => state,
            Err(e) => {
                return Err(ComponentMessageError::InvalidState(e));
            },
        };
        self.traffic_lights.set_sensor_state(topic.uid, state, now);
        self.bridge.set_sensor_state(topic.uid, state, now);
        Ok(())
    }

    /// Resets every group of both intersections at `now`: all components, then
    /// the score.
    pub fn reset(&mut self, now: i64)
        ensures
            final(self).traffic_lights@ == old(self).traffic_lights@.reset_all(now as int),
            final(self).bridge@ == old(self).bridge@.reset_all(now as int),
            final(self).runners_started == old(self).runners_started,
            final(self).bridge_runner == old(self).bridge_runner,
            final(self).traffic_lights_runner == old(self).traffic_lights_runner,
            old(self).traffic_lights@.sound() ==> final(self).traffic_lights@.sound(),
            old(self).bridge@.sound() ==> final(self).bridge@.sound(),
    {
        self.traffic_lights.reset_all(now);
        self.bridge.reset_all(now);
    }

    /// Notes that the runners are stopped. Says whether they ran: only then
    /// is there anything to stop and to wait for.
    pub fn stop_runners(&mut self) -> (ran: bool)
        ensures
            ran == old(self).runners_started,
            !final(self).runners_started,
            final(self).traffic_lights == old(self).traffic_lights,
            final(self).bridge == old(self).bridge,
            final(self).bridge_runner == old(self).bridge_runner,
            final(self).traffic_lights_runner == old(self).traffic_lights_runner,
    {
        let ran = self.runners_started;
        self.runners_started = false;
        ran
    }

    /// Notes that the runners are started: the bridge at the start of its
    /// sequence, the scheduler waiting for its first tick.
    pub fn start_runners(&mut self)
        ensures
            final(self).runners_started,
            final(self).bridge_runner.phase == BridgePhase::Idle,
            final(self).traffic_lights_runner.step == SchedulerStep::Waiting,
            final(self).traffic_lights_runner.groups_config == old(self).traffic_lights_runner.groups_config,
            final(self).traffic_lights == old(self).traffic_lights,
            final(self).bridge == old(self).bridge,
    {
        self.bridge_runner = BridgeRunner::new();
        self.traffic_lights_runner.step = SchedulerStep::Waiting;
        self.runners_started = true;
    }

    /// What follows a lifecycle message once the runners are stopped, at
    /// `now`: a restart resets every group and notes the runners as started,
    /// a halt resets every group, and anything else changes nothing. Says
    /// whether the runners are to be started.
    pub fn after_stop(&mut self, action: LifeCycleAction, now: i64) -> (start: bool)
        ensures
            start == (action == LifeCycleAction::Restart),
            final(self).runners_started == match action {
                LifeCycleAction::Restart => true,
                LifeCycleAction::Halt => false,
                LifeCycleAction::Ignore => old(self).runners_started,
            },
            action == LifeCycleAction::Ignore ==> final(self).traffic_lights@ == old(self).traffic_lights@ && final(self).bridge@ == old(self).bridge@,
            action != LifeCycleAction::Ignore ==> final(self).traffic_lights@ == old(self).traffic_lights@.reset_all(now as int) && final(self).bridge@ == old(self).bridge@.reset_all(now as int),
            start ==> final(self).bridge_runner.phase == BridgePhase::Idle && final(self).traffic_lights_runner.step == SchedulerStep::Waiting,
            final(self).traffic_lights_runner.groups_config == old(self).traffic_lights_runner.groups_config,
            old(self).traffic_lights@.sound() ==> final(self).traffic_lights@.sound(),
            old(self).bridge@.sound() ==> final(self).bridge@.sound(),
    {
        match action {
            LifeCycleAction::Restart => {
                self.reset(now);
                self.start_runners();
                true
            },
            LifeCycleAction::Halt => {
                self.reset(now);
                self.runners_started = false;
                false
            },
            LifeCycleAction::Ignore => false,
        }
    }

    /// What is to be published for `notifications`, in order: for every state
    /// of an actuator that was set, a message with its current state, or an
    /// error where no intersection holds the actuator.
    pub fn messages(&self, notifications: &Vec<Notification>) -> (list: Vec<
        Result<Message, ComponentNotFound>,
    >)
        ensures
            message_views(list@) == messages_for(
                notifications@,
                notifications@.len() as int,
                self.traffic_lights@,
                self.bridge@,
            ),
    {
        let mut list: Vec<Result<Message, ComponentNotFound>> = Vec::new();
        let mut i: usize = 0;
        assert(message_views(list@) =~= messages_for(
            notifications@,
            0,
            self.traffic_lights@,
            self.bridge@,
        ));
        while i < notifications.len()
            invariant
                i <= notifications.len(),
                message_views(list@) == messages_for(
                    notifications@,
                    i as int,
                    self.traffic_lights@,
                    self.bridge@,
                ),
            decreases notifications.len() - i,
        {
            let ghost before = list@;
            match self.state_publisher.message(notifications[i], &self.traffic_lights, &self.bridge) {
                Ok(None) => {},
                Ok(Some(message)) => {
                    let ghost view = (message.topic, message.payload@);
                    list.push(Ok(message));
                    assert(message_views(list@) =~= message_views(before).push(Ok(view)));
                },
                Err(e) => {
                    list.push(Err(e));
                    assert(message_views(list@) =~= message_views(before).push(Err(e)));
                },
            }
            i += 1;
        }
        list
    }
}

} // verus!
