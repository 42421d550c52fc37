use intersection_controller::config::definitions::{Component, Definitions, Group};
use intersection_controller::config::groups::{General, Group as Times, Groups};
use intersection_controller::control::score_poller::ScorePoller;
use intersection_controller::control::traffic_lights_runner::{
    KindPhase, PhaseTimes, PhaseWorker, SchedulerStep, SchedulerWait, TrafficLightsRunner,
    WorkerStep, WorkerWait, JAM_MILLIS, PAUSE_MILLIS, TICK_MILLIS,
};
use intersection_controller::intersections::component::{ComponentKind, ComponentUid};
use intersection_controller::intersections::group::{GroupId, GroupKind};
use intersection_controller::intersections::intersection::{Intersection, Notification};
use intersection_controller::intersections::intersection_builder::IntersectionsBuilder;
use intersection_controller::intersections::light::LightState;
use intersection_controller::intersections::sensor::SensorState;

fn item(kind: &str, id: i32) -> Component {
    Component { kind: String::from(kind), id, distance: None, initial_state: None }
}

fn group(kind: &str, id: i32, blockable: bool, components: Vec<Component>) -> Group {
    Group {
        kind: String::from(kind),
        id,
        can_be_blocked: Some(blockable),
        components: Some(components),
    }
}

fn times(kind: &str, go: i32, transition: i32) -> Times {
    Times { kind: String::from(kind), min_go_time: go, min_transition_time: transition }
}

fn config(groups: Vec<Times>) -> Groups {
    Groups { groups, general: General { min_evac_time: 0 } }
}

fn minimal() -> Intersection {
    let defs = Definitions {
        groups: vec![group("motor_vehicle", 1, false, vec![item("light", 1), item("sensor", 1)])],
    };
    IntersectionsBuilder::new().with_defs(&defs).finish(0).unwrap()
}

fn gid(kind: GroupKind, id: i32) -> GroupId {
    GroupId { kind, id }
}

fn the_light() -> ComponentUid {
    ComponentUid::new(GroupKind::MotorVehicle, 1, ComponentKind::Light, 1)
}

fn the_sensor() -> ComponentUid {
    ComponentUid::new(GroupKind::MotorVehicle, 1, ComponentKind::Sensor, 1)
}

#[test]
fn the_scheduler_has_its_cadence() {
    assert_eq!(TICK_MILLIS, 100);
    assert_eq!(PAUSE_MILLIS, 1000);
    assert_eq!(JAM_MILLIS, 3000);
}

#[test]
fn a_sensor_drives_its_light_to_proceed() {
    let mut ix = minimal();
    let runner = TrafficLightsRunner::new(config(vec![times("motor_vehicle", 10000, 4000)]));
    assert!(runner.tick(&mut ix, 50).is_empty());
    ix.set_sensor_state(the_sensor(), SensorState::High, 100);
    ScorePoller::new().poll(&mut ix, 200);
    assert!(ix.find_group(gid(GroupKind::MotorVehicle, 1)).unwrap().score >= 1);
    ix.take_notifications();
    let mut phases = runner.tick(&mut ix, 250);
    assert_eq!(phases.len(), 1);
    assert_eq!(phases[0].kind, GroupKind::MotorVehicle);
    assert_eq!(phases[0].groups, vec![gid(GroupKind::MotorVehicle, 1)]);
    assert_eq!(phases[0].times, PhaseTimes { proceed: 10000, transitioning: 4000 });
    let mut worker = PhaseWorker::new(phases.remove(0));
    assert_eq!(worker.step, WorkerStep::Start);
    assert_eq!(worker.advance(&mut ix, false, 260), WorkerWait::Timer(10000));
    assert_eq!(worker.step, WorkerStep::Proceeding);
    assert_eq!(ix.find_light(the_light()).unwrap().state(), LightState::Proceed);
    assert_eq!(ix.take_notifications(), vec![Notification::StateUpdated(the_light())]);
}

#[test]
fn a_phase_runs_to_its_end() {
    let mut ix = minimal();
    let road = gid(GroupKind::MotorVehicle, 1);
    ix.set_score(road, 4);
    ix.take_notifications();
    let runner = TrafficLightsRunner::new(config(vec![times("motor_vehicle", 10000, 4000)]));
    let mut phases = runner.tick(&mut ix, 0);
    let mut worker = PhaseWorker::new(phases.remove(0));
    assert_eq!(worker.advance(&mut ix, false, 0), WorkerWait::Timer(10000));
    assert_eq!(worker.advance(&mut ix, false, 10_000), WorkerWait::Timer(4000));
    assert_eq!(worker.step, WorkerStep::Transitioning);
    assert_eq!(ix.find_light(the_light()).unwrap().state(), LightState::Transitioning);
    assert_eq!(ix.find_light(the_light()).unwrap().timestamp(), 10_000);
    assert_eq!(worker.advance(&mut ix, false, 14_000), WorkerWait::Done);
    assert_eq!(worker.step, WorkerStep::Done);
    assert_eq!(ix.find_light(the_light()).unwrap().state(), LightState::Prohibit);
    assert_eq!(ix.find_group(road).unwrap().score, 0);
    assert_eq!(
        ix.take_notifications(),
        vec![
            Notification::StateUpdated(the_light()),
            Notification::StateUpdated(the_light()),
            Notification::StateUpdated(the_light()),
            Notification::ScoreUpdated(road),
        ]
    );
    assert_eq!(worker.advance(&mut ix, false, 15_000), WorkerWait::Done);
    assert!(ix.take_notifications().is_empty());
    assert!(runner.tick(&mut ix, 15_000).is_empty());
}

#[test]
fn a_stop_ends_a_phase_where_it_stands() {
    let runner = TrafficLightsRunner::new(config(vec![times("motor_vehicle", 10000, 4000)]));
    let road = gid(GroupKind::MotorVehicle, 1);
    let mut ix = minimal();
    ix.set_score(road, 4);
    let mut worker = PhaseWorker::new(runner.tick(&mut ix, 0).remove(0));
    worker.advance(&mut ix, false, 0);
    assert_eq!(worker.advance(&mut ix, true, 500), WorkerWait::Done);
    assert_eq!(worker.step, WorkerStep::Done);
    assert_eq!(ix.find_light(the_light()).unwrap().state(), LightState::Proceed);
    assert_eq!(ix.find_group(road).unwrap().score, 4);
    let mut ix = minimal();
    ix.set_score(road, 4);
    let mut worker = PhaseWorker::new(runner.tick(&mut ix, 0).remove(0));
    worker.advance(&mut ix, false, 0);
    worker.advance(&mut ix, false, 10_000);
    assert_eq!(worker.advance(&mut ix, true, 10_500), WorkerWait::Done);
    assert_eq!(ix.find_light(the_light()).unwrap().state(), LightState::Transitioning);
    assert_eq!(ix.find_group(road).unwrap().score, 4);
    let mut ix = minimal();
    ix.set_score(road, 4);
    let mut worker = PhaseWorker::new(runner.tick(&mut ix, 0).remove(0));
    assert_eq!(worker.advance(&mut ix, true, 0), WorkerWait::Timer(10000));
    assert_eq!(ix.find_light(the_light()).unwrap().state(), LightState::Proceed);
}

#[test]
fn all_kinds_of_a_phase_end_together() {
    let defs = Definitions {
        groups: vec![
            group("motor_vehicle", 1, false, vec![item("light", 1)]),
            group("cycle", 1, false, vec![item("light", 1)]),
            group("cycle", 2, false, vec![item("light", 1), item("light", 2)]),
            group("foot", 1, false, vec![item("light", 1)]),
            group("vessel", 1, false, vec![item("light", 1)]),
        ],
    };
    let mut ix = IntersectionsBuilder::new().with_defs(&defs).finish(0).unwrap();
    for g in ix.unblocked_groups() {
        ix.set_score(g, 1);
    }
    ix.set_score(gid(GroupKind::Cycle, 2), 8);
    let runner = TrafficLightsRunner::new(config(vec![
        times("foot", 6000, 2000),
        times("motor_vehicle", 10000, 4000),
        times("cycle", 7000, 3000),
        times("cycle", 1, 1),
        times("bridge", 90000, 9000),
    ]));
    let phases = runner.tick(&mut ix, 0);
    let summary: Vec<(GroupKind, Vec<GroupId>, PhaseTimes)> =
        phases.iter().map(|p| (p.kind, p.groups.clone(), p.times)).collect();
    assert_eq!(
        summary,
        vec![
            (
                GroupKind::MotorVehicle,
                vec![gid(GroupKind::MotorVehicle, 1)],
                PhaseTimes { proceed: 10000, transitioning: 4000 }
            ),
            (
                GroupKind::Cycle,
                vec![gid(GroupKind::Cycle, 1), gid(GroupKind::Cycle, 2)],
                PhaseTimes { proceed: 11000, transitioning: 3000 }
            ),
            (
                GroupKind::Foot,
                vec![gid(GroupKind::Foot, 1)],
                PhaseTimes { proceed: 12000, transitioning: 2000 }
            ),
        ]
    );
    for phase in phases.iter() {
        assert_eq!(phase.times.proceed + phase.times.transitioning, 14000);
    }
}

#[test]
fn times_by_kind() {
    let runner = TrafficLightsRunner::new(config(vec![
        times("motor_vehicle", 10000, 4000),
        times("cycle", 5000, 1000),
        times("foot", -5, 2000),
    ]));
    assert_eq!(runner.total_time(GroupKind::MotorVehicle), Some(14000));
    assert_eq!(runner.total_time(GroupKind::Cycle), Some(6000));
    assert_eq!(runner.total_time(GroupKind::Foot), Some(2000));
    assert_eq!(runner.total_time(GroupKind::Vessel), None);
    assert_eq!(runner.group_config(GroupKind::Cycle).unwrap().min_go_time, 5000);
    assert!(runner.group_config(GroupKind::Bridge).is_none());
    assert_eq!(runner.largest_total_time(&vec![GroupKind::Cycle, GroupKind::Foot]), 6000);
    assert_eq!(runner.largest_total_time(&vec![GroupKind::Vessel]), 0);
    assert_eq!(runner.largest_total_time(&vec![]), 0);
    assert_eq!(
        runner.get_times(&vec![GroupKind::Foot, GroupKind::Vessel, GroupKind::Cycle]),
        vec![
            (GroupKind::Foot, PhaseTimes { proceed: 4000, transitioning: 2000 }),
            (GroupKind::Cycle, PhaseTimes { proceed: 5000, transitioning: 1000 }),
        ]
    );
    let wide = TrafficLightsRunner::new(config(vec![times("cycle", i32::MAX, i32::MAX)]));
    assert_eq!(wide.total_time(GroupKind::Cycle), Some(4294967294));
}

#[test]
fn runnables_are_shared_out_by_kind() {
    let runner = TrafficLightsRunner::new(config(vec![]));
    let parts = runner.runnables_by_group_kind(&vec![
        gid(GroupKind::Foot, 2),
        gid(GroupKind::MotorVehicle, 7),
        gid(GroupKind::Foot, 1),
        gid(GroupKind::Bridge, 1),
        gid(GroupKind::MotorVehicle, 3),
    ]);
    let summary: Vec<(GroupKind, Vec<GroupId>)> =
        parts.iter().map(|p| (p.kind, p.groups.clone())).collect();
    assert_eq!(
        summary,
        vec![
            (
                GroupKind::MotorVehicle,
                vec![gid(GroupKind::MotorVehicle, 7), gid(GroupKind::MotorVehicle, 3)]
            ),
            (GroupKind::Foot, vec![gid(GroupKind::Foot, 2), gid(GroupKind::Foot, 1)]),
            (GroupKind::Bridge, vec![gid(GroupKind::Bridge, 1)]),
        ]
    );
    assert!(runner.runnables_by_group_kind(&vec![]).is_empty());
    assert!(runner.plan(&vec![gid(GroupKind::Foot, 2)]).is_empty());
}

#[test]
fn a_traffic_jam_blocks_the_groups_that_can_be_blocked() {
    let defs = Definitions {
        groups: vec![
            group("motor_vehicle", 14, false, vec![item("sensor", 1), item("light", 1)]),
            group("motor_vehicle", 1, true, vec![item("light", 1)]),
            group("cycle", 1, true, vec![item("light", 1)]),
            group("foot", 1, false, vec![item("light", 1)]),
        ],
    };
    let mut ix = IntersectionsBuilder::new().with_defs(&defs).finish(0).unwrap();
    let runner = TrafficLightsRunner::new(config(vec![times("motor_vehicle", 1000, 500)]));
    let jam = ComponentUid::new(GroupKind::MotorVehicle, 14, ComponentKind::Sensor, 1);
    ix.set_sensor_state(jam, SensorState::High, 1000);
    assert!(!runner.jammed(&ix, 3999));
    runner.tick(&mut ix, 3999);
    assert_eq!(ix.unblocked_groups().len(), 4);
    assert!(runner.jammed(&ix, 4000));
    runner.tick(&mut ix, 4000);
    assert_eq!(
        ix.unblocked_groups(),
        vec![gid(GroupKind::MotorVehicle, 14), gid(GroupKind::Foot, 1)]
    );
    ix.set_score(gid(GroupKind::MotorVehicle, 1), 50);
    ix.set_score(gid(GroupKind::MotorVehicle, 14), 2);
    let phases: Vec<KindPhase> = runner.tick(&mut ix, 4100);
    assert_eq!(phases.len(), 1);
    assert_eq!(phases[0].groups, vec![gid(GroupKind::MotorVehicle, 14)]);
    ix.set_sensor_state(jam, SensorState::Low, 5000);
    let phases = runner.tick(&mut ix, 5100);
    assert_eq!(ix.unblocked_groups().len(), 4);
    assert_eq!(
        phases[0].groups,
        vec![gid(GroupKind::MotorVehicle, 14), gid(GroupKind::MotorVehicle, 1)]
    );
    runner.set_blocks(&mut ix, true);
    assert_eq!(ix.unblocked_groups().len(), 2);
    runner.set_blocks(&mut ix, false);
    assert_eq!(ix.unblocked_groups().len(), 4);
}

#[test]
fn without_a_jam_sensor_there_is_no_jam() {
    let mut ix = minimal();
    let runner = TrafficLightsRunner::new(config(vec![]));
    assert!(!runner.jammed(&ix, i64::MAX));
    ix.set_block(gid(GroupKind::MotorVehicle, 1), true);
    runner.tick(&mut ix, 0);
    assert!(ix.unblocked_groups().is_empty());
    let defs = Definitions { groups: vec![group("cycle", 1, true, vec![item("sensor", 1)])] };
    let mut ix = IntersectionsBuilder::new().with_defs(&defs).finish(0).unwrap();
    ix.set_block(gid(GroupKind::Cycle, 1), true);
    runner.tick(&mut ix, 0);
    assert_eq!(ix.unblocked_groups(), vec![gid(GroupKind::Cycle, 1)]);
}

#[test]
fn the_scheduler_goes_from_tick_to_phase_to_pause() {
    let mut ix = minimal();
    let mut runner = TrafficLightsRunner::new(config(vec![times("motor_vehicle", 10000, 4000)]));
    assert_eq!(runner.step, SchedulerStep::Waiting);
    assert!(matches!(runner.advance(&mut ix, false, 0), SchedulerWait::Tick));
    assert_eq!(runner.step, SchedulerStep::Waiting);
    ix.set_score(gid(GroupKind::MotorVehicle, 1), 1);
    match runner.advance(&mut ix, false, 100) {
        SchedulerWait::Workers(phases) => {
            assert_eq!(phases.len(), 1);
            assert_eq!(phases[0].groups, vec![gid(GroupKind::MotorVehicle, 1)]);
        }
        _ => panic!("no phase was planned"),
    }
    assert_eq!(runner.step, SchedulerStep::Running);
    assert!(matches!(runner.advance(&mut ix, false, 14_100), SchedulerWait::Pause));
    assert_eq!(runner.step, SchedulerStep::Pausing);
    assert!(matches!(runner.advance(&mut ix, false, 15_100), SchedulerWait::Tick));
    assert_eq!(runner.step, SchedulerStep::Waiting);
    for step in [
        SchedulerStep::Waiting,
        SchedulerStep::Running,
        SchedulerStep::Pausing,
        SchedulerStep::Stopped,
    ] {
        runner.step = step;
        ix.take_notifications();
        assert!(matches!(runner.advance(&mut ix, true, 20_000), SchedulerWait::Stop));
        assert_eq!(runner.step, SchedulerStep::Stopped);
        assert!(matches!(runner.advance(&mut ix, false, 20_000), SchedulerWait::Stop));
        assert!(ix.take_notifications().is_empty());
    }
}
