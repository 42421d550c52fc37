use intersection_controller::intersections::component::ComponentState;
use intersection_controller::intersections::deck::{DeckState, DeckStateError};
use intersection_controller::intersections::gate::{GateState, GateStateError};
use intersection_controller::intersections::light::{LightState, LightStateError};
use intersection_controller::intersections::sensor::{SensorState, SensorStateError};
use std::convert::TryFrom;

#[test]
fn light_state_codes() {
    assert_eq!(i32::from(LightState::Prohibit), 0);
    assert_eq!(i32::from(LightState::Transitioning), 1);
    assert_eq!(i32::from(LightState::Proceed), 2);
    assert_eq!(i32::from(LightState::OutOfOrder), 3);
    assert_eq!(LightState::try_from(0), Ok(LightState::Prohibit));
    assert_eq!(LightState::try_from(1), Ok(LightState::Transitioning));
    assert_eq!(LightState::try_from(2), Ok(LightState::Proceed));
    assert_eq!(LightState::try_from(3), Ok(LightState::OutOfOrder));
    assert_eq!(LightState::try_from(4), Err(LightStateError::CouldNotConvert { value: 4 }));
    assert_eq!(LightState::try_from(-1), Err(LightStateError::CouldNotConvert { value: -1 }));
    assert_eq!(LightState::default(), LightState::Prohibit);
}

#[test]
fn sensor_state_codes() {
    assert_eq!(i32::from(SensorState::Low), 0);
    assert_eq!(i32::from(SensorState::High), 1);
    assert_eq!(SensorState::try_from(0), Ok(SensorState::Low));
    assert_eq!(SensorState::try_from(1), Ok(SensorState::High));
    assert_eq!(SensorState::try_from(2), Err(SensorStateError::CouldNotConvert { value: 2 }));
    assert_eq!(
        SensorState::try_from(i32::MIN),
        Err(SensorStateError::CouldNotConvert { value: i32::MIN })
    );
    assert_eq!(SensorState::default(), SensorState::Low);
}

#[test]
fn gate_state_codes() {
    assert_eq!(i32::from(GateState::Open), 0);
    assert_eq!(i32::from(GateState::Close), 1);
    assert_eq!(GateState::try_from(0), Ok(GateState::Open));
    assert_eq!(GateState::try_from(1), Ok(GateState::Close));
    assert_eq!(GateState::try_from(2), Err(GateStateError::CouldNotConvert { value: 2 }));
    assert_eq!(GateState::default(), GateState::Open);
}

#[test]
fn deck_state_codes() {
    assert_eq!(i32::from(DeckState::Open), 0);
    assert_eq!(i32::from(DeckState::Close), 1);
    assert_eq!(DeckState::try_from(0), Ok(DeckState::Open));
    assert_eq!(DeckState::try_from(1), Ok(DeckState::Close));
    assert_eq!(DeckState::try_from(7), Err(DeckStateError::CouldNotConvert { value: 7 }));
    assert_eq!(DeckState::default(), DeckState::Close);
}

#[test]
fn every_state_round_trips_through_its_code() {
    for state in
        [LightState::Prohibit, LightState::Transitioning, LightState::Proceed, LightState::OutOfOrder]
    {
        assert_eq!(LightState::try_from(i32::from(state)), Ok(state));
        assert_eq!(LightState::from_int(state.to_int()), Some(state));
    }
    for state in [SensorState::Low, SensorState::High] {
        assert_eq!(SensorState::try_from(i32::from(state)), Ok(state));
        assert_eq!(SensorState::from_int(state.to_int()), Some(state));
    }
    for state in [GateState::Open, GateState::Close] {
        assert_eq!(GateState::try_from(i32::from(state)), Ok(state));
        assert_eq!(GateState::from_int(state.to_int()), Some(state));
    }
    for state in [DeckState::Open, DeckState::Close] {
        assert_eq!(DeckState::try_from(i32::from(state)), Ok(state));
        assert_eq!(DeckState::from_int(state.to_int()), Some(state));
    }
}

#[test]
fn no_other_integer_decodes() {
    for code in [-3, -2, -1, 4, 5, 100, i32::MAX, i32::MIN] {
        assert!(LightState::try_from(code).is_err());
        assert_eq!(LightState::from_int(code), None);
    }
    for code in [-3, -2, -1, 2, 3, 100, i32::MAX, i32::MIN] {
        assert!(SensorState::try_from(code).is_err());
        assert!(GateState::try_from(code).is_err());
        assert!(DeckState::try_from(code).is_err());
        assert_eq!(SensorState::from_int(code), None);
        assert_eq!(GateState::from_int(code), None);
        assert_eq!(DeckState::from_int(code), None);
    }
}

#[test]
fn states_are_ordered_by_their_codes() {
    assert!(LightState::Prohibit < LightState::Transitioning);
    assert!(LightState::Transitioning < LightState::Proceed);
    assert!(LightState::Proceed < LightState::OutOfOrder);
    assert!(SensorState::Low < SensorState::High);
    assert!(GateState::Open < GateState::Close);
    assert!(DeckState::Open < DeckState::Close);
}

#[test]
fn states_have_their_names() {
    assert_eq!(LightState::Prohibit.name(), "PROHIBIT");
    assert_eq!(LightState::Transitioning.name(), "TRANSITIONING");
    assert_eq!(LightState::Proceed.name(), "PROCEED");
    assert_eq!(LightState::OutOfOrder.name(), "OUT_OF_ORDER");
    assert_eq!(SensorState::Low.name(), "LOW");
    assert_eq!(SensorState::High.name(), "HIGH");
    assert_eq!(GateState::Open.name(), "OPEN");
    assert_eq!(GateState::Close.name(), "CLOSE");
    assert_eq!(DeckState::Open.name(), "OPEN");
    assert_eq!(DeckState::Close.name(), "CLOSE");
    assert!(LightState::Proceed.same(LightState::Proceed));
    assert!(!LightState::Proceed.same(LightState::Prohibit));
}
