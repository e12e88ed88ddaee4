//! Tests for the time-to-next-station geometry and event assembly.
//!
//! Durations are in milliseconds, positions in millimetres, velocities in
//! millimetres per hour; 100 km/h is 100 000 000 mm/h.

use simulator::event::{CellEventType, RelativeVehiclePosition, VehicleDirection};
use simulator::generator::{
    calculate_ttn, CallEventGenerator, CallSamples, DIRECTION_DRAW_SCALE,
};

#[test]
fn test_calc_ttn() {
    let ttn = calculate_ttn(10_000, 1_000_000, 100_000_000, VehicleDirection::EastToWest);
    assert_eq!(ttn, None);

    let ttn = calculate_ttn(100_000, 1_000_000, 100_000_000, VehicleDirection::EastToWest);
    assert_eq!(ttn, Some(36_000));

    let ttn = calculate_ttn(
        100_000,
        RelativeVehiclePosition::WestEnd.to_millimeters(),
        100_000_000,
        VehicleDirection::WestToEast,
    );
    assert_eq!(ttn, Some(72_000));

    let ttn = calculate_ttn(
        100_000,
        RelativeVehiclePosition::EastEnd.to_millimeters(),
        100_000_000,
        VehicleDirection::EastToWest,
    );
    assert_eq!(ttn, Some(72_000));
}

/// The crossing is reported exactly when it happens within the remaining
/// call time: at 100 km/h, 1 km takes 36 s.
#[test]
fn test_ttn_none_iff_call_ends_first() {
    let v = 100_000_000;
    assert_eq!(
        calculate_ttn(36_000, 1_000_000, v, VehicleDirection::EastToWest),
        Some(36_000)
    );
    assert_eq!(
        calculate_ttn(35_999, 1_000_000, v, VehicleDirection::EastToWest),
        None
    );
}

fn sample_set() -> CallSamples {
    CallSamples {
        call_duration_ms: 100_000,
        inter_arrival_ms: 1_500,
        tower_draw: 7_250,
        velocity_mmh: 100_000_000,
        position_mm: 1_000_000,
        direction_draw: 700_000,
    }
}

/// The generator advances its clock by the inter-arrival gap and counts
/// calls up from one.
#[test]
fn test_generator_clock_and_index() {
    let mut generator = CallEventGenerator::new(1);
    let s = sample_set();
    let ev1 = generator.next_event(&s).unwrap();
    let ev2 = generator.next_event(&s).unwrap();
    assert_eq!(ev1.idx, 1);
    assert_eq!(ev2.idx, 2);
    assert_eq!(ev1.time, 1_500);
    assert_eq!(ev2.time, 3_000);
    assert!(matches!(ev1.ty, CellEventType::Initiate));
    assert_eq!(ev1.run, 1);
    assert_eq!(ev1.remaining_time, 100_000);
    assert_eq!(ev1.velocity, 100_000_000);
    // tower draw 7.25 on [0, 20) lands in the eighth station
    assert_eq!(ev1.station.index(), 7);
    // direction draw above one half heads west to east
    assert!(matches!(ev1.direction, VehicleDirection::WestToEast));
    // 1 km to the east boundary at 100 km/h
    assert_eq!(ev1.ttn, Some(36_000));
    assert_eq!(
        ev1.position,
        RelativeVehiclePosition::Other(1_000_000)
    );
}

/// A draw at or below one half heads east to west.
#[test]
fn test_direction_threshold() {
    let mut generator = CallEventGenerator::new(1);
    let mut s = sample_set();
    s.direction_draw = DIRECTION_DRAW_SCALE / 2;
    let ev = generator.next_event(&s).unwrap();
    assert!(matches!(ev.direction, VehicleDirection::EastToWest));
}

/// A clock that would overflow is refused and the generator is left
/// unchanged.
#[test]
fn test_generator_overflow_refused() {
    let mut generator = CallEventGenerator::new(1);
    let mut s = sample_set();
    s.inter_arrival_ms = u64::MAX;
    assert!(generator.next_event(&s).is_none());
    assert_eq!(generator.time, 0);
    assert_eq!(generator.count, 0);
}

/// The antithetic pair generator keeps one call index for both halves and
/// separate clocks.
#[test]
fn test_antithetic_pair_generator() {
    let generator = CallEventGenerator::new(2);
    let mut pairs = generator.antithetic();
    let a = sample_set();
    let mut b = sample_set();
    b.inter_arrival_ms = 2_500;
    b.direction_draw = 100_000;
    let (ev_a, ev_b) = pairs.next_pair(&a, &b).unwrap();
    assert_eq!(ev_a.idx, 1);
    assert_eq!(ev_b.idx, 1);
    assert_eq!(ev_a.time, 1_500);
    assert_eq!(ev_b.time, 2_500);
    assert!(matches!(ev_a.direction, VehicleDirection::WestToEast));
    assert!(matches!(ev_b.direction, VehicleDirection::EastToWest));
}
