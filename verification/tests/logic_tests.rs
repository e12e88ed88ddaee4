//! Tests for the event processor: queue ordering, the three handlers, and
//! the performance reduction.

use simulator::event::{
    BaseStationIdx, CellEvent, CellEventResult, CellEventType, RelativeVehiclePosition,
    VehicleDirection,
};
use simulator::logic::{EventProcessor, Shared};
use simulator::station::StationResponse;

#[test]
fn test_shared_display() {
    let shared = Shared::new(1);
    let summary = shared
        .available_channels()
        .iter()
        .enumerate()
        .map(|(idx, avail)| format!("{:02}::{:02}", idx + 1, avail))
        .collect::<Vec<_>>()
        .join("|");
    println!("{}", summary);
    assert!(summary.starts_with("01::10|02::10"));
    assert!(summary.ends_with("20::10"));
}

fn plain_event(idx: usize, time: u64) -> CellEvent {
    CellEvent {
        idx,
        run: 0,
        time,
        ty: CellEventType::Initiate,
        remaining_time: 0,
        ttn: None,
        velocity: 0,
        direction: VehicleDirection::EastToWest,
        station: BaseStationIdx::One,
        position: RelativeVehiclePosition::EastEnd,
    }
}

#[test]
fn test_insert_into_fel() {
    let mut proc = EventProcessor::new(1, vec![]);
    for idx in 0..10 {
        proc.insert_event(plain_event(idx, idx as u64));
    }

    println!("fel len: {}", proc.fel.len());
    assert_eq!(proc.fel.len(), 10);
}

/// Events with equal times keep their insertion order.
#[test]
fn test_fel_ties_are_first_in_first_out() {
    let mut proc = EventProcessor::new(1, vec![]);
    proc.insert_event(plain_event(1, 5));
    proc.insert_event(plain_event(2, 5));
    proc.insert_event(plain_event(3, 1));
    assert_eq!(proc.fel[0].idx, 3);
    assert_eq!(proc.fel[1].idx, 1);
    assert_eq!(proc.fel[2].idx, 2);
}

/// An event that carries a call across one boundary before it ends: one
/// record per processed event, three in all for initiate, handover and
/// terminate, and a fourth call state never appears.
fn crossing_event(station: BaseStationIdx, dir: VehicleDirection) -> CellEvent {
    // 100 s call at 100 km/h from the middle of the cell: the boundary is
    // 1 km away and is crossed after 36 s
    CellEvent {
        idx: 1,
        run: 1,
        time: 1_000,
        ty: CellEventType::Initiate,
        remaining_time: 100_000,
        ttn: Some(36_000),
        velocity: 100_000_000,
        direction: dir,
        station,
        position: RelativeVehiclePosition::Other(1_000_000),
    }
}

#[test]
fn test_handover_chain_records() {
    let mut shared = Shared::new(0);
    let ev = crossing_event(BaseStationIdx::Ten, VehicleDirection::WestToEast);
    let mut proc = EventProcessor::new(1, vec![ev]);

    let first = proc.step(&mut shared).unwrap();
    assert_eq!(first.len(), 1);
    assert!(matches!(first[0].ty, CellEventType::Initiate));
    assert!(matches!(first[0].outcome, StationResponse::Success));
    assert_eq!(first[0].time, 1_000);
    assert_eq!(first[0].free_channels_after, 9);

    let second = proc.step(&mut shared).unwrap();
    assert_eq!(second.len(), 1);
    assert!(matches!(second[0].ty, CellEventType::Handover));
    assert!(matches!(second[0].outcome, StationResponse::Success));
    assert_eq!(second[0].time, 37_000);
    assert_eq!(second[0].station, BaseStationIdx::Eleven);

    let third = proc.step(&mut shared).unwrap();
    assert_eq!(third.len(), 1);
    assert!(matches!(third[0].ty, CellEventType::Terminate));
    assert!(matches!(third[0].outcome, StationResponse::Success));
    assert_eq!(third[0].station, BaseStationIdx::Eleven);

    assert!(proc.step(&mut shared).is_none());
    // all channels are free again
    assert_eq!(shared.available_channels(), vec![10; 20]);
}

/// A blocked initiation produces exactly one record and nothing further.
#[test]
fn test_blocked_initiation_single_record() {
    // every channel is reserved for handovers, so new calls are refused
    let mut shared = Shared::new(10);
    let ev = crossing_event(BaseStationIdx::Ten, VehicleDirection::WestToEast);
    let mut proc = EventProcessor::new(1, vec![ev]);

    let first = proc.step(&mut shared).unwrap();
    assert_eq!(first.len(), 1);
    assert!(matches!(first[0].outcome, StationResponse::Blocked));
    assert!(proc.step(&mut shared).is_none());
}

/// A call initiated at the eastern edge heading east terminates at the
/// boundary instead of handing over into a station that does not exist.
#[test]
fn test_edge_termination() {
    let mut shared = Shared::new(0);
    let ev = crossing_event(BaseStationIdx::Twenty, VehicleDirection::WestToEast);
    let mut proc = EventProcessor::new(1, vec![ev]);

    let first = proc.step(&mut shared).unwrap();
    assert!(matches!(first[0].outcome, StationResponse::Success));

    let second = proc.step(&mut shared).unwrap();
    assert_eq!(second.len(), 1);
    assert!(matches!(second[0].ty, CellEventType::Terminate));
    assert_eq!(second[0].station, BaseStationIdx::Twenty);
    assert_eq!(second[0].time, 37_000);

    assert!(proc.step(&mut shared).is_none());
}

/// The symmetric western edge: an east-to-west call at the first station
/// terminates at the west end.
#[test]
fn test_edge_termination_west() {
    let mut shared = Shared::new(0);
    let ev = crossing_event(BaseStationIdx::One, VehicleDirection::EastToWest);
    let mut proc = EventProcessor::new(1, vec![ev]);

    let first = proc.step(&mut shared).unwrap();
    assert!(matches!(first[0].outcome, StationResponse::Success));

    let second = proc.step(&mut shared).unwrap();
    assert_eq!(second.len(), 1);
    assert!(matches!(second[0].ty, CellEventType::Terminate));
    assert_eq!(second[0].station, BaseStationIdx::One);
    assert_eq!(second[0].time, 37_000);

    assert!(proc.step(&mut shared).is_none());
}

fn record(idx: usize, outcome: StationResponse) -> CellEventResult {
    CellEventResult {
        idx,
        run: 1,
        time: idx as u64,
        ty: CellEventType::Initiate,
        outcome,
        direction: VehicleDirection::WestToEast,
        speed: 0,
        station: BaseStationIdx::One,
        free_channels_after: 0,
    }
}

#[test]
fn test_performance_measure_counts() {
    let records = vec![
        record(1, StationResponse::Success),
        record(2, StationResponse::Blocked),
        record(3, StationResponse::Success),
        record(3, StationResponse::Terminated),
        record(4, StationResponse::Blocked),
    ];
    let pm = EventProcessor::calculate_performance_measure(&records);
    assert_eq!(pm.initiated, 4);
    assert_eq!(pm.blocked_calls, 2);
    assert_eq!(pm.dropped_calls, 1);
}
