//! Tests for the event types and station index arithmetic.

use simulator::event::{
    BaseStationIdx, CellEvent, CellEventType, RelativeVehiclePosition, VehicleDirection,
    CELL_LENGTH_MM,
};
use simulator::station::StationResponse;

#[test]
fn test_base_station_next() {
    let station = BaseStationIdx::One;
    let next_station = station.next_station(VehicleDirection::WestToEast);
    assert_eq!(next_station, Some(BaseStationIdx::Two));

    let station = BaseStationIdx::Twenty;
    let next_station = station.next_station(VehicleDirection::WestToEast);
    assert_eq!(next_station, None);

    let station = BaseStationIdx::Twenty;
    let next_station = station.next_station(VehicleDirection::EastToWest);
    assert_eq!(next_station, Some(BaseStationIdx::Nineteen));

    let station = BaseStationIdx::One;
    let next_station = station.next_station(VehicleDirection::EastToWest);
    assert_eq!(next_station, None);

    let station = BaseStationIdx::Ten;
    let next_station = station.next_station(VehicleDirection::EastToWest);
    assert_eq!(next_station, Some(BaseStationIdx::Nine));
}

#[test]
fn test_base_station_prev() {
    let station = BaseStationIdx::One;
    let prev_station = station.previous_station(VehicleDirection::WestToEast);
    assert_eq!(prev_station, None);

    let station = BaseStationIdx::Twenty;
    let prev_station = station.previous_station(VehicleDirection::WestToEast);
    assert_eq!(prev_station, Some(BaseStationIdx::Nineteen));

    let station = BaseStationIdx::Twenty;
    let prev_station = station.previous_station(VehicleDirection::EastToWest);
    assert_eq!(prev_station, None);

    let station = BaseStationIdx::One;
    let prev_station = station.previous_station(VehicleDirection::EastToWest);
    assert_eq!(prev_station, Some(BaseStationIdx::Two));

    let station = BaseStationIdx::Ten;
    let prev_station = station.previous_station(VehicleDirection::EastToWest);
    assert_eq!(prev_station, Some(BaseStationIdx::Eleven));

    // check the previous station for every station that has one when
    // heading east to west
    for idx in 1..19 {
        let station = BaseStationIdx::from_index(idx);
        let prev_station = station.previous_station(VehicleDirection::EastToWest);

        println!("curr: {:?}, prev: {:?}", station, prev_station);
        assert_eq!(prev_station, Some(BaseStationIdx::from_index(idx + 1)));
    }
}

/// Next and previous invert each other in both directions.
#[test]
fn test_next_prev_roundtrip() {
    for idx in 0..20 {
        let station = BaseStationIdx::from_index(idx);
        for dir in [VehicleDirection::WestToEast, VehicleDirection::EastToWest] {
            if let Some(next) = station.next_station(dir) {
                assert_eq!(next.previous_station(dir), Some(station));
            }
        }
    }
}

#[test]
fn test_position_to_millimeters() {
    assert_eq!(RelativeVehiclePosition::WestEnd.to_millimeters(), 0);
    assert_eq!(RelativeVehiclePosition::EastEnd.to_millimeters(), CELL_LENGTH_MM);
    assert_eq!(RelativeVehiclePosition::Other(1_234).to_millimeters(), 1_234);
}

#[test]
fn test_to_result_carries_event_fields() {
    let ev = CellEvent {
        idx: 42,
        run: 3,
        time: 777,
        ty: CellEventType::Handover,
        remaining_time: 1_000,
        ttn: None,
        velocity: 120_072_000,
        direction: VehicleDirection::EastToWest,
        station: BaseStationIdx::Five,
        position: RelativeVehiclePosition::EastEnd,
    };
    let rec = ev.to_result(StationResponse::Terminated, 4);
    assert_eq!(rec.idx, 42);
    assert_eq!(rec.run, 3);
    assert_eq!(rec.time, 777);
    assert!(matches!(rec.ty, CellEventType::Handover));
    assert!(matches!(rec.outcome, StationResponse::Terminated));
    assert!(matches!(rec.direction, VehicleDirection::EastToWest));
    assert_eq!(rec.speed, 120_072_000);
    assert_eq!(rec.station, BaseStationIdx::Five);
    assert_eq!(rec.free_channels_after, 4);
}
