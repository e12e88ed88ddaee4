//! Tests for the base station allocator.

use simulator::station::{BaseStation, StationRequest, StationResponse};

/// Test base station logic.
#[test]
fn test_base_station_processing() {
    let mut base_station = BaseStation::new(10, Some(1));

    for idx in 0..9 {
        let res = base_station.process_request(StationRequest::Initiate, idx);
        assert!(matches!(res, StationResponse::Success));
    }

    let init_into_reserve = base_station.process_request(StationRequest::Initiate, 10);
    println!(
        "initiate call with 1 reserved slot:   {:?}",
        init_into_reserve
    );
    assert!(matches!(init_into_reserve, StationResponse::Blocked));

    let handover_from_other_station =
        base_station.process_request(StationRequest::HandoverConnect, 10);
    assert!(matches!(
        handover_from_other_station,
        StationResponse::Success
    ));

    let station_full = base_station.process_request(StationRequest::Initiate, 11);
    assert!(matches!(station_full, StationResponse::Blocked));

    let station_full = base_station.process_request(StationRequest::HandoverConnect, 11);
    assert!(matches!(station_full, StationResponse::Terminated));

    let terminate = base_station.process_request(StationRequest::Terminate, 10);
    assert!(matches!(terminate, StationResponse::Success));

    for idx in 0..9 {
        let res = base_station.process_request(StationRequest::Terminate, idx);
        assert!(matches!(res, StationResponse::Success));
    }
}

/// A reservation larger than the channel count is rejected at
/// construction.
#[test]
fn test_reservation_rejected_at_construction() {
    assert!(BaseStation::try_new(10, Some(11)).is_none());
    assert!(BaseStation::try_new(10, Some(10)).is_some());
    assert!(BaseStation::try_new(10, None).is_some());
}

/// Terminating a call frees its channel for a later initiation.
#[test]
fn test_terminate_frees_channel() {
    let mut st = BaseStation::new(1, None);
    assert!(matches!(
        st.process_request(StationRequest::Initiate, 7),
        StationResponse::Success
    ));
    assert!(matches!(
        st.process_request(StationRequest::Initiate, 8),
        StationResponse::Blocked
    ));
    assert!(matches!(
        st.process_request(StationRequest::Terminate, 7),
        StationResponse::Success
    ));
    assert_eq!(st.available_channels, 1);
    assert!(matches!(
        st.process_request(StationRequest::Initiate, 8),
        StationResponse::Success
    ));
}
