//! Event processing: the future event list and the three handlers.
//!
//! The future event list (FEL) is a queue of events ordered by time, with
//! ties broken first-in-first-out.  Each step pops the earliest event,
//! dispatches it to the station it names, and schedules at most one
//! follow-up event: the handover or termination that the call's geometry
//! determines.

use std::collections::VecDeque;

use vstd::prelude::*;

use crate::event::{
    result_of, CellEvent, CellEventResult, CellEventType, PerfMeasure, RelativeVehiclePosition,
    VehicleDirection, NUM_STATIONS,
};
use crate::generator::{
    calculate_ttn, final_position, spec_final_position, spec_ttn,
};
use crate::station::{
    request_next, request_response, BaseStation, StationRequest,
    StationResponse, StationView,
};

verus! {

/// Channels per base station.
pub const STATION_CHANNELS: usize = 10;

/// Shared resources of one replication: the base stations along the
/// highway.
pub struct Shared {
    /// The base stations, west to east.
    pub base_stations: Vec<BaseStation>,
}

/// The state of a freshly built station: all channels free, `reserve`
/// channels kept for handovers.
pub open spec fn fresh_station(reserve: usize) -> StationView {
    StationView {
        channels: STATION_CHANNELS,
        available: STATION_CHANNELS,
        reserved: Some(reserve),
        users: Set::<usize>::empty(),
    }
}

impl View for Shared {
    type V = Seq<StationView>;

    open spec fn view(&self) -> Seq<StationView> {
        self.base_stations@.map_values(|b: BaseStation| b@)
    }
}

impl Shared {
    /// There are exactly twenty stations and each one satisfies its
    /// channel-accounting invariant.
    pub open spec fn wf_all(&self) -> bool {
        &&& self.base_stations@.len() == NUM_STATIONS
        &&& forall|i: int|
            0 <= i < self.base_stations@.len() ==> (#[trigger] self.base_stations@[i]).wf()
    }

    /// Build the twenty stations, each with ten channels and `reserve` of
    /// them kept for handovers.
    pub fn new(handover_reserve: usize) -> (sh: Self)
        requires
            handover_reserve <= STATION_CHANNELS,
        ensures
            sh.wf_all(),
            sh@.len() == NUM_STATIONS,
            forall|i: int| 0 <= i < NUM_STATIONS ==> sh@[i] == fresh_station(handover_reserve),
    {
        let mut base_stations: Vec<BaseStation> = Vec::new();
        let mut i: usize = 0;
        while i < NUM_STATIONS
            invariant
                handover_reserve <= STATION_CHANNELS,
                i <= NUM_STATIONS,
                base_stations@.len() == i,
                forall|k: int| 0 <= k < i ==> (#[trigger] base_stations@[k]).wf(),
                forall|k: int|
                    0 <= k < i ==> (#[trigger] base_stations@[k])@ == fresh_station(
                        handover_reserve,
                    ),
            decreases NUM_STATIONS - i,
        {
            let st = BaseStation::new(STATION_CHANNELS, Some(handover_reserve));
            proof {
                assert(st@.users =~= Set::<usize>::empty()) by {
                    assert(st.active_users@ =~= Seq::<usize>::empty());
                    assert forall|x: usize| !st.active_users@.to_set().contains(x) by {
                        assert(!st.active_users@.contains(x));
                    }
                }
            }
            base_stations.push(st);
            i += 1;
        }
        let sh = Shared { base_stations };
        proof {
            assert forall|k: int| 0 <= k < NUM_STATIONS implies sh@[k] == fresh_station(
                handover_reserve,
            ) by {
                assert(sh@[k] == sh.base_stations@[k]@);
            }
        }
        sh
    }

    /// Build the stations, rejecting a reservation that exceeds the
    /// channel count.
    pub fn try_new(handover_reserve: usize) -> (r: Option<Self>)
        ensures
            r is Some <==> handover_reserve <= STATION_CHANNELS,
            r matches Some(sh) ==> {
                &&& sh.wf_all()
                &&& sh@.len() == NUM_STATIONS
                &&& forall|i: int|
                    0 <= i < NUM_STATIONS ==> sh@[i] == fresh_station(handover_reserve)
            },
    {
        if handover_reserve <= STATION_CHANNELS {
            Some(Self::new(handover_reserve))
        } else {
            None
        }
    }

    /// Free channels per station, west to east.
    pub fn available_channels(&self) -> (r: Vec<usize>)
        ensures
            r@.len() == self@.len(),
            forall|i: int| 0 <= i < r@.len() ==> r@[i] == self@[i].available,
    {
        let mut r: Vec<usize> = Vec::new();
        let mut i: usize = 0;
        while i < self.base_stations.len()
            invariant
                i <= self.base_stations@.len(),
                r@.len() == i,
                forall|k: int| 0 <= k < i ==> r@[k] == self@[k].available,
            decreases self.base_stations@.len() - i,
        {
            let avail = self.base_stations[i].available_channels;
            proof {
                assert(self@[i as int] == self.base_stations@[i as int]@);
            }
            r.push(avail);
            i += 1;
        }
        r
    }

    /// Dispatch one request to the station at index `i`.  Returns the
    /// response and the number of channels left free there.
    fn request_at(&mut self, i: usize, req: StationRequest, idx: usize) -> (r: (
        StationResponse,
        usize,
    ))
        requires
            old(self).wf_all(),
            i < NUM_STATIONS,
            req is Initiate || req is HandoverConnect ==> !old(self)@[i as int].users.contains(
                idx,
            ),
            req is Terminate || req is HandoverDisconnect ==> old(self)@[i as int].users.contains(
                idx,
            ),
        ensures
            final(self).wf_all(),
            r.0 == request_response(old(self)@[i as int], req),
            r.1 == request_next(old(self)@[i as int], req, idx).available,
            final(self)@ == old(self)@.update(i as int, request_next(old(self)@[i as int], req, idx)),
    {
        let ghost s0 = self.base_stations@;
        let ghost v0 = self@;
        proof {
            assert(v0[i as int] == s0[i as int]@);
        }
        let mut st = self.base_stations.remove(i);
        let resp = st.process_request(req, idx);
        let avail = st.available_channels;
        proof {
            assert(st@.available == st.available_channels);
        }
        self.base_stations.insert(i, st);
        proof {
            let s2 = self.base_stations@;
            assert(s2 =~= s0.update(i as int, st));
            assert forall|k: int| 0 <= k < NUM_STATIONS implies (#[trigger] s2[k]).wf() by {
                if k != i {
                    assert(s2[k] == s0[k]);
                }
            }
            assert(self@ =~= v0.update(i as int, request_next(v0[i as int], req, idx))) by {
                assert forall|k: int| 0 <= k < NUM_STATIONS implies self@[k] == v0.update(
                    i as int,
                    request_next(v0[i as int], req, idx),
                )[k] by {
                    assert(self@[k] == s2[k]@);
                    if k != i {
                        assert(s2[k] == s0[k]);
                        assert(v0[k] == s0[k]@);
                    }
                }
            }
        }
        (resp, avail)
    }
}

/// The future event list is ordered by time.
pub open spec fn fel_sorted(fel: Seq<CellEvent>) -> bool {
    forall|i: int, j: int| 0 <= i < j < fel.len() ==> fel[i].time <= fel[j].time
}

/// The position at which an event with time `t` enters the queue: after
/// every event with the same or an earlier time, so that ties are served
/// first-in-first-out.
pub open spec fn upper_bound(fel: Seq<CellEvent>, t: u64) -> int
    decreases fel.len(),
{
    if fel.len() == 0 {
        0
    } else if fel.last().time <= t {
        fel.len() as int
    } else {
        upper_bound(fel.drop_last(), t)
    }
}

/// On a sorted queue, `upper_bound` splits the queue into the events at or
/// before `t` and the events strictly after `t`.
pub proof fn lemma_upper_bound(fel: Seq<CellEvent>, t: u64)
    requires
        fel_sorted(fel),
    ensures
        0 <= upper_bound(fel, t) <= fel.len(),
        forall|k: int| 0 <= k < upper_bound(fel, t) ==> fel[k].time <= t,
        forall|k: int| upper_bound(fel, t) <= k < fel.len() ==> fel[k].time > t,
    decreases fel.len(),
{
    if fel.len() > 0 && fel.last().time > t {
        assert(fel_sorted(fel.drop_last()));
        lemma_upper_bound(fel.drop_last(), t);
        let p = upper_bound(fel.drop_last(), t);
        assert(forall|k: int| 0 <= k < fel.len() - 1 ==> fel.drop_last()[k] == fel[k]);
        assert forall|k: int| p <= k < fel.len() implies fel[k].time > t by {
            if k < fel.len() - 1 {
                assert(fel.drop_last()[k] == fel[k]);
            }
        }
    }
}

/// The queue with `e` inserted at its `upper_bound` position.
pub open spec fn fel_insert(fel: Seq<CellEvent>, e: CellEvent) -> Seq<CellEvent> {
    let p = upper_bound(fel, e.time);
    fel.subrange(0, p) + seq![e] + fel.subrange(p, fel.len() as int)
}

/// How `fel_insert` places its element, index by index.
pub proof fn lemma_fel_insert_index(fel: Seq<CellEvent>, e: CellEvent)
    requires
        fel_sorted(fel),
    ensures
        ({
            let p = upper_bound(fel, e.time);
            let r = fel_insert(fel, e);
            &&& r.len() == fel.len() + 1
            &&& forall|k: int| 0 <= k < p ==> r[k] == fel[k]
            &&& r[p] == e
            &&& forall|k: int| p < k < r.len() ==> r[k] == fel[k - 1]
        }),
{
    lemma_upper_bound(fel, e.time);
}

/// Inserting at the `upper_bound` position keeps the queue sorted.
pub proof fn lemma_fel_insert_sorted(fel: Seq<CellEvent>, e: CellEvent)
    requires
        fel_sorted(fel),
    ensures
        fel_sorted(fel_insert(fel, e)),
{
    lemma_upper_bound(fel, e.time);
    lemma_fel_insert_index(fel, e);
    let p = upper_bound(fel, e.time);
    let r = fel_insert(fel, e);
    assert forall|i: int, j: int| 0 <= i < j < r.len() implies r[i].time <= r[j].time by {
        if i < p && j == p {
            assert(r[i] == fel[i]);
        } else if i == p && j > p {
            assert(r[j] == fel[j - 1]);
        } else if i < p && j > p {
            assert(r[i] == fel[i] && r[j] == fel[j - 1]);
        } else if i > p && j > p {
            assert(r[i] == fel[i - 1] && r[j] == fel[j - 1]);
        }
    }
}

/// Number of stations strictly ahead of the vehicle in its direction of
/// travel.
pub open spec fn stations_ahead(e: CellEvent) -> int {
    match e.direction {
        VehicleDirection::WestToEast => NUM_STATIONS - 1 - e.station.as_int(),
        VehicleDirection::EastToWest => e.station.as_int(),
    }
}

/// An upper bound on the number of events a pending event can still give
/// rise to, itself included.  Every follow-up weighs strictly less, which
/// bounds the simulation's length.
pub open spec fn event_weight(e: CellEvent) -> int {
    match e.ty {
        CellEventType::Initiate => 3 + stations_ahead(e),
        CellEventType::Handover => 2 + stations_ahead(e),
        CellEventType::Terminate => 1,
    }
}

/// Total weight of a queue of events.
pub open spec fn wsum(fel: Seq<CellEvent>) -> int
    decreases fel.len(),
{
    if fel.len() == 0 {
        0
    } else {
        event_weight(fel[0]) + wsum(fel.drop_first())
    }
}

/// Every event weighs at least one.
pub proof fn lemma_event_weight_pos(e: CellEvent)
    ensures
        event_weight(e) >= 1,
{
    crate::event::lemma_station_index_roundtrip(e.station);
}

/// Queue weights are non-negative.
pub proof fn lemma_wsum_nonneg(fel: Seq<CellEvent>)
    ensures
        wsum(fel) >= 0,
    decreases fel.len(),
{
    if fel.len() > 0 {
        lemma_event_weight_pos(fel[0]);
        lemma_wsum_nonneg(fel.drop_first());
    }
}

/// Weight distributes over concatenation.
pub proof fn lemma_wsum_add(a: Seq<CellEvent>, b: Seq<CellEvent>)
    ensures
        wsum(a + b) == wsum(a) + wsum(b),
    decreases a.len(),
{
    if a.len() == 0 {
        assert(a + b =~= b);
    } else {
        assert((a + b).drop_first() =~= a.drop_first() + b);
        assert((a + b)[0] == a[0]);
        lemma_wsum_add(a.drop_first(), b);
    }
}

/// Inserting an event adds exactly its weight.
pub proof fn lemma_wsum_insert(fel: Seq<CellEvent>, e: CellEvent)
    requires
        fel_sorted(fel),
    ensures
        wsum(fel_insert(fel, e)) == wsum(fel) + event_weight(e),
{
    lemma_upper_bound(fel, e.time);
    let p = upper_bound(fel, e.time);
    let pre = fel.subrange(0, p);
    let post = fel.subrange(p, fel.len() as int);
    lemma_wsum_add(pre + seq![e], post);
    lemma_wsum_add(pre, seq![e]);
    lemma_wsum_add(pre, post);
    assert(pre + post =~= fel);
    assert(wsum(seq![e]) == event_weight(e)) by {
        assert(seq![e].drop_first() =~= Seq::<CellEvent>::empty());
        assert(wsum(Seq::<CellEvent>::empty()) == 0);
        assert(seq![e][0] == e);
    }
}

/// An event that carries a pending crossing carries the crossing its own
/// fields determine: the `ttn` of an initiation or handover event is the
/// one recomputed from its position, velocity and remaining time.
pub open spec fn ttn_consistent(e: CellEvent) -> bool {
    (e.ty is Initiate || e.ty is Handover) ==> e.ttn == spec_ttn(
        e.remaining_time,
        e.position.as_mm(),
        e.velocity,
        e.direction,
    )
}

/// A well-formed event of the running simulation.
pub open spec fn event_ok(e: CellEvent) -> bool {
    e.wf() && ttn_consistent(e)
}

/// Where a pending event's call holds its channel: an initiation's call
/// holds none yet; a termination's call holds one at the event's station;
/// a handover's call still holds one at the station it is leaving.  In
/// every case no other station knows the call.
pub open spec fn event_linked(e: CellEvent, stations: Seq<StationView>) -> bool {
    match e.ty {
        CellEventType::Initiate => forall|j: int|
            0 <= j < stations.len() ==> !(#[trigger] stations[j]).users.contains(e.idx),
        CellEventType::Terminate => {
            &&& stations[e.station.as_int()].users.contains(e.idx)
            &&& forall|j: int|
                0 <= j < stations.len() && j != e.station.as_int() ==> !(
                #[trigger] stations[j]).users.contains(e.idx)
        },
        CellEventType::Handover => {
            &&& e.station.spec_previous_station(e.direction) is Some
            &&& stations[e.station.spec_previous_station(
                e.direction,
            ).unwrap().as_int()].users.contains(e.idx)
            &&& forall|j: int|
                0 <= j < stations.len() && j != e.station.spec_previous_station(
                    e.direction,
                ).unwrap().as_int() ==> !(#[trigger] stations[j]).users.contains(e.idx)
        },
    }
}

/// The queue invariant: sorted by time, every event well formed, and no
/// call index pending twice.
pub open spec fn fel_ok(fel: Seq<CellEvent>) -> bool {
    &&& fel_sorted(fel)
    &&& forall|i: int| 0 <= i < fel.len() ==> event_ok(#[trigger] fel[i])
    &&& forall|i: int, j: int| 0 <= i < j < fel.len() ==> fel[i].idx != fel[j].idx
}

/// Every pending event's call holds its channels where the event expects
/// them.
pub open spec fn fel_linked(fel: Seq<CellEvent>, stations: Seq<StationView>) -> bool {
    forall|i: int| 0 <= i < fel.len() ==> event_linked(#[trigger] fel[i], stations)
}

/// The edge at which a vehicle enters the next station's coverage.
pub open spec fn entry_edge(dir: VehicleDirection) -> RelativeVehiclePosition {
    match dir {
        VehicleDirection::EastToWest => RelativeVehiclePosition::EastEnd,
        VehicleDirection::WestToEast => RelativeVehiclePosition::WestEnd,
    }
}

/// The edge at which a vehicle leaves the highway.
pub open spec fn exit_edge(dir: VehicleDirection) -> RelativeVehiclePosition {
    match dir {
        VehicleDirection::EastToWest => RelativeVehiclePosition::WestEnd,
        VehicleDirection::WestToEast => RelativeVehiclePosition::EastEnd,
    }
}

/// The one follow-up event a successful initiation or handover schedules.
///
/// With a pending crossing and a next station, the call hands over there,
/// entering at the boundary edge with a freshly computed crossing time.
/// With a pending crossing but no next station, the call terminates at the
/// boundary of the edge station.  With no pending crossing, the call
/// terminates inside the cell, at the position the remaining time's travel
/// determines.
pub open spec fn spec_followup(e: CellEvent) -> CellEvent {
    match e.ttn {
        Some(delta) => {
            let t2 = (e.time + delta) as u64;
            let rem = (e.remaining_time - delta) as u64;
            match e.station.spec_next_station(e.direction) {
                Some(next) => {
                    let entry = entry_edge(e.direction);
                    CellEvent {
                        idx: e.idx,
                        run: e.run,
                        time: t2,
                        ty: CellEventType::Handover,
                        remaining_time: rem,
                        ttn: spec_ttn(rem, entry.as_mm(), e.velocity, e.direction),
                        velocity: e.velocity,
                        direction: e.direction,
                        station: next,
                        position: entry,
                    }
                },
                None => CellEvent {
                    idx: e.idx,
                    run: e.run,
                    time: t2,
                    ty: CellEventType::Terminate,
                    remaining_time: rem,
                    ttn: None,
                    velocity: e.velocity,
                    direction: e.direction,
                    station: e.station,
                    position: exit_edge(e.direction),
                },
            }
        },
        None => CellEvent {
            idx: e.idx,
            run: e.run,
            time: (e.time + e.remaining_time) as u64,
            ty: CellEventType::Terminate,
            remaining_time: 0,
            ttn: None,
            velocity: e.velocity,
            direction: e.direction,
            station: e.station,
            position: RelativeVehiclePosition::Other(
                spec_final_position(
                    e.position.as_mm(),
                    e.velocity,
                    e.remaining_time,
                    e.direction,
                ) as u64,
            ),
        },
    }
}

/// The follow-up of a well-formed event is well formed, keeps the call
/// index, happens no earlier, and weighs strictly less.
pub proof fn lemma_followup_ok(e: CellEvent)
    requires
        event_ok(e),
        e.ty is Initiate || e.ty is Handover,
    ensures
        event_ok(spec_followup(e)),
        spec_followup(e).idx == e.idx,
        spec_followup(e).run == e.run,
        spec_followup(e).time >= e.time,
        event_weight(spec_followup(e)) < event_weight(e),
{
    let f = spec_followup(e);
    crate::event::lemma_station_index_roundtrip(e.station);
    match e.ttn {
        Some(delta) => {
            let rem = (e.remaining_time - delta) as u64;
            match e.station.spec_next_station(e.direction) {
                Some(next) => {
                    let entry = entry_edge(e.direction);
                    crate::generator::lemma_spec_ttn_delta_le(
                        rem,
                        entry.as_mm(),
                        e.velocity,
                        e.direction,
                    );
                    match e.direction {
                        VehicleDirection::WestToEast => {
                            crate::event::lemma_station_from_int_as_int(e.station.as_int() + 1);
                        },
                        VehicleDirection::EastToWest => {
                            crate::event::lemma_station_from_int_as_int(e.station.as_int() - 1);
                        },
                    }
                },
                None => {},
            }
        },
        None => {
            crate::generator::lemma_final_position_in_cell(
                e.position.as_mm(),
                e.velocity,
                e.remaining_time,
                e.direction,
            );
        },
    }
}

/// A station update that does not touch a call's membership keeps every
/// event of that call linked.
pub proof fn lemma_linked_after_update(
    e: CellEvent,
    stations: Seq<StationView>,
    i: int,
    st1: StationView,
)
    requires
        event_linked(e, stations),
        stations.len() == NUM_STATIONS,
        0 <= i < stations.len(),
        st1.users.contains(e.idx) == stations[i].users.contains(e.idx),
    ensures
        event_linked(e, stations.update(i, st1)),
{
    crate::event::lemma_station_index_roundtrip(e.station);
    match e.station.spec_previous_station(e.direction) {
        Some(pv) => crate::event::lemma_station_index_roundtrip(pv),
        None => (),
    }
    let s2 = stations.update(i, st1);
    assert forall|j: int|
        0 <= j < s2.len() implies (#[trigger] s2[j]).users.contains(e.idx)
        == stations[j].users.contains(e.idx) by {
        if j != i {
            assert(s2[j] == stations[j]);
        }
    }
    match e.ty {
        CellEventType::Initiate => {
            assert forall|j: int| 0 <= j < s2.len() implies !(#[trigger] s2[j]).users.contains(
                e.idx,
            ) by {
                assert(!stations[j].users.contains(e.idx));
            }
        },
        CellEventType::Terminate => {
            let si = e.station.as_int();
            assert(s2[si].users.contains(e.idx) == stations[si].users.contains(e.idx));
            assert forall|j: int|
                0 <= j < s2.len() && j != si implies !(#[trigger] s2[j]).users.contains(
                e.idx,
            ) by {
                assert(!stations[j].users.contains(e.idx));
            }
        },
        CellEventType::Handover => {
            let p = e.station.spec_previous_station(e.direction).unwrap().as_int();
            assert(s2[p].users.contains(e.idx) == stations[p].users.contains(e.idx));
            assert forall|j: int|
                0 <= j < s2.len() && j != p implies !(#[trigger] s2[j]).users.contains(
                e.idx,
            ) by {
                assert(!stations[j].users.contains(e.idx));
            }
        },
    }
}

/// Processing an initiation event: ask the event's station for a channel;
/// a blocked call leaves one record, a carried call also schedules its
/// follow-up.
pub open spec fn spec_initiate(
    e: CellEvent,
    rest: Seq<CellEvent>,
    stations: Seq<StationView>,
) -> (Seq<CellEvent>, Seq<StationView>, Seq<CellEventResult>) {
    let si = e.station.as_int();
    let resp = request_response(stations[si], StationRequest::Initiate);
    let st1 = request_next(stations[si], StationRequest::Initiate, e.idx);
    let stations1 = stations.update(si, st1);
    let rec = result_of(e, resp, st1.available);
    if resp is Success {
        (fel_insert(rest, spec_followup(e)), stations1, seq![rec])
    } else {
        (rest, stations1, seq![rec])
    }
}

/// Processing a termination event: the event's station frees the call's
/// channel; one record, no follow-up.
pub open spec fn spec_terminate(
    e: CellEvent,
    rest: Seq<CellEvent>,
    stations: Seq<StationView>,
) -> (Seq<CellEvent>, Seq<StationView>, Seq<CellEventResult>) {
    let si = e.station.as_int();
    let st1 = request_next(stations[si], StationRequest::Terminate, e.idx);
    let rec = result_of(e, StationResponse::Success, st1.available);
    (rest, stations.update(si, st1), seq![rec])
}

/// Processing a handover event: the departing station frees the call's
/// channel, then the arrival station is asked for one; a dropped call
/// leaves one record, a carried call also schedules its follow-up.
pub open spec fn spec_handover(
    e: CellEvent,
    rest: Seq<CellEvent>,
    stations: Seq<StationView>,
) -> (Seq<CellEvent>, Seq<StationView>, Seq<CellEventResult>) {
    let p = e.station.spec_previous_station(e.direction).unwrap().as_int();
    let a = e.station.as_int();
    let stations1 = stations.update(
        p,
        request_next(stations[p], StationRequest::HandoverDisconnect, e.idx),
    );
    let resp = request_response(stations1[a], StationRequest::HandoverConnect);
    let st1 = request_next(stations1[a], StationRequest::HandoverConnect, e.idx);
    let stations2 = stations1.update(a, st1);
    let rec = result_of(e, resp, st1.available);
    if resp is Success {
        (fel_insert(rest, spec_followup(e)), stations2, seq![rec])
    } else {
        (rest, stations2, seq![rec])
    }
}

/// One step of the simulation: pop the earliest event and dispatch it.
pub open spec fn spec_step(fel: Seq<CellEvent>, stations: Seq<StationView>) -> (
    Seq<CellEvent>,
    Seq<StationView>,
    Seq<CellEventResult>,
) {
    let e = fel[0];
    let rest = fel.drop_first();
    match e.ty {
        CellEventType::Initiate => spec_initiate(e, rest, stations),
        CellEventType::Terminate => spec_terminate(e, rest, stations),
        CellEventType::Handover => spec_handover(e, rest, stations),
    }
}

/// Process events in the simulation.
pub struct EventProcessor {
    /// Replication number.
    pub run_num: usize,
    /// Future events to process, ordered by time.
    pub fel: VecDeque<CellEvent>,
}

impl EventProcessor {
    /// The processor is coherent with the shared stations: the queue
    /// invariant holds and every pending call holds its channels where
    /// its event expects them.
    pub open spec fn coherent(&self, shared: &Shared) -> bool {
        &&& shared.wf_all()
        &&& fel_ok(self.fel@)
        &&& fel_linked(self.fel@, shared@)
    }

    /// Create a new event processor holding the given seed events.
    pub fn new(run_num: usize, events: Vec<CellEvent>) -> (p: Self)
        ensures
            p.run_num == run_num,
            p.fel@ == events@,
    {
        let mut fel: VecDeque<CellEvent> = VecDeque::new();
        let mut i: usize = 0;
        while i < events.len()
            invariant
                i <= events@.len(),
                fel@ == events@.subrange(0, i as int),
            decreases events@.len() - i,
        {
            fel.push_back(events[i]);
            proof {
                assert(fel@ =~= events@.subrange(0, i + 1));
            }
            i += 1;
        }
        proof {
            assert(fel@ =~= events@);
        }
        Self { run_num, fel }
    }

    /// Insert an event into the queue, after every event at the same or
    /// an earlier time.
    pub fn insert_event(&mut self, event: CellEvent)
        requires
            fel_sorted(old(self).fel@),
        ensures
            final(self).fel@ == fel_insert(old(self).fel@, event),
            fel_sorted(final(self).fel@),
            final(self).run_num == old(self).run_num,
    {
        proof {
            lemma_upper_bound(self.fel@, event.time);
        }
        let mut lo: usize = 0;
        let mut hi: usize = self.fel.len();
        while lo < hi
            invariant
                lo <= hi <= self.fel@.len(),
                self.fel@ == old(self).fel@,
                fel_sorted(self.fel@),
                forall|k: int| 0 <= k < lo ==> self.fel@[k].time <= event.time,
                forall|k: int| hi <= k < self.fel@.len() ==> self.fel@[k].time > event.time,
            decreases hi - lo,
        {
            let mid = lo + (hi - lo) / 2;
            if self.fel[mid].time <= event.time {
                lo = mid + 1;
            } else {
                hi = mid;
            }
        }
        proof {
            let p = upper_bound(self.fel@, event.time);
            if p < lo {
                assert(self.fel@[p].time <= event.time);
            }
            if p > lo {
                assert(self.fel@[lo as int].time > event.time);
            }
            assert(lo as int == p);
        }
        let ghost s0 = self.fel@;
        self.fel.insert(lo, event);
        proof {
            assert(self.fel@ =~= fel_insert(s0, event));
            lemma_fel_insert_sorted(s0, event);
        }
    }

    /// Schedule the follow-up event of a successful initiation or
    /// handover.  The records come from the station requests alone, so
    /// none are produced here.
    fn handle_handover_terminate(&mut self, event: CellEvent) -> (res: Vec<CellEventResult>)
        requires
            event_ok(event),
            event.ty is Initiate || event.ty is Handover,
            fel_sorted(old(self).fel@),
        ensures
            res@ == Seq::<CellEventResult>::empty(),
            final(self).fel@ == fel_insert(old(self).fel@, spec_followup(event)),
            fel_sorted(final(self).fel@),
            final(self).run_num == old(self).run_num,
    {
        match event.ttn {
            Some(tt_next) => {
                let remaining_call_time = event.remaining_time - tt_next;
                let next_ev = match event.station.next_station(event.direction) {
                    Some(next_station) => {
                        let entry = match event.direction {
                            VehicleDirection::EastToWest => RelativeVehiclePosition::EastEnd,
                            VehicleDirection::WestToEast => RelativeVehiclePosition::WestEnd,
                        };
                        CellEvent {
                            idx: event.idx,
                            run: event.run,
                            time: event.time + tt_next,
                            ty: CellEventType::Handover,
                            remaining_time: remaining_call_time,
                            ttn: calculate_ttn(
                                remaining_call_time,
                                entry.to_millimeters(),
                                event.velocity,
                                event.direction,
                            ),
                            velocity: event.velocity,
                            direction: event.direction,
                            station: next_station,
                            position: entry,
                        }
                    },
                    None => CellEvent {
                        idx: event.idx,
                        run: event.run,
                        time: event.time + tt_next,
                        ty: CellEventType::Terminate,
                        remaining_time: remaining_call_time,
                        ttn: None,
                        velocity: event.velocity,
                        direction: event.direction,
                        station: event.station,
                        position: match event.direction {
                            VehicleDirection::EastToWest => RelativeVehiclePosition::WestEnd,
                            VehicleDirection::WestToEast => RelativeVehiclePosition::EastEnd,
                        },
                    },
                };
                assert(next_ev == spec_followup(event));
                self.insert_event(next_ev);
            },
            None => {
                let end_position = final_position(
                    event.position.to_millimeters(),
                    event.velocity,
                    event.remaining_time,
                    event.direction,
                );
                let terminate_ev = CellEvent {
                    idx: event.idx,
                    run: event.run,
                    time: event.time + event.remaining_time,
                    ty: CellEventType::Terminate,
                    remaining_time: 0,
                    ttn: None,
                    velocity: event.velocity,
                    direction: event.direction,
                    station: event.station,
                    position: RelativeVehiclePosition::Other(end_position),
                };
                assert(terminate_ev == spec_followup(event));
                self.insert_event(terminate_ev);
            },
        }
        Vec::new()
    }

    /// The queue after inserting the follow-up of `event` keeps the queue
    /// invariant, keeps every event at or after `event`'s time, and gains
    /// exactly the follow-up's weight.
    pub proof fn lemma_queue_after_followup(rest: Seq<CellEvent>, event: CellEvent)
        requires
            fel_ok(rest),
            event_ok(event),
            event.ty is Initiate || event.ty is Handover,
            forall|i: int| 0 <= i < rest.len() ==> event.idx != (#[trigger] rest[i]).idx,
            forall|i: int| 0 <= i < rest.len() ==> event.time <= (#[trigger] rest[i]).time,
        ensures
            fel_ok(fel_insert(rest, spec_followup(event))),
            forall|i: int|
                0 <= i < fel_insert(rest, spec_followup(event)).len() ==> event.time <= (
                #[trigger] fel_insert(rest, spec_followup(event))[i]).time,
            wsum(fel_insert(rest, spec_followup(event))) < wsum(rest) + event_weight(event),
            forall|i: int|
                0 <= i < fel_insert(rest, spec_followup(event)).len() ==> (#[trigger] fel_insert(
                    rest,
                    spec_followup(event),
                )[i] == spec_followup(event) || rest.contains(
                    fel_insert(rest, spec_followup(event))[i],
                )),
    {
        lemma_followup_ok(event);
        let f = spec_followup(event);
        let fel2 = fel_insert(rest, f);
        let p = upper_bound(rest, f.time);
        lemma_upper_bound(rest, f.time);
        lemma_fel_insert_index(rest, f);
        lemma_fel_insert_sorted(rest, f);
        lemma_wsum_insert(rest, f);
        assert forall|i: int| 0 <= i < fel2.len() implies event_ok(#[trigger] fel2[i])
            && event.time <= fel2[i].time && (fel2[i] == f || rest.contains(fel2[i])) by {
            if i < p {
                assert(fel2[i] == rest[i]);
            } else if i > p {
                assert(fel2[i] == rest[i - 1]);
            }
        }
        assert forall|i: int, j: int| 0 <= i < j < fel2.len() implies fel2[i].idx
            != fel2[j].idx by {
            if i < p {
                assert(fel2[i] == rest[i]);
            } else if i > p {
                assert(fel2[i] == rest[i - 1]);
            }
            if j < p {
                assert(fel2[j] == rest[j]);
            } else if j > p {
                assert(fel2[j] == rest[j - 1]);
            }
        }
    }

    // The event parameter must be a call initiation event.
    fn process_call_initiation(&mut self, event: CellEvent, shared: &mut Shared) -> (res: Vec<
        CellEventResult,
    >)
        requires
            event.ty is Initiate,
            event_ok(event),
            old(shared).wf_all(),
            event_linked(event, old(shared)@),
            fel_ok(old(self).fel@),
            fel_linked(old(self).fel@, old(shared)@),
            forall|i: int|
                0 <= i < old(self).fel@.len() ==> event.idx != (#[trigger] old(self).fel@[i]).idx,
            forall|i: int|
                0 <= i < old(self).fel@.len() ==> event.time <= (
                #[trigger] old(self).fel@[i]).time,
        ensures
            final(shared).wf_all(),
            fel_ok(final(self).fel@),
            fel_linked(final(self).fel@, final(shared)@),
            forall|i: int|
                0 <= i < final(self).fel@.len() ==> event.time <= (
                #[trigger] final(self).fel@[i]).time,
            (final(self).fel@, final(shared)@, res@) == spec_initiate(
                event,
                old(self).fel@,
                old(shared)@,
            ),
            final(self).run_num == old(self).run_num,
            wsum(final(self).fel@) < wsum(old(self).fel@) + event_weight(event),
    {
        let ghost rest = self.fel@;
        let ghost sh0 = shared@;
        proof {
            crate::event::lemma_station_index_roundtrip(event.station);
            lemma_event_weight_pos(event);
        }
        let si = event.station.index();
        let ghost st0 = sh0[si as int];
        let ghost st1 = request_next(st0, StationRequest::Initiate, event.idx);
        let ghost sh1 = sh0.update(si as int, st1);
        let (response, avail) = shared.request_at(si, StationRequest::Initiate, event.idx);
        let ev_result = event.to_result(response, avail);
        let mut results: Vec<CellEventResult> = Vec::new();
        results.push(ev_result);
        proof {
            assert(results@ =~= seq![result_of(event, response, avail)]);
            // every pending call keeps its channels: only `event.idx` moved
            assert forall|k: int| 0 <= k < rest.len() implies event_linked(
                #[trigger] rest[k],
                sh1,
            ) by {
                assert(st1.users.contains(rest[k].idx) == st0.users.contains(rest[k].idx));
                lemma_linked_after_update(rest[k], sh0, si as int, st1);
            }
        }
        if matches!(response, StationResponse::Blocked) {
            return results;
        }
        proof {
            Self::lemma_queue_after_followup(rest, event);
            lemma_followup_ok(event);
        }
        let mut additional_res = self.handle_handover_terminate(event);
        results.append(&mut additional_res);
        proof {
            assert(results@ =~= seq![result_of(event, response, avail)]);
            let f = spec_followup(event);
            // the follow-up's call holds its channel at the event's station
            assert(event_linked(f, sh1)) by {
                assert(st1.users.contains(event.idx));
                assert forall|j: int|
                    0 <= j < sh1.len() && j != si as int implies !(
                    #[trigger] sh1[j]).users.contains(f.idx) by {
                    assert(sh1[j] == sh0[j]);
                }
                if event.ttn is Some && event.station.spec_next_station(event.direction)
                    is Some {
                    crate::event::lemma_next_prev_roundtrip(event.station, event.direction);
                    assert(f.ty is Handover);
                    assert(f.station.spec_previous_station(f.direction) == Some(event.station));
                } else {
                    assert(f.ty is Terminate && f.station == event.station);
                }
            }
            assert forall|i: int| 0 <= i < self.fel@.len() implies event_linked(
                #[trigger] self.fel@[i],
                sh1,
            ) by {
                if self.fel@[i] != f {
                    assert(rest.contains(self.fel@[i]));
                    let w = choose|w: int| 0 <= w < rest.len() && rest[w] == self.fel@[i];
                    assert(event_linked(rest[w], sh1));
                }
            }
        }
        results
    }

    // The event parameter must be a call termination event.
    fn process_call_terminate(&mut self, event: CellEvent, shared: &mut Shared) -> (res: Vec<
        CellEventResult,
    >)
        requires
            event.ty is Terminate,
            event_ok(event),
            old(shared).wf_all(),
            event_linked(event, old(shared)@),
            fel_ok(old(self).fel@),
            fel_linked(old(self).fel@, old(shared)@),
            forall|i: int|
                0 <= i < old(self).fel@.len() ==> event.idx != (#[trigger] old(self).fel@[i]).idx,
            forall|i: int|
                0 <= i < old(self).fel@.len() ==> event.time <= (
                #[trigger] old(self).fel@[i]).time,
        ensures
            final(shared).wf_all(),
            fel_ok(final(self).fel@),
            fel_linked(final(self).fel@, final(shared)@),
            forall|i: int|
                0 <= i < final(self).fel@.len() ==> event.time <= (
                #[trigger] final(self).fel@[i]).time,
            (final(self).fel@, final(shared)@, res@) == spec_terminate(
                event,
                old(self).fel@,
                old(shared)@,
            ),
            final(self).run_num == old(self).run_num,
            wsum(final(self).fel@) < wsum(old(self).fel@) + event_weight(event),
    {
        let ghost rest = self.fel@;
        let ghost sh0 = shared@;
        proof {
            crate::event::lemma_station_index_roundtrip(event.station);
            lemma_event_weight_pos(event);
        }
        let si = event.station.index();
        let ghost st0 = sh0[si as int];
        let ghost st1 = request_next(st0, StationRequest::Terminate, event.idx);
        let (response, avail) = shared.request_at(si, StationRequest::Terminate, event.idx);
        let result = event.to_result(response, avail);
        let mut results: Vec<CellEventResult> = Vec::new();
        results.push(result);
        proof {
            assert(results@ =~= seq![result_of(event, StationResponse::Success, avail)]);
            assert forall|k: int| 0 <= k < rest.len() implies event_linked(
                #[trigger] rest[k],
                shared@,
            ) by {
                assert(st1.users.contains(rest[k].idx) == st0.users.contains(rest[k].idx));
                lemma_linked_after_update(rest[k], sh0, si as int, st1);
            }
        }
        results
    }

    // The event parameter must be a call handover event; its station is
    // the arrival station.
    fn process_call_handover(&mut self, event: CellEvent, shared: &mut Shared) -> (res: Vec<
        CellEventResult,
    >)
        requires
            event.ty is Handover,
            event_ok(event),
            old(shared).wf_all(),
            event_linked(event, old(shared)@),
            fel_ok(old(self).fel@),
            fel_linked(old(self).fel@, old(shared)@),
            forall|i: int|
                0 <= i < old(self).fel@.len() ==> event.idx != (#[trigger] old(self).fel@[i]).idx,
            forall|i: int|
                0 <= i < old(self).fel@.len() ==> event.time <= (
                #[trigger] old(self).fel@[i]).time,
        ensures
            final(shared).wf_all(),
            fel_ok(final(self).fel@),
            fel_linked(final(self).fel@, final(shared)@),
            forall|i: int|
                0 <= i < final(self).fel@.len() ==> event.time <= (
                #[trigger] final(self).fel@[i]).time,
            (final(self).fel@, final(shared)@, res@) == spec_handover(
                event,
                old(self).fel@,
                old(shared)@,
            ),
            final(self).run_num == old(self).run_num,
            wsum(final(self).fel@) < wsum(old(self).fel@) + event_weight(event),
    {
        let ghost rest = self.fel@;
        let ghost sh0 = shared@;
        let prev_opt = event.station.previous_station(event.direction);
        proof {
            crate::event::lemma_station_index_roundtrip(event.station);
            lemma_event_weight_pos(event);
            assert(prev_opt is Some);
        }
        let prev_station = match prev_opt {
            Some(p) => p,
            None => event.station,
        };
        proof {
            assert(prev_station == event.station.spec_previous_station(event.direction).unwrap());
            crate::event::lemma_station_index_roundtrip(prev_station);
            match event.direction {
                VehicleDirection::WestToEast => {
                    crate::event::lemma_station_from_int_as_int(event.station.as_int() - 1);
                },
                VehicleDirection::EastToWest => {
                    crate::event::lemma_station_from_int_as_int(event.station.as_int() + 1);
                },
            }
            assert(prev_station.as_int() != event.station.as_int());
        }
        let pi = prev_station.index();
        let ghost stp0 = sh0[pi as int];
        let ghost stp1 = request_next(stp0, StationRequest::HandoverDisconnect, event.idx);
        let ghost sh1 = sh0.update(pi as int, stp1);
        let (disconnect_resp, _) = shared.request_at(
            pi,
            StationRequest::HandoverDisconnect,
            event.idx,
        );
        proof {
            assert(disconnect_resp is Success);
        }
        let ai = event.station.index();
        let ghost sta0 = sh1[ai as int];
        let ghost sta1 = request_next(sta0, StationRequest::HandoverConnect, event.idx);
        let ghost sh2 = sh1.update(ai as int, sta1);
        proof {
            assert(sh1[ai as int] == sh0[ai as int]);
            assert(!sh1[ai as int].users.contains(event.idx));
        }
        let (response, avail) = shared.request_at(
            ai,
            StationRequest::HandoverConnect,
            event.idx,
        );
        let mut results: Vec<CellEventResult> = Vec::new();
        results.push(event.to_result(response, avail));
        proof {
            assert(results@ =~= seq![result_of(event, response, avail)]);
            assert forall|k: int| 0 <= k < rest.len() implies event_linked(
                #[trigger] rest[k],
                sh2,
            ) by {
                assert(stp1.users.contains(rest[k].idx) == stp0.users.contains(rest[k].idx));
                lemma_linked_after_update(rest[k], sh0, pi as int, stp1);
                assert(sta1.users.contains(rest[k].idx) == sta0.users.contains(rest[k].idx));
                lemma_linked_after_update(rest[k], sh1, ai as int, sta1);
            }
        }
        if matches!(response, StationResponse::Terminated) {
            return results;
        }
        proof {
            Self::lemma_queue_after_followup(rest, event);
            lemma_followup_ok(event);
        }
        let mut additional_res = self.handle_handover_terminate(event);
        results.append(&mut additional_res);
        proof {
            assert(results@ =~= seq![result_of(event, response, avail)]);
            let f = spec_followup(event);
            assert(event_linked(f, sh2)) by {
                assert(sta1.users.contains(event.idx));
                assert forall|j: int|
                    0 <= j < sh2.len() && j != ai as int implies !(
                    #[trigger] sh2[j]).users.contains(f.idx) by {
                    if j == pi as int {
                        assert(sh2[j] == stp1);
                    } else {
                        assert(sh2[j] == sh0[j]);
                    }
                }
                if event.ttn is Some && event.station.spec_next_station(event.direction)
                    is Some {
                    crate::event::lemma_next_prev_roundtrip(event.station, event.direction);
                    assert(f.ty is Handover);
                    assert(f.station.spec_previous_station(f.direction) == Some(event.station));
                } else {
                    assert(f.ty is Terminate && f.station == event.station);
                }
            }
            assert forall|i: int| 0 <= i < self.fel@.len() implies event_linked(
                #[trigger] self.fel@[i],
                sh2,
            ) by {
                if self.fel@[i] != f {
                    assert(rest.contains(self.fel@[i]));
                    let w = choose|w: int| 0 <= w < rest.len() && rest[w] == self.fel@[i];
                    assert(event_linked(rest[w], sh2));
                }
            }
        }
        results
    }

    /// Pop the earliest event and dispatch it to its handler.  Returns the
    /// records the event produced, or `None` once the queue is exhausted.
    ///
    /// Every record carries the popped event's time, and every event left
    /// in the queue is at or after it: the processed times never decrease.
    pub fn step(&mut self, shared: &mut Shared) -> (r: Option<Vec<CellEventResult>>)
        requires
            old(self).coherent(old(shared)),
        ensures
            final(self).coherent(final(shared)),
            final(self).run_num == old(self).run_num,
            r is None <==> old(self).fel@.len() == 0,
            r is None ==> final(self).fel@ == old(self).fel@ && final(shared)@ == old(shared)@
                && *final(shared) == *old(shared),
            r matches Some(res) ==> {
                &&& (final(self).fel@, final(shared)@, res@) == spec_step(
                    old(self).fel@,
                    old(shared)@,
                )
                &&& res@.len() == 1
                &&& res@[0].idx == old(self).fel@[0].idx
                &&& res@[0].run == old(self).fel@[0].run
                &&& res@[0].time == old(self).fel@[0].time
                &&& forall|i: int|
                    0 <= i < final(self).fel@.len() ==> old(self).fel@[0].time <= (
                    #[trigger] final(self).fel@[i]).time
                &&& wsum(final(self).fel@) < wsum(old(self).fel@)
            },
    {
        let ghost fel0 = self.fel@;
        let next_event = match self.fel.pop_front() {
            Some(e) => e,
            None => {
                return None;
            },
        };
        let ghost rest = self.fel@;
        proof {
            assert(rest =~= fel0.drop_first());
            assert(next_event == fel0[0]);
            assert(event_ok(next_event));
            assert(event_linked(next_event, shared@));
            assert forall|i: int| 0 <= i < rest.len() implies event_ok(#[trigger] rest[i])
                && event_linked(rest[i], shared@) && next_event.idx != rest[i].idx
                && next_event.time <= rest[i].time by {
                assert(rest[i] == fel0[i + 1]);
                assert(event_ok(fel0[i + 1]));
                assert(event_linked(fel0[i + 1], shared@));
            }
            assert forall|i: int, j: int| 0 <= i < j < rest.len() implies rest[i].idx
                != rest[j].idx by {
                assert(rest[i] == fel0[i + 1] && rest[j] == fel0[j + 1]);
            }
            assert(fel_ok(rest));
            assert(wsum(fel0) == event_weight(next_event) + wsum(rest));
        }
        let results = match next_event.ty {
            CellEventType::Initiate => self.process_call_initiation(next_event, shared),
            CellEventType::Terminate => self.process_call_terminate(next_event, shared),
            CellEventType::Handover => self.process_call_handover(next_event, shared),
        };
        Some(results)
    }
}

/// The largest call index among the records, or zero for none.
pub open spec fn max_call_idx(results: Seq<CellEventResult>) -> int
    decreases results.len(),
{
    if results.len() == 0 {
        0
    } else {
        let m = max_call_idx(results.drop_last());
        if results.last().idx > m {
            results.last().idx as int
        } else {
            m
        }
    }
}

/// Number of records with a blocked outcome.
pub open spec fn count_blocked(results: Seq<CellEventResult>) -> int
    decreases results.len(),
{
    if results.len() == 0 {
        0
    } else {
        count_blocked(results.drop_last()) + if results.last().outcome is Blocked {
            1int
        } else {
            0int
        }
    }
}

/// Number of records with a dropped (terminated-by-station) outcome.
pub open spec fn count_dropped(results: Seq<CellEventResult>) -> int
    decreases results.len(),
{
    if results.len() == 0 {
        0
    } else {
        count_dropped(results.drop_last()) + if results.last().outcome is Terminated {
            1int
        } else {
            0int
        }
    }
}

impl EventProcessor {
    /// Reduce a slice of records to the performance counts: the highest
    /// call index seen, the blocked initiations, and the dropped
    /// handovers.
    pub fn calculate_performance_measure(results: &[CellEventResult]) -> (pm: PerfMeasure)
        ensures
            pm.initiated == max_call_idx(results@),
            pm.blocked_calls == count_blocked(results@),
            pm.dropped_calls == count_dropped(results@),
    {
        let mut initiated: usize = 0;
        let mut blocked: usize = 0;
        let mut dropped: usize = 0;
        let mut i: usize = 0;
        while i < results.len()
            invariant
                i <= results@.len(),
                initiated == max_call_idx(results@.subrange(0, i as int)),
                blocked == count_blocked(results@.subrange(0, i as int)),
                dropped == count_dropped(results@.subrange(0, i as int)),
                blocked <= i,
                dropped <= i,
            decreases results@.len() - i,
        {
            proof {
                lemma_count_bounds(results@.subrange(0, i as int));
            }
            let r = vstd::slice::slice_index_get(results, i);
            if r.idx > initiated {
                initiated = r.idx;
            }
            if matches!(r.outcome, StationResponse::Blocked) {
                blocked = blocked + 1;
            }
            if matches!(r.outcome, StationResponse::Terminated) {
                dropped = dropped + 1;
            }
            proof {
                let pre = results@.subrange(0, i as int);
                let cur = results@.subrange(0, i + 1);
                assert(cur.drop_last() =~= pre);
                assert(cur.last() == results@[i as int]);
            }
            i += 1;
        }
        proof {
            assert(results@.subrange(0, results@.len() as int) =~= results@);
        }
        PerfMeasure { initiated, blocked_calls: blocked, dropped_calls: dropped }
    }
}

/// At the westernmost station, an east-to-west call with a pending
/// crossing does not hand over into a station that does not exist: its
/// follow-up terminates the call at the same station, at the west end, at
/// the crossing time.
pub proof fn lemma_west_edge_terminates(e: CellEvent)
    requires
        e.wf(),
        e.station.as_int() == 0,
        e.direction is EastToWest,
        e.ttn is Some,
    ensures
        spec_followup(e).ty is Terminate,
        spec_followup(e).station == e.station,
        spec_followup(e).position == RelativeVehiclePosition::WestEnd,
        spec_followup(e).time == e.time + e.ttn.unwrap(),
{
}

/// At the easternmost station, a west-to-east call with a pending crossing
/// is the symmetric case: its follow-up terminates the call at the same
/// station, at the east end, at the crossing time.
pub proof fn lemma_east_edge_terminates(e: CellEvent)
    requires
        e.wf(),
        e.station.as_int() == NUM_STATIONS - 1,
        e.direction is WestToEast,
        e.ttn is Some,
    ensures
        spec_followup(e).ty is Terminate,
        spec_followup(e).station == e.station,
        spec_followup(e).position == RelativeVehiclePosition::EastEnd,
        spec_followup(e).time == e.time + e.ttn.unwrap(),
{
}

/// Each processed event leaves exactly one record, for its own call, and a
/// follow-up event of that call stays pending exactly when the station
/// carried the call: a blocked initiation or a dropped handover ends the
/// call's event chain, a termination closes it.
pub proof fn lemma_step_records_and_followup(fel: Seq<CellEvent>, stations: Seq<StationView>)
    requires
        fel_ok(fel),
        fel.len() >= 1,
    ensures
        ({
            let (fel1, stations1, res) = spec_step(fel, stations);
            &&& res.len() == 1
            &&& res[0].idx == fel[0].idx
            &&& ((exists|k: int| 0 <= k < fel1.len() && (#[trigger] fel1[k]).idx == fel[0].idx)
                <==> (res[0].outcome is Success && !(fel[0].ty is Terminate)))
        }),
{
    let e = fel[0];
    let rest = fel.drop_first();
    let (fel1, stations1, res) = spec_step(fel, stations);
    assert forall|i: int| 0 <= i < rest.len() implies (#[trigger] rest[i]).idx != e.idx by {
        assert(rest[i] == fel[i + 1]);
    }
    assert(fel_sorted(rest)) by {
        assert forall|i: int, j: int| 0 <= i < j < rest.len() implies rest[i].time
            <= rest[j].time by {
            assert(rest[i] == fel[i + 1] && rest[j] == fel[j + 1]);
        }
    }
    if fel1 == rest {
        assert forall|k: int| 0 <= k < fel1.len() implies (#[trigger] fel1[k]).idx != e.idx by {
            assert(fel1[k] == rest[k]);
        }
    }
    let f = spec_followup(e);
    lemma_upper_bound(rest, f.time);
    lemma_fel_insert_index(rest, f);
    let p = upper_bound(rest, f.time);
    match e.ty {
        CellEventType::Terminate => {},
        CellEventType::Initiate => {
            if request_response(stations[e.station.as_int()], StationRequest::Initiate)
                is Success {
                assert(fel1 == fel_insert(rest, f));
                assert(fel1[p].idx == e.idx);
            } else {
                assert(fel1 == rest);
            }
        },
        CellEventType::Handover => {
            let pv = e.station.spec_previous_station(e.direction).unwrap().as_int();
            let stations1h = stations.update(
                pv,
                request_next(stations[pv], StationRequest::HandoverDisconnect, e.idx),
            );
            if request_response(stations1h[e.station.as_int()], StationRequest::HandoverConnect)
                is Success {
                assert(fel1 == fel_insert(rest, f));
                assert(fel1[p].idx == e.idx);
            } else {
                assert(fel1 == rest);
            }
        },
    }
}

/// The outcome counts never exceed the record count.
pub proof fn lemma_count_bounds(results: Seq<CellEventResult>)
    ensures
        0 <= count_blocked(results) <= results.len(),
        0 <= count_dropped(results) <= results.len(),
    decreases results.len(),
{
    if results.len() > 0 {
        lemma_count_bounds(results.drop_last());
    }
}

} // verus!
