//! Event definitions for the simulator.
//!
//! Physical quantities are scaled integers: simulated time and durations in
//! milliseconds, positions in millimetres from the west edge of a station's
//! coverage, velocities in millimetres per hour.

use vstd::prelude::*;

use crate::station::StationResponse;

verus! {

/// Length of one station's coverage segment, in millimetres (2 km).
pub const CELL_LENGTH_MM: u64 = 2_000_000;

/// Milliseconds in one hour; converts millimetres per hour into
/// millimetres per millisecond.
pub const MS_PER_HOUR: u64 = 3_600_000;

/// Number of base stations along the highway.
pub const NUM_STATIONS: usize = 20;

/// The kind of work an event asks of the simulator.
#[derive(Clone, Copy, Debug, PartialEq, Eq, Structural)]
pub enum CellEventType {
    /// A call is initiated by a customer.
    Initiate,
    /// A call is terminated by a customer.
    Terminate,
    /// A customer's call is passed from one base station to the next.
    Handover,
}

/// Vehicle movement direction.
#[derive(Clone, Copy, Debug, PartialEq, Eq, Structural)]
pub enum VehicleDirection {
    /// The vehicle encounters base stations in ascending order.
    WestToEast,
    /// The vehicle encounters base stations in descending order.
    EastToWest,
}

/// The base station servicing a vehicle, a dense index 0 to 19 from west to
/// east.
#[derive(Clone, Copy, Debug, PartialEq, Eq, Structural)]
pub enum BaseStationIdx {
    One,
    Two,
    Three,
    Four,
    Five,
    Six,
    Seven,
    Eight,
    Nine,
    Ten,
    Eleven,
    Twelve,
    Thirteen,
    Fourteen,
    Fifteen,
    Sixteen,
    Seventeen,
    Eighteen,
    Nineteen,
    Twenty,
}

/// Position of a vehicle relative to the west edge of its current station.
#[derive(Clone, Copy, Debug, PartialEq, Eq, Structural)]
pub enum RelativeVehiclePosition {
    /// The western end of the station's coverage area.
    WestEnd,
    /// The eastern end of the station's coverage area.
    EastEnd,
    /// Somewhere along the coverage area, in millimetres from the west end.
    Other(u64),
}

/// A discrete event in the simulator.
#[derive(Clone, Copy, Debug)]
pub struct CellEvent {
    /// Call index, shared by every event of the same call.
    pub idx: usize,
    /// Replication number.
    pub run: u32,
    /// Absolute simulated time of the event, in milliseconds.
    pub time: u64,
    /// Event type.
    pub ty: CellEventType,
    /// Call time yet to elapse at this event's instant, in milliseconds.
    pub remaining_time: u64,
    /// Time to the next base station, in milliseconds; `None` means the
    /// call ends inside the current station's coverage.
    pub ttn: Option<u64>,
    /// Vehicle velocity, in millimetres per hour.
    pub velocity: u64,
    /// Vehicle direction.
    pub direction: VehicleDirection,
    /// Station currently in range of the vehicle.
    pub station: BaseStationIdx,
    /// Vehicle position relative to that station.
    pub position: RelativeVehiclePosition,
}

/// The record emitted for each processed event.
#[derive(Clone, Copy, Debug, PartialEq, Eq, Structural)]
pub struct CellEventResult {
    /// Call index.
    pub idx: usize,
    /// Replication number.
    pub run: u32,
    /// Time of the event, in milliseconds from the start of the run.
    pub time: u64,
    /// Event type.
    pub ty: CellEventType,
    /// Outcome: a blocked initiation or a dropped handover is refused work,
    /// not an error.
    pub outcome: StationResponse,
    /// Vehicle direction.
    pub direction: VehicleDirection,
    /// Vehicle velocity, in millimetres per hour.
    pub speed: u64,
    /// Station involved in the event.
    pub station: BaseStationIdx,
    /// Channels left free at that station after the event.
    pub free_channels_after: usize,
}

/// Per-replication performance counts.  The blocking probability is
/// `blocked_calls / initiated` and the dropping probability
/// `dropped_calls / initiated`; the quotients are left to the caller so that
/// the counts stay exact.
#[derive(Clone, Copy, Debug, PartialEq, Eq, Structural)]
pub struct PerfMeasure {
    /// Number of initiated calls after the warm-up window.
    pub initiated: usize,
    /// Number of blocked call initiations.
    pub blocked_calls: usize,
    /// Number of dropped handovers.
    pub dropped_calls: usize,
}

impl BaseStationIdx {
    /// The dense index of this station, 0 to 19 from west to east.
    pub open spec fn as_int(self) -> int {
        match self {
            BaseStationIdx::One => 0,
            BaseStationIdx::Two => 1,
            BaseStationIdx::Three => 2,
            BaseStationIdx::Four => 3,
            BaseStationIdx::Five => 4,
            BaseStationIdx::Six => 5,
            BaseStationIdx::Seven => 6,
            BaseStationIdx::Eight => 7,
            BaseStationIdx::Nine => 8,
            BaseStationIdx::Ten => 9,
            BaseStationIdx::Eleven => 10,
            BaseStationIdx::Twelve => 11,
            BaseStationIdx::Thirteen => 12,
            BaseStationIdx::Fourteen => 13,
            BaseStationIdx::Fifteen => 14,
            BaseStationIdx::Sixteen => 15,
            BaseStationIdx::Seventeen => 16,
            BaseStationIdx::Eighteen => 17,
            BaseStationIdx::Nineteen => 18,
            BaseStationIdx::Twenty => 19,
        }
    }

    /// The station with dense index `i`.
    pub open spec fn from_int(i: int) -> BaseStationIdx {
        if i == 0 {
            BaseStationIdx::One
        } else if i == 1 {
            BaseStationIdx::Two
        } else if i == 2 {
            BaseStationIdx::Three
        } else if i == 3 {
            BaseStationIdx::Four
        } else if i == 4 {
            BaseStationIdx::Five
        } else if i == 5 {
            BaseStationIdx::Six
        } else if i == 6 {
            BaseStationIdx::Seven
        } else if i == 7 {
            BaseStationIdx::Eight
        } else if i == 8 {
            BaseStationIdx::Nine
        } else if i == 9 {
            BaseStationIdx::Ten
        } else if i == 10 {
            BaseStationIdx::Eleven
        } else if i == 11 {
            BaseStationIdx::Twelve
        } else if i == 12 {
            BaseStationIdx::Thirteen
        } else if i == 13 {
            BaseStationIdx::Fourteen
        } else if i == 14 {
            BaseStationIdx::Fifteen
        } else if i == 15 {
            BaseStationIdx::Sixteen
        } else if i == 16 {
            BaseStationIdx::Seventeen
        } else if i == 17 {
            BaseStationIdx::Eighteen
        } else if i == 18 {
            BaseStationIdx::Nineteen
        } else {
            BaseStationIdx::Twenty
        }
    }

    /// The dense index of this station.
    pub fn index(&self) -> (i: usize)
        ensures
            i == self.as_int(),
            i < NUM_STATIONS,
    {
        match self {
            BaseStationIdx::One => 0,
            BaseStationIdx::Two => 1,
            BaseStationIdx::Three => 2,
            BaseStationIdx::Four => 3,
            BaseStationIdx::Five => 4,
            BaseStationIdx::Six => 5,
            BaseStationIdx::Seven => 6,
            BaseStationIdx::Eight => 7,
            BaseStationIdx::Nine => 8,
            BaseStationIdx::Ten => 9,
            BaseStationIdx::Eleven => 10,
            BaseStationIdx::Twelve => 11,
            BaseStationIdx::Thirteen => 12,
            BaseStationIdx::Fourteen => 13,
            BaseStationIdx::Fifteen => 14,
            BaseStationIdx::Sixteen => 15,
            BaseStationIdx::Seventeen => 16,
            BaseStationIdx::Eighteen => 17,
            BaseStationIdx::Nineteen => 18,
            BaseStationIdx::Twenty => 19,
        }
    }

    /// The station with dense index `i`.
    pub fn from_index(i: usize) -> (s: BaseStationIdx)
        requires
            i < NUM_STATIONS,
        ensures
            s == BaseStationIdx::from_int(i as int),
            s.as_int() == i,
    {
        match i {
            0 => BaseStationIdx::One,
            1 => BaseStationIdx::Two,
            2 => BaseStationIdx::Three,
            3 => BaseStationIdx::Four,
            4 => BaseStationIdx::Five,
            5 => BaseStationIdx::Six,
            6 => BaseStationIdx::Seven,
            7 => BaseStationIdx::Eight,
            8 => BaseStationIdx::Nine,
            9 => BaseStationIdx::Ten,
            10 => BaseStationIdx::Eleven,
            11 => BaseStationIdx::Twelve,
            12 => BaseStationIdx::Thirteen,
            13 => BaseStationIdx::Fourteen,
            14 => BaseStationIdx::Fifteen,
            15 => BaseStationIdx::Sixteen,
            16 => BaseStationIdx::Seventeen,
            17 => BaseStationIdx::Eighteen,
            18 => BaseStationIdx::Nineteen,
            _ => BaseStationIdx::Twenty,
        }
    }

    /// The station a vehicle meets next when travelling in `dir`, if any.
    pub open spec fn spec_next_station(self, dir: VehicleDirection) -> Option<BaseStationIdx> {
        match dir {
            VehicleDirection::WestToEast => if self.as_int() < NUM_STATIONS - 1 {
                Some(BaseStationIdx::from_int(self.as_int() + 1))
            } else {
                None
            },
            VehicleDirection::EastToWest => if self.as_int() > 0 {
                Some(BaseStationIdx::from_int(self.as_int() - 1))
            } else {
                None
            },
        }
    }

    /// The station a vehicle came from when travelling in `dir`, if any.
    pub open spec fn spec_previous_station(self, dir: VehicleDirection) -> Option<
        BaseStationIdx,
    > {
        match dir {
            VehicleDirection::WestToEast => if self.as_int() > 0 {
                Some(BaseStationIdx::from_int(self.as_int() - 1))
            } else {
                None
            },
            VehicleDirection::EastToWest => if self.as_int() < NUM_STATIONS - 1 {
                Some(BaseStationIdx::from_int(self.as_int() + 1))
            } else {
                None
            },
        }
    }

    /// The next station in the direction of travel, or `None` at the edge
    /// of the highway.
    pub fn next_station(&self, dir: VehicleDirection) -> (r: Option<BaseStationIdx>)
        ensures
            r == self.spec_next_station(dir),
    {
        let station_idx = self.index();
        match dir {
            VehicleDirection::WestToEast => {
                if station_idx < NUM_STATIONS - 1 {
                    Some(Self::from_index(station_idx + 1))
                } else {
                    None
                }
            },
            VehicleDirection::EastToWest => {
                if station_idx > 0 {
                    Some(Self::from_index(station_idx - 1))
                } else {
                    None
                }
            },
        }
    }

    /// The previous station in the direction of travel, or `None` at the
    /// edge of the highway.
    pub fn previous_station(&self, dir: VehicleDirection) -> (r: Option<BaseStationIdx>)
        ensures
            r == self.spec_previous_station(dir),
    {
        let station_idx = self.index();
        match dir {
            VehicleDirection::WestToEast => {
                if station_idx > 0 {
                    Some(Self::from_index(station_idx - 1))
                } else {
                    None
                }
            },
            VehicleDirection::EastToWest => {
                if station_idx < NUM_STATIONS - 1 {
                    Some(Self::from_index(station_idx + 1))
                } else {
                    None
                }
            },
        }
    }
}

/// Dense indices determine the station: `from_int` inverts `as_int`.
pub proof fn lemma_station_index_roundtrip(s: BaseStationIdx)
    ensures
        BaseStationIdx::from_int(s.as_int()) == s,
        0 <= s.as_int() < NUM_STATIONS,
{
}

/// `as_int` inverts `from_int` on the station range.
pub proof fn lemma_station_from_int_as_int(i: int)
    requires
        0 <= i < NUM_STATIONS,
    ensures
        BaseStationIdx::from_int(i).as_int() == i,
{
}

/// For every station `s` and direction `d`, the previous station of the
/// next station is `s` again, whenever the next station exists.
pub proof fn lemma_next_prev_roundtrip(s: BaseStationIdx, d: VehicleDirection)
    ensures
        s.spec_next_station(d) matches Some(t) ==> t.spec_previous_station(d) == Some(s),
{
    lemma_station_index_roundtrip(s);
    match s.spec_next_station(d) {
        Some(t) => lemma_station_index_roundtrip(t),
        None => (),
    }
}

impl RelativeVehiclePosition {
    /// This position as a distance from the western end of the station's
    /// coverage, in millimetres.
    pub open spec fn as_mm(self) -> u64 {
        match self {
            RelativeVehiclePosition::WestEnd => 0,
            RelativeVehiclePosition::EastEnd => CELL_LENGTH_MM,
            RelativeVehiclePosition::Other(pos) => pos,
        }
    }

    /// Convert this position to millimetres from the western end of the
    /// station's coverage.
    pub fn to_millimeters(&self) -> (r: u64)
        ensures
            r == self.as_mm(),
    {
        match self {
            RelativeVehiclePosition::WestEnd => 0,
            RelativeVehiclePosition::EastEnd => CELL_LENGTH_MM,
            RelativeVehiclePosition::Other(pos) => *pos,
        }
    }
}

/// The record for event `e` with the given outcome and free-channel count.
pub open spec fn result_of(
    e: CellEvent,
    outcome: StationResponse,
    free_channels_after: usize,
) -> CellEventResult {
    CellEventResult {
        idx: e.idx,
        run: e.run,
        time: e.time,
        ty: e.ty,
        outcome,
        direction: e.direction,
        speed: e.velocity,
        station: e.station,
        free_channels_after,
    }
}

impl CellEvent {
    /// Bounds every event of a running simulation satisfies: the vehicle
    /// sits inside its station's coverage, the velocity is positive, the
    /// event's end of call stays within the clock's range, and a pending
    /// boundary crossing happens before the call would end.
    pub open spec fn wf(self) -> bool {
        &&& self.position.as_mm() <= CELL_LENGTH_MM
        &&& self.velocity >= 1
        &&& self.time + self.remaining_time <= u64::MAX
        &&& (self.ttn matches Some(d) ==> d <= self.remaining_time)
    }

    /// Build the record for this event with the given outcome.
    pub fn to_result(&self, outcome: StationResponse, free_channels_after: usize) -> (r:
        CellEventResult)
        ensures
            r == result_of(*self, outcome, free_channels_after),
    {
        CellEventResult {
            idx: self.idx,
            run: self.run,
            time: self.time,
            ty: self.ty,
            outcome,
            direction: self.direction,
            speed: self.velocity,
            station: self.station,
            free_channels_after,
        }
    }
}

} // verus!
