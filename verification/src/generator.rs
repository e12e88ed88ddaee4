//! Assembly of call initiation events from random samples.
//!
//! The streams of random variates (call duration, inter-arrival gap, cell
//! tower, velocity, position, direction) are drawn outside of this module
//! and handed in as plain scaled integers; this module holds the logic that
//! turns them into events: the running clock, the call indices, and the
//! time-to-next-station geometry.

use vstd::arithmetic::div_mod::{lemma_multiply_divide_le, lemma_multiply_divide_lt};
use vstd::prelude::*;

use crate::event::{
    BaseStationIdx, CellEvent, CellEventType, RelativeVehiclePosition, VehicleDirection,
    CELL_LENGTH_MM, MS_PER_HOUR, NUM_STATIONS,
};

verus! {

/// Number of raw draws to cache for antithetic sampling; a Gaussian variate
/// can consume more than one draw.
pub const ANTITHETIC_PREPARE: usize = 10;

/// Scale of the cell-tower draw: a uniform value on `[0, 20)` is handed in
/// multiplied by this factor.
pub const TOWER_DRAW_SCALE: u64 = 1_000;

/// Scale of the direction draw: a uniform value on `[0, 1]` is handed in
/// multiplied by this factor.
pub const DIRECTION_DRAW_SCALE: u64 = 1_000_000;

/// One set of random variates, enough to build one call initiation event.
///
/// Durations are in milliseconds, the position in millimetres, the velocity
/// in millimetres per hour; the tower and direction draws are uniform
/// variates scaled by [`TOWER_DRAW_SCALE`] and [`DIRECTION_DRAW_SCALE`].
#[derive(Clone, Copy, Debug)]
pub struct CallSamples {
    /// Total call duration, in milliseconds.
    pub call_duration_ms: u64,
    /// Gap to the previous call initiation, in milliseconds.
    pub inter_arrival_ms: u64,
    /// Cell tower draw, uniform on `[0, 20)` scaled by [`TOWER_DRAW_SCALE`].
    pub tower_draw: u64,
    /// Vehicle velocity, in millimetres per hour.
    pub velocity_mmh: u64,
    /// Vehicle position within the cell, in millimetres from the west end.
    pub position_mm: u64,
    /// Direction draw, uniform on `[0, 1]` scaled by
    /// [`DIRECTION_DRAW_SCALE`].
    pub direction_draw: u64,
}

impl CallSamples {
    /// Bounds under which a sample set can be turned into an event: the
    /// position lies within the cell and the vehicle moves.
    pub open spec fn valid(self) -> bool {
        &&& self.position_mm <= CELL_LENGTH_MM
        &&& self.velocity_mmh >= 1
    }

    /// Check the bounds under which this sample set can be turned into an
    /// event.
    pub fn is_valid(&self) -> (r: bool)
        ensures
            r == self.valid(),
    {
        self.position_mm <= CELL_LENGTH_MM && self.velocity_mmh >= 1
    }
}

/// Distance from the vehicle's position to the boundary it is driving
/// towards, in millimetres.
pub open spec fn distance_to_boundary(position_mm: u64, dir: VehicleDirection) -> int {
    match dir {
        VehicleDirection::WestToEast => CELL_LENGTH_MM - position_mm,
        VehicleDirection::EastToWest => position_mm as int,
    }
}

/// Time to the next base station: the remaining distance divided by the
/// velocity, or `None` when the call ends first.
pub open spec fn spec_ttn(
    call_dur_ms: u64,
    position_mm: u64,
    velocity_mmh: u64,
    dir: VehicleDirection,
) -> Option<u64> {
    let d = distance_to_boundary(position_mm, dir);
    if d * MS_PER_HOUR <= call_dur_ms * velocity_mmh {
        Some((d * MS_PER_HOUR / velocity_mmh as int) as u64)
    } else {
        None
    }
}

/// Calculate the time to the next station, in milliseconds.
///
/// Returns `None` exactly when the remaining call time is shorter than the
/// time to the boundary, that is when the call ends at the current station.
pub fn calculate_ttn(
    call_dur: u64,
    vehicle_position: u64,
    vehicle_velocity: u64,
    vehicle_direction: VehicleDirection,
) -> (r: Option<u64>)
    requires
        vehicle_position <= CELL_LENGTH_MM,
        vehicle_velocity >= 1,
    ensures
        r == spec_ttn(call_dur, vehicle_position, vehicle_velocity, vehicle_direction),
        r is None <==> call_dur * vehicle_velocity < distance_to_boundary(
            vehicle_position,
            vehicle_direction,
        ) * MS_PER_HOUR,
        r matches Some(delta) ==> delta <= call_dur,
{
    let dist: u64 = match vehicle_direction {
        VehicleDirection::WestToEast => CELL_LENGTH_MM - vehicle_position,
        VehicleDirection::EastToWest => vehicle_position,
    };
    let ghost d = dist as int;
    let crossing: u128 = dist as u128 * MS_PER_HOUR as u128;
    proof {
        assert(call_dur as int * vehicle_velocity as int <= u64::MAX as int * u64::MAX as int)
            by (nonlinear_arith)
            requires
                call_dur as int <= u64::MAX as int,
                vehicle_velocity as int <= u64::MAX as int,
                0 <= call_dur as int,
                0 <= vehicle_velocity as int,
        ;
    }
    let budget: u128 = call_dur as u128 * vehicle_velocity as u128;
    if crossing <= budget {
        let delta128: u128 = crossing / (vehicle_velocity as u128);
        proof {
            lemma_multiply_divide_le(
                d * MS_PER_HOUR,
                vehicle_velocity as int,
                call_dur as int,
            );
            assert(delta128 <= call_dur);
        }
        Some(delta128 as u64)
    } else {
        None
    }
}

/// A crossing that happens within the call budget takes no longer than
/// the remaining call time.
pub proof fn lemma_spec_ttn_delta_le(
    call_dur_ms: u64,
    position_mm: u64,
    velocity_mmh: u64,
    dir: VehicleDirection,
)
    requires
        velocity_mmh >= 1,
        position_mm <= CELL_LENGTH_MM,
    ensures
        spec_ttn(call_dur_ms, position_mm, velocity_mmh, dir) matches Some(delta) ==> delta
            <= call_dur_ms,
{
    let d = distance_to_boundary(position_mm, dir);
    if d * MS_PER_HOUR <= call_dur_ms * velocity_mmh {
        lemma_multiply_divide_le(d * MS_PER_HOUR, velocity_mmh as int, call_dur_ms as int);
    }
}

/// Distance covered at `velocity_mmh` during `dur_ms`, in millimetres.
pub open spec fn spec_travel_mm(velocity_mmh: u64, dur_ms: u64) -> int {
    velocity_mmh * dur_ms / MS_PER_HOUR as int
}

/// Position of the vehicle after driving for `dur_ms`, in millimetres from
/// the west end of its station.
pub open spec fn spec_final_position(
    position_mm: u64,
    velocity_mmh: u64,
    dur_ms: u64,
    dir: VehicleDirection,
) -> int {
    match dir {
        VehicleDirection::WestToEast => position_mm + spec_travel_mm(velocity_mmh, dur_ms),
        VehicleDirection::EastToWest => position_mm - spec_travel_mm(velocity_mmh, dur_ms),
    }
}

/// A call that ends before the boundary leaves the vehicle inside the
/// cell.
pub proof fn lemma_final_position_in_cell(
    position_mm: u64,
    velocity_mmh: u64,
    dur_ms: u64,
    dir: VehicleDirection,
)
    requires
        position_mm <= CELL_LENGTH_MM,
        velocity_mmh >= 1,
        spec_ttn(dur_ms, position_mm, velocity_mmh, dir) is None,
    ensures
        0 <= spec_final_position(position_mm, velocity_mmh, dur_ms, dir) <= CELL_LENGTH_MM,
{
    let d = distance_to_boundary(position_mm, dir);
    vstd::arithmetic::mul::lemma_mul_nonnegative(velocity_mmh as int, dur_ms as int);
    vstd::arithmetic::div_mod::lemma_div_pos_is_pos(
        velocity_mmh as int * dur_ms as int,
        MS_PER_HOUR as int,
    );
    assert(velocity_mmh * dur_ms < MS_PER_HOUR * d);
    lemma_multiply_divide_lt(velocity_mmh * dur_ms, MS_PER_HOUR as int, d);
}

/// Where a call that ends inside the current cell leaves the vehicle.
///
/// The caller guarantees, through `spec_ttn` being `None`, that the call
/// ends before the boundary; the result therefore stays inside the cell.
pub fn final_position(
    position_mm: u64,
    velocity_mmh: u64,
    dur_ms: u64,
    dir: VehicleDirection,
) -> (r: u64)
    requires
        position_mm <= CELL_LENGTH_MM,
        velocity_mmh >= 1,
        spec_ttn(dur_ms, position_mm, velocity_mmh, dir) is None,
    ensures
        r == spec_final_position(position_mm, velocity_mmh, dur_ms, dir),
        r <= CELL_LENGTH_MM,
{
    let travel128: u128 = velocity_mmh as u128 * dur_ms as u128 / (MS_PER_HOUR as u128);
    proof {
        let d = distance_to_boundary(position_mm, dir);
        assert(velocity_mmh * dur_ms < MS_PER_HOUR * d);
        lemma_multiply_divide_lt(velocity_mmh * dur_ms, MS_PER_HOUR as int, d);
        assert(travel128 < d);
    }
    let travel: u64 = travel128 as u64;
    match dir {
        VehicleDirection::WestToEast => position_mm + travel,
        VehicleDirection::EastToWest => position_mm - travel,
    }
}

/// The direction encoded by a scaled uniform draw on `[0, 1]`: west to east
/// for the upper half.
pub open spec fn spec_direction(direction_draw: u64) -> VehicleDirection {
    if direction_draw > DIRECTION_DRAW_SCALE / 2 {
        VehicleDirection::WestToEast
    } else {
        VehicleDirection::EastToWest
    }
}

/// The station encoded by a scaled uniform draw on `[0, 20)`.
pub open spec fn spec_station(tower_draw: u64) -> BaseStationIdx {
    BaseStationIdx::from_int(((tower_draw / TOWER_DRAW_SCALE) % NUM_STATIONS as u64) as int)
}

/// The call initiation event built from one sample set, with index `idx`,
/// at absolute time `arr_time`.
pub open spec fn spec_cell_event(
    idx: usize,
    run: u32,
    s: CallSamples,
    arr_time: u64,
) -> CellEvent {
    CellEvent {
        idx,
        run,
        time: arr_time,
        ty: CellEventType::Initiate,
        remaining_time: s.call_duration_ms,
        ttn: spec_ttn(s.call_duration_ms, s.position_mm, s.velocity_mmh, spec_direction(
            s.direction_draw,
        )),
        velocity: s.velocity_mmh,
        direction: spec_direction(s.direction_draw),
        station: spec_station(s.tower_draw),
        position: RelativeVehiclePosition::Other(s.position_mm),
    }
}

/// Assemble a call initiation event from one set of random variates.
pub fn cell_event_from_random_variables(
    idx: usize,
    run: u32,
    samples: &CallSamples,
    arr_time: u64,
) -> (ev: CellEvent)
    requires
        samples.valid(),
        arr_time + samples.call_duration_ms <= u64::MAX,
    ensures
        ev == spec_cell_event(idx, run, *samples, arr_time),
        ev.wf(),
{
    let dir = if samples.direction_draw > DIRECTION_DRAW_SCALE / 2 {
        VehicleDirection::WestToEast
    } else {
        VehicleDirection::EastToWest
    };
    let ttn = calculate_ttn(samples.call_duration_ms, samples.position_mm, samples.velocity_mmh, dir);
    let station_raw: u64 = (samples.tower_draw / TOWER_DRAW_SCALE) % (NUM_STATIONS as u64);
    CellEvent {
        idx,
        run,
        time: arr_time,
        ty: CellEventType::Initiate,
        remaining_time: samples.call_duration_ms,
        ttn,
        velocity: samples.velocity_mmh,
        direction: dir,
        station: BaseStationIdx::from_index(station_raw as usize),
        position: RelativeVehiclePosition::Other(samples.position_mm),
    }
}

/// Generator of call initiation events.
///
/// Keeps the running clock and the call index; each sample set advances the
/// clock by the inter-arrival gap and yields the next event.
#[derive(Clone, Copy, Debug)]
pub struct CallEventGenerator {
    /// Absolute time of the last initiation, in milliseconds.
    pub time: u64,
    /// Index of the last call handed out.
    pub count: usize,
    /// Replication number.
    pub run: usize,
}

/// Generator of antithetic pairs of call initiation events.
///
/// The two halves of each pair keep separate clocks but share the call
/// index.
#[derive(Clone, Copy, Debug)]
pub struct AntitheticCallEventGenerator {
    /// Clock of the first stream, in milliseconds.
    pub time_a: u64,
    /// Clock of the second stream, in milliseconds.
    pub time_b: u64,
    /// Index of the last call handed out.
    pub count: usize,
    /// Replication number.
    pub run: usize,
}

impl CallEventGenerator {
    /// Initialize the event generator for one replication.
    pub fn new(run: usize) -> (g: Self)
        ensures
            g.time == 0,
            g.count == 0,
            g.run == run,
    {
        Self { time: 0, count: 0, run }
    }

    /// Build the next call initiation event from one set of variates.
    ///
    /// Returns `None` exactly when the call index or the clock would leave
    /// the machine's range; the generator is then left unchanged.
    pub fn next_event(&mut self, samples: &CallSamples) -> (r: Option<CellEvent>)
        requires
            samples.valid(),
        ensures
            r is Some <==> (old(self).count + 1 <= usize::MAX && old(self).time
                + samples.inter_arrival_ms + samples.call_duration_ms <= u64::MAX),
            r is None ==> *final(self) == *old(self),
            r matches Some(ev) ==> {
                &&& final(self).time == old(self).time + samples.inter_arrival_ms
                &&& final(self).count == old(self).count + 1
                &&& final(self).run == old(self).run
                &&& ev == spec_cell_event(
                    final(self).count,
                    old(self).run as u32,
                    *samples,
                    final(self).time,
                )
                &&& ev.wf()
            },
    {
        if self.count == usize::MAX {
            return None;
        }
        let arrival = match self.time.checked_add(samples.inter_arrival_ms) {
            Some(t) => t,
            None => {
                return None;
            },
        };
        if arrival.checked_add(samples.call_duration_ms).is_none() {
            return None;
        }
        self.count += 1;
        self.time = arrival;
        Some(cell_event_from_random_variables(self.count, self.run as u32, samples, arrival))
    }

    /// Create a generator that yields antithetic pairs, continuing from
    /// this generator's clock and call index.
    pub fn antithetic(&self) -> (g: AntitheticCallEventGenerator)
        ensures
            g.time_a == self.time,
            g.time_b == self.time,
            g.count == self.count,
            g.run == self.run,
    {
        AntitheticCallEventGenerator {
            time_a: self.time,
            time_b: self.time,
            count: self.count,
            run: self.run,
        }
    }
}

impl AntitheticCallEventGenerator {
    /// Build the next antithetic pair of call initiation events from the
    /// two mirrored sets of variates.
    ///
    /// Returns `None` exactly when the call index or either clock would
    /// leave the machine's range; the generator is then left unchanged.
    pub fn next_pair(&mut self, samples_a: &CallSamples, samples_b: &CallSamples) -> (r: Option<
        (CellEvent, CellEvent),
    >)
        requires
            samples_a.valid(),
            samples_b.valid(),
        ensures
            r is Some <==> (old(self).count + 1 <= usize::MAX && old(self).time_a
                + samples_a.inter_arrival_ms + samples_a.call_duration_ms <= u64::MAX && old(
                self,
            ).time_b + samples_b.inter_arrival_ms + samples_b.call_duration_ms <= u64::MAX),
            r is None ==> *final(self) == *old(self),
            r matches Some(pair) ==> {
                &&& final(self).time_a == old(self).time_a + samples_a.inter_arrival_ms
                &&& final(self).time_b == old(self).time_b + samples_b.inter_arrival_ms
                &&& final(self).count == old(self).count + 1
                &&& final(self).run == old(self).run
                &&& pair.0 == spec_cell_event(
                    final(self).count,
                    old(self).run as u32,
                    *samples_a,
                    final(self).time_a,
                )
                &&& pair.1 == spec_cell_event(
                    final(self).count,
                    old(self).run as u32,
                    *samples_b,
                    final(self).time_b,
                )
                &&& pair.0.wf()
                &&& pair.1.wf()
            },
    {
        if self.count == usize::MAX {
            return None;
        }
        let arrival_a = match self.time_a.checked_add(samples_a.inter_arrival_ms) {
            Some(t) => t,
            None => {
                return None;
            },
        };
        if arrival_a.checked_add(samples_a.call_duration_ms).is_none() {
            return None;
        }
        let arrival_b = match self.time_b.checked_add(samples_b.inter_arrival_ms) {
            Some(t) => t,
            None => {
                return None;
            },
        };
        if arrival_b.checked_add(samples_b.call_duration_ms).is_none() {
            return None;
        }
        self.count += 1;
        self.time_a = arrival_a;
        self.time_b = arrival_b;
        let run32 = self.run as u32;
        let ev_a = cell_event_from_random_variables(self.count, run32, samples_a, arrival_a);
        let ev_b = cell_event_from_random_variables(self.count, run32, samples_b, arrival_b);
        Some((ev_a, ev_b))
    }
}

} // verus!
