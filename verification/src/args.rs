//! Run configuration for the simulator.

use vstd::prelude::*;

use crate::logic::STATION_CHANNELS;

verus! {

/// Main command-line arguments, as plain values.
///
/// Parsing and default values live at the binary's edge; this type holds
/// the configuration the simulation consumes.
pub struct CliArgs {
    /// Number of simulation runs to perform.
    pub num_runs: u32,
    /// Number of call initiation events to generate per simulation run.
    pub num_events: u32,
    /// The number of channels reserved for handover requests.
    pub reserved_handover_channels: u8,
    /// Run the simulation in antithetic pairs.
    pub antithetic: bool,
    /// Records skipped per run before computing performance measures.
    pub warmup: u32,
    /// Output file for completed events in the simulation.
    pub event_log_output: String,
    /// Output file for performance measures in the simulation.
    pub perf_measure_output: String,
    /// Common postfix for both output file names, inserted before the
    /// extension.
    pub common_postfix: Option<String>,
    /// Skip writing the event log to file.
    pub skip_event_log: bool,
    /// Generate this many call initiation events, without running the
    /// simulation.
    pub generate: Option<u32>,
    /// Where generated call initiation events are written.
    pub generate_to: String,
}

impl CliArgs {
    /// A configuration is valid when the reservation fits the stations'
    /// channel count.
    pub open spec fn valid(&self) -> bool {
        self.reserved_handover_channels <= STATION_CHANNELS
    }

    /// Check that the reservation fits the stations' channel count.
    pub fn is_valid(&self) -> (r: bool)
        ensures
            r == self.valid(),
    {
        self.reserved_handover_channels as usize <= STATION_CHANNELS
    }
}

} // verus!
