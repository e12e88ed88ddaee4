//! A discrete-event Monte Carlo simulator of a one-dimensional cellular
//! telephony highway.
//!
//! Vehicles drive along a chain of twenty base stations, each covering a
//! two-kilometre segment.  Every vehicle initiates a call at a random
//! position with a random velocity and direction; the call is carried by
//! successive stations through handovers until it either terminates
//! naturally or is dropped because no channel is available at the next
//! station.  The simulator computes, per independent replication, the
//! blocking probability (new call attempts refused) and the dropping
//! probability (handover attempts refused).
//!
//! All physical quantities are held as scaled integers so that every state
//! transition has an exact arithmetic meaning: simulated time and durations
//! in milliseconds, positions in millimetres measured from the west edge of
//! a station's coverage, and velocities in millimetres per hour.

pub mod args;
pub mod event;
pub mod generator;
pub mod logic;
pub mod runner;
pub mod sampler;
pub mod sim_exec;
pub mod station;
