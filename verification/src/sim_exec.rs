//! Common traits and data structures for running simulations.

use vstd::prelude::*;

verus! {

/// Status of a simulation.
#[derive(Clone, Copy, Debug, PartialEq, Eq, Structural)]
pub enum SimStatus {
    /// Continue processing the simulation.
    Continue,
    /// Terminate the simulation.
    Stop,
}

/// Marker type for event-based simulations.
#[derive(Clone, Copy, Debug)]
pub struct Event;

/// Marker type for process-based simulations.
#[derive(Clone, Copy, Debug)]
pub struct Process;

/// Event-based simulators implement this iterator-like trait.
///
/// Each step advances the simulation by an arbitrary amount of time.  The
/// `measure` bounds the number of steps left, so that driving a simulator
/// to completion terminates.
pub trait EventLike: Sized {
    /// Whether the simulator is in a state its steps expect.
    spec fn ready(&self) -> bool;

    /// An upper bound on the number of `Continue` steps left.
    spec fn measure(&self) -> nat;

    /// Advance the simulation to the next enqueued event.
    fn next_event(&mut self) -> (s: SimStatus)
        requires
            old(self).ready(),
        ensures
            final(self).ready(),
            s is Continue ==> final(self).measure() < old(self).measure(),
    ;
}

/// Iterator wrapper around an event-based simulator: yields one item per
/// step and ends when the simulation stops.
pub struct EventIterator<T: EventLike> {
    /// The wrapped simulator.
    pub inner: T,
}

impl<T: EventLike> EventIterator<T> {
    /// Advance once; `None` once the simulation has stopped.
    pub fn next(&mut self) -> (r: Option<SimStatus>)
        requires
            old(self).inner.ready(),
        ensures
            final(self).inner.ready(),
            r matches Some(s) ==> s is Continue && final(self).inner.measure() < old(
                self,
            ).inner.measure(),
    {
        match self.inner.next_event() {
            SimStatus::Continue => Some(SimStatus::Continue),
            SimStatus::Stop => None,
        }
    }
}

/// Wrapping an event-based simulator into an iterator; implemented for
/// every [`EventLike`] type.
pub trait ToEventIterator: EventLike {
    /// Wrap this simulator into an [`EventIterator`].
    fn to_event_iter(self) -> (r: EventIterator<Self>)
        ensures
            r.inner == self,
    ;
}

impl<T: EventLike> ToEventIterator for T {
    fn to_event_iter(self) -> (r: EventIterator<Self>)
        ensures
            r.inner == self,
    {
        EventIterator { inner: self }
    }
}

/// Process-based simulators implement this trait.
///
/// Process-based simulators run with an internal clock, tick by tick.
pub trait ProcessLike: Sized {
    /// Data injected into the simulation at each tick, if applicable.
    type Update;

    /// Advance the simulation by one tick.
    fn next_tick(&mut self, update: Self::Update) -> SimStatus;
}

/// The runner for a simulation: drives an event iterator to completion.
pub struct SimExecutor<T, P: EventLike> {
    /// The iterator the executor drains.
    pub iter: EventIterator<P>,
    /// Marker tying the executor to its simulation style.
    pub marker: core::marker::PhantomData<T>,
}

impl<Sim: EventLike> SimExecutor<Event, Sim> {
    /// Construct an executor for an event-based simulation.
    pub fn from_event(event: EventIterator<Sim>) -> (r: Self)
        ensures
            r.iter == event,
    {
        Self { iter: event, marker: core::marker::PhantomData }
    }
}

impl<Sim: EventLike> SimExecutor<Process, Sim> {
    /// Construct an executor for a process-based simulation.
    pub fn from_process(proc: EventIterator<Sim>) -> (r: Self)
        ensures
            r.iter == proc,
    {
        Self { iter: proc, marker: core::marker::PhantomData }
    }
}

impl<T, I: EventLike> SimExecutor<T, I> {
    /// Construct an executor from an iterator that yields [`SimStatus`].
    pub fn from_iterator(iter: EventIterator<I>) -> (r: Self)
        ensures
            r.iter == iter,
    {
        Self { iter, marker: core::marker::PhantomData }
    }

    /// Run the simulation to completion: step until the simulator stops,
    /// and hand back the last status the iterator yielded.
    pub fn execute(&mut self) -> (r: SimStatus)
        requires
            old(self).iter.inner.ready(),
        ensures
            final(self).iter.inner.ready(),
            r is Continue,
    {
        let mut final_step = SimStatus::Continue;
        loop
            invariant
                self.iter.inner.ready(),
                final_step is Continue,
            ensures
                self.iter.inner.ready(),
                final_step is Continue,
            decreases self.iter.inner.measure(),
        {
            match self.iter.next() {
                Some(status) => {
                    final_step = status;
                },
                None => {
                    break;
                },
            }
        }
        final_step
    }
}

} // verus!
