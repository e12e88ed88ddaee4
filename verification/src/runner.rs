//! The replication runner: one simulation run from seed events to
//! performance counts.
//!
//! A run is a pure function of its seed events and station configuration:
//! the runner's contract states the whole outcome through [`spec_run`], so
//! two runs from the same events are equal record for record.

use vstd::prelude::*;

use crate::event::{CellEvent, CellEventResult, CellEventType, PerfMeasure, NUM_STATIONS};
use crate::generator::{spec_cell_event, CallEventGenerator, CallSamples};
use crate::logic::{
    count_blocked, count_dropped, event_linked, event_ok, fel_linked, fel_ok, fel_sorted,
    fresh_station, max_call_idx, spec_followup, spec_step, wsum, EventProcessor, Shared,
    STATION_CHANNELS,
};
use crate::station::{request_next, request_response, StationRequest, StationView};

verus! {

/// The stations and records a simulation reaches within `fuel` steps.
pub open spec fn spec_run_fuel(
    fel: Seq<CellEvent>,
    stations: Seq<StationView>,
    fuel: nat,
) -> (Seq<StationView>, Seq<CellEventResult>)
    decreases fuel,
{
    if fel.len() == 0 || fuel == 0 {
        (stations, Seq::<CellEventResult>::empty())
    } else {
        let (fel1, stations1, res) = spec_step(fel, stations);
        let (stations2, rest) = spec_run_fuel(fel1, stations1, (fuel - 1) as nat);
        (stations2, res + rest)
    }
}

/// Fuel that certainly drains the queue.
pub open spec fn run_fuel_of(fel: Seq<CellEvent>) -> nat {
    if wsum(fel) >= 0 {
        wsum(fel) as nat
    } else {
        0
    }
}

/// The stations and records a simulation run reaches from the given queue:
/// every step pops the earliest event, and the queue's total weight bounds
/// the number of steps.
pub open spec fn spec_run(fel: Seq<CellEvent>, stations: Seq<StationView>) -> (
    Seq<StationView>,
    Seq<CellEventResult>,
) {
    spec_run_fuel(fel, stations, run_fuel_of(fel))
}

/// One step keeps the queue invariant and strictly shrinks the queue's
/// weight.
pub proof fn lemma_step_fel_ok(fel: Seq<CellEvent>, stations: Seq<StationView>)
    requires
        fel_ok(fel),
        fel.len() >= 1,
    ensures
        fel_ok(spec_step(fel, stations).0),
        wsum(spec_step(fel, stations).0) < wsum(fel),
        wsum(fel) >= 1,
{
    let e = fel[0];
    let rest = fel.drop_first();
    crate::logic::lemma_event_weight_pos(e);
    crate::logic::lemma_wsum_nonneg(rest);
    assert(wsum(fel) == crate::logic::event_weight(e) + wsum(rest));
    assert forall|i: int| 0 <= i < rest.len() implies event_ok(#[trigger] rest[i]) && e.idx
        != rest[i].idx && e.time <= rest[i].time by {
        assert(rest[i] == fel[i + 1]);
        assert(event_ok(fel[i + 1]));
    }
    assert forall|i: int, j: int| 0 <= i < j < rest.len() implies rest[i].idx != rest[j].idx by {
        assert(rest[i] == fel[i + 1] && rest[j] == fel[j + 1]);
    }
    assert(fel_ok(rest));
    match e.ty {
        crate::event::CellEventType::Terminate => {},
        crate::event::CellEventType::Initiate => {
            EventProcessor::lemma_queue_after_followup(rest, e);
        },
        crate::event::CellEventType::Handover => {
            EventProcessor::lemma_queue_after_followup(rest, e);
        },
    }
}

/// With enough fuel the run does not depend on the exact amount.
pub proof fn lemma_run_fuel_sufficient(
    fel: Seq<CellEvent>,
    stations: Seq<StationView>,
    n1: nat,
    n2: nat,
)
    requires
        fel_ok(fel),
        n1 >= wsum(fel),
        n2 >= wsum(fel),
    ensures
        spec_run_fuel(fel, stations, n1) == spec_run_fuel(fel, stations, n2),
    decreases n1 + n2,
{
    if fel.len() > 0 {
        lemma_step_fel_ok(fel, stations);
        let (fel1, stations1, res) = spec_step(fel, stations);
        lemma_run_fuel_sufficient(fel1, stations1, (n1 - 1) as nat, (n2 - 1) as nat);
    }
}

/// Unfolding one step of the run.
pub proof fn lemma_spec_run_unfold(fel: Seq<CellEvent>, stations: Seq<StationView>)
    requires
        fel_ok(fel),
        fel.len() >= 1,
    ensures
        ({
            let (fel1, stations1, res) = spec_step(fel, stations);
            &&& spec_run(fel, stations).0 == spec_run(fel1, stations1).0
            &&& spec_run(fel, stations).1 == res + spec_run(fel1, stations1).1
        }),
{
    lemma_step_fel_ok(fel, stations);
    crate::logic::lemma_wsum_nonneg(fel);
    let (fel1, stations1, res) = spec_step(fel, stations);
    lemma_run_fuel_sufficient(fel1, stations1, (run_fuel_of(fel) - 1) as nat, run_fuel_of(fel1));
}

/// The records that belong to call `x`, in order.
pub open spec fn call_records(res: Seq<CellEventResult>, x: usize) -> Seq<CellEventResult>
    decreases res.len(),
{
    if res.len() == 0 {
        Seq::<CellEventResult>::empty()
    } else {
        let rest = call_records(res.drop_first(), x);
        if res[0].idx == x {
            seq![res[0]] + rest
        } else {
            rest
        }
    }
}

/// Selecting a call's records distributes over concatenation.
pub proof fn lemma_call_records_add(a: Seq<CellEventResult>, b: Seq<CellEventResult>, x: usize)
    ensures
        call_records(a + b, x) == call_records(a, x) + call_records(b, x),
    decreases a.len(),
{
    if a.len() == 0 {
        assert(a + b =~= b);
        assert(Seq::<CellEventResult>::empty() + call_records(b, x) =~= call_records(b, x));
    } else {
        assert((a + b).drop_first() =~= a.drop_first() + b);
        assert((a + b)[0] == a[0]);
        lemma_call_records_add(a.drop_first(), b, x);
        if a[0].idx == x {
            assert(seq![a[0]] + (call_records(a.drop_first(), x) + call_records(b, x)) =~= (
            seq![a[0]] + call_records(a.drop_first(), x)) + call_records(b, x));
        }
    }
}

/// The record that ends a call's chain: its own termination, or the
/// handover at which it was dropped.
pub open spec fn chain_closes(r: CellEventResult) -> bool {
    (r.ty is Terminate && r.outcome is Success) || (r.ty is Handover && r.outcome
        is Terminated)
}

/// The records of a carried call after its initiation: zero or more
/// successful handovers followed by one closing record.
pub open spec fn handover_chain(s: Seq<CellEventResult>) -> bool
    decreases s.len(),
{
    if s.len() == 0 {
        false
    } else if s.len() == 1 {
        chain_closes(s[0])
    } else {
        s[0].ty is Handover && s[0].outcome is Success && handover_chain(s.drop_first())
    }
}

/// The complete record chain of one call: a blocked initiation is the
/// whole chain; a carried initiation is followed by a handover chain.
pub open spec fn call_chain(s: Seq<CellEventResult>) -> bool {
    &&& s.len() >= 1
    &&& s[0].ty is Initiate
    &&& if s[0].outcome is Blocked {
        s.len() == 1
    } else {
        s[0].outcome is Success && handover_chain(s.drop_first())
    }
}

/// Number of handover records in a sequence.
pub open spec fn count_handover_records(s: Seq<CellEventResult>) -> int
    decreases s.len(),
{
    if s.len() == 0 {
        0
    } else {
        (if s[0].ty is Handover {
            1int
        } else {
            0int
        }) + count_handover_records(s.drop_first())
    }
}

/// The length of a handover chain is determined by its handover count: a
/// terminated call adds one closing record beyond its handovers, a dropped
/// call's last handover is itself the closing record.
pub proof fn lemma_handover_chain_length(s: Seq<CellEventResult>)
    requires
        handover_chain(s),
    ensures
        chain_closes(s.last()),
        s.last().ty is Terminate ==> s.len() == count_handover_records(s) + 1,
        s.last().ty is Handover ==> s.len() == count_handover_records(s),
        forall|i: int| 0 <= i < s.len() - 1 ==> (#[trigger] s[i]).ty is Handover && s[i].outcome
            is Success,
    decreases s.len(),
{
    if s.len() == 1 {
        assert(s.drop_first().len() == 0);
        assert(count_handover_records(s.drop_first()) == 0);
        assert(s.last() == s[0]);
    } else {
        lemma_handover_chain_length(s.drop_first());
        assert(s.last() == s.drop_first().last());
        assert(count_handover_records(s) == 1 + count_handover_records(s.drop_first()));
        assert forall|i: int|
            0 <= i < s.len() - 1 implies (#[trigger] s[i]).ty is Handover && s[i].outcome
            is Success by {
            if i > 0 {
                assert(s[i] == s.drop_first()[i - 1]);
            }
        }
    }
}

/// The record count of a whole call, as the chain determines it: one for
/// a blocked call; its initiation, its handovers and its termination for a
/// carried call; one record per handover, the last one dropping the call,
/// for a call dropped mid-way.
pub proof fn lemma_call_chain_length(s: Seq<CellEventResult>)
    requires
        call_chain(s),
    ensures
        s[0].outcome is Blocked ==> s.len() == 1,
        s[0].outcome is Success && s.last().ty is Terminate ==> s.len() == 2
            + count_handover_records(s),
        s[0].outcome is Success && s.last().ty is Handover ==> s.len() == 1
            + count_handover_records(s) && s.last().outcome is Terminated,
{
    if !(s[0].outcome is Blocked) {
        lemma_handover_chain_length(s.drop_first());
        assert(s.last() == s.drop_first().last());
        assert(count_handover_records(s) == count_handover_records(s.drop_first()));
    }
}

/// A follow-up is a handover or a termination, never a new initiation.
pub proof fn lemma_followup_ty(e: CellEvent)
    ensures
        spec_followup(e).ty is Handover || spec_followup(e).ty is Terminate,
{
}

/// The shape of one step's outcome: exactly one record, for the popped
/// event; the queue either just shrinks, or additionally holds the popped
/// call's follow-up — the latter exactly when the station carried the
/// call onward.
pub proof fn lemma_step_shape(fel: Seq<CellEvent>, stations: Seq<StationView>)
    requires
        fel_ok(fel),
        fel.len() >= 1,
    ensures
        ({
            let (fel1, stations1, res) = spec_step(fel, stations);
            let rest = fel.drop_first();
            let followed = fel1 == crate::logic::fel_insert(rest, spec_followup(fel[0]));
            &&& res.len() == 1
            &&& res[0].idx == fel[0].idx
            &&& res[0].ty == fel[0].ty
            &&& (followed || fel1 == rest)
            &&& (followed ==> !(fel[0].ty is Terminate) && res[0].outcome is Success)
            &&& (!followed ==> match fel[0].ty {
                CellEventType::Terminate => res[0].outcome is Success,
                CellEventType::Initiate => res[0].outcome is Blocked,
                CellEventType::Handover => res[0].outcome is Terminated,
            })
        }),
{
    let e = fel[0];
    let rest = fel.drop_first();
    let (fel1, stations1, res) = spec_step(fel, stations);
    let inserted = crate::logic::fel_insert(rest, spec_followup(e));
    assert(fel_sorted(rest)) by {
        assert forall|i: int, j: int| 0 <= i < j < rest.len() implies rest[i].time
            <= rest[j].time by {
            assert(rest[i] == fel[i + 1] && rest[j] == fel[j + 1]);
        }
    }
    crate::logic::lemma_upper_bound(rest, spec_followup(e).time);
    crate::logic::lemma_fel_insert_index(rest, spec_followup(e));
    assert(inserted.len() != rest.len());
    match e.ty {
        CellEventType::Terminate => {},
        CellEventType::Initiate => {
            if request_response(stations[e.station.as_int()], StationRequest::Initiate)
                is Success {
                assert(fel1 == inserted);
            } else {
                assert(fel1 == rest);
            }
        },
        CellEventType::Handover => {
            let pv = e.station.spec_previous_station(e.direction).unwrap().as_int();
            let sh1 = stations.update(
                pv,
                request_next(stations[pv], StationRequest::HandoverDisconnect, e.idx),
            );
            if request_response(sh1[e.station.as_int()], StationRequest::HandoverConnect)
                is Success {
                assert(fel1 == inserted);
            } else {
                assert(fel1 == rest);
            }
        },
    }
}

/// Every call leaves a complete record chain.  A call whose initiation is
/// pending leaves a full chain: one blocked record, or its initiation
/// followed by its handovers and its end.  A call whose handover or
/// termination is pending leaves the tail of such a chain.  A call with no
/// pending event leaves no records.
#[verifier::rlimit(100)]
pub proof fn lemma_run_call_chain(fel: Seq<CellEvent>, stations: Seq<StationView>, x: usize)
    requires
        fel_ok(fel),
    ensures
        ({
            let mine = call_records(spec_run(fel, stations).1, x);
            &&& (forall|i: int| 0 <= i < fel.len() ==> (#[trigger] fel[i]).idx != x) ==> mine
                == Seq::<CellEventResult>::empty()
            &&& forall|i: int|
                0 <= i < fel.len() && (#[trigger] fel[i]).idx == x ==> if fel[i].ty
                    is Initiate {
                    call_chain(mine)
                } else {
                    handover_chain(mine)
                }
        }),
    decreases run_fuel_of(fel),
{
    crate::logic::lemma_wsum_nonneg(fel);
    if fel.len() == 0 {
        assert(spec_run(fel, stations).1 =~= Seq::<CellEventResult>::empty());
        assert(call_records(Seq::<CellEventResult>::empty(), x) =~= Seq::<
            CellEventResult,
        >::empty());
    } else {
        let e = fel[0];
        let rest = fel.drop_first();
        lemma_step_fel_ok(fel, stations);
        lemma_spec_run_unfold(fel, stations);
        lemma_step_shape(fel, stations);
        let (fel1, stations1, step_res) = spec_step(fel, stations);
        assert(run_fuel_of(fel1) < run_fuel_of(fel)) by {
            crate::logic::lemma_wsum_nonneg(fel1);
        }
        lemma_run_call_chain(fel1, stations1, x);
        let res = spec_run(fel, stations).1;
        let res1 = spec_run(fel1, stations1).1;
        let mine = call_records(res, x);
        let mine1 = call_records(res1, x);
        assert(res == step_res + res1);
        lemma_call_records_add(step_res, res1, x);

        // the step produces exactly one record, for the popped event
        let rec = step_res[0];
        assert(step_res =~= seq![rec]);
        assert(call_records(seq![rec], x) == if rec.idx == x {
            seq![rec]
        } else {
            Seq::<CellEventResult>::empty()
        }) by {
            assert(seq![rec].drop_first() =~= Seq::<CellEventResult>::empty());
            assert(call_records(Seq::<CellEventResult>::empty(), x) == Seq::<
                CellEventResult,
            >::empty());
            if rec.idx == x {
                assert(seq![rec] + Seq::<CellEventResult>::empty() =~= seq![rec]);
            }
        }
        assert(mine == call_records(seq![rec], x) + mine1);

        // whether and where the popped call's follow-up sits in the queue
        assert forall|i: int| 0 <= i < rest.len() implies (#[trigger] rest[i]).idx
            != e.idx by {
            assert(rest[i] == fel[i + 1]);
        }
        let f = spec_followup(e);
        assert(fel_sorted(rest)) by {
            assert forall|i: int, j: int| 0 <= i < j < rest.len() implies rest[i].time
                <= rest[j].time by {
                assert(rest[i] == fel[i + 1] && rest[j] == fel[j + 1]);
            }
        }
        crate::logic::lemma_upper_bound(rest, f.time);
        crate::logic::lemma_fel_insert_index(rest, f);
        lemma_followup_ty(e);
        let p = crate::logic::upper_bound(rest, f.time);
        let inserted = crate::logic::fel_insert(rest, f);
        let followed = fel1 == inserted;

        if e.idx == x {
            // the queue held no other event of this call
            if followed {
                assert(fel1[p] == f && f.idx == x);
                assert(handover_chain(mine1));
                assert(mine == seq![rec] + mine1);
                assert((seq![rec] + mine1).drop_first() =~= mine1);
                assert((seq![rec] + mine1)[0] == rec);
                assert(rec.outcome is Success);
                if e.ty is Initiate {
                    assert(call_chain(mine));
                } else {
                    assert(e.ty is Handover);
                    assert(mine.len() >= 2);
                    assert(handover_chain(mine));
                }
            } else {
                assert(fel1 == rest);
                assert forall|k: int| 0 <= k < fel1.len() implies (#[trigger] fel1[k]).idx
                    != x by {
                    assert(fel1[k] == rest[k]);
                }
                assert(mine1 == Seq::<CellEventResult>::empty());
                assert(mine == seq![rec] + Seq::<CellEventResult>::empty());
                assert(mine =~= seq![rec]);
                assert(mine.len() == 1 && mine[0] == rec);
                match e.ty {
                    CellEventType::Terminate => {
                        assert(chain_closes(rec));
                        assert(handover_chain(mine));
                    },
                    CellEventType::Initiate => {
                        assert(rec.outcome is Blocked);
                        assert(call_chain(mine));
                    },
                    CellEventType::Handover => {
                        assert(chain_closes(rec));
                        assert(handover_chain(mine));
                    },
                }
            }
        } else {
            assert(call_records(seq![rec], x) =~= Seq::<CellEventResult>::empty());
            assert(mine =~= mine1);
            if forall|i: int| 0 <= i < fel.len() ==> (#[trigger] fel[i]).idx != x {
                assert forall|k: int| 0 <= k < fel1.len() implies (#[trigger] fel1[k]).idx
                    != x by {
                    if fel1 == rest {
                        assert(fel1[k] == rest[k] && rest[k] == fel[k + 1]);
                    } else {
                        assert(fel1 == inserted);
                        if k == p {
                            assert(fel1[k] == f && f.idx == e.idx);
                        } else {
                            let w: int = if k < p {
                                k
                            } else {
                                k - 1
                            };
                            assert(fel1[k] == rest[w] && rest[w] == fel[w + 1]);
                        }
                    }
                }
                assert(mine1 == Seq::<CellEventResult>::empty());
            }
            assert forall|i: int|
                0 <= i < fel.len() && (#[trigger] fel[i]).idx == x implies if fel[i].ty
                is Initiate {
                call_chain(mine)
            } else {
                handover_chain(mine)
            } by {
                assert(i >= 1);
                assert(rest[i - 1] == fel[i]);
                if fel1 == rest {
                    assert(fel1[i - 1] == fel[i] && fel1[i - 1].idx == x);
                } else {
                    assert(fel1 == inserted);
                    let k: int = if i - 1 < p {
                        i - 1
                    } else {
                        i
                    };
                    assert(inserted[k] == rest[i - 1]);
                    assert(fel1[k] == fel[i] && fel1[k].idx == x);
                }
            }
        }
    }
}

/// Runner for one replication of the simulation.
pub struct EventRunner {
    /// The event processor holding the future event list.
    pub inner: EventProcessor,
    /// The stations shared by all events of this replication.
    pub globals: Shared,
    /// The records of the events processed so far.
    pub results: Vec<CellEventResult>,
}

impl EventRunner {
    /// The runner's invariant: the processor is coherent with its
    /// stations.
    pub open spec fn wf(&self) -> bool {
        self.inner.coherent(&self.globals)
    }

    /// Initialize the runner with the event processor and, optionally, a
    /// prepared station array; without one, the stations are fresh with no
    /// reservation.
    pub fn init(logic: EventProcessor, resources: Option<Shared>) -> (r: Self)
        ensures
            r.inner == logic,
            r.results@ == Seq::<CellEventResult>::empty(),
            resources matches Some(sh) ==> r.globals == sh,
            resources is None ==> r.globals.wf_all() && forall|i: int|
                0 <= i < NUM_STATIONS ==> r.globals@[i] == fresh_station(0),
    {
        let globals = match resources {
            Some(sh) => sh,
            None => Shared::new(0),
        };
        Self { inner: logic, globals, results: Vec::new() }
    }

    /// Run the simulation to exhaustion of the future event list.
    ///
    /// The records appended are exactly those of [`spec_run`] from the
    /// initial state — a run is a function of its seed events and stations
    /// — and their times never decrease.
    pub fn run(&mut self)
        requires
            old(self).wf(),
        ensures
            final(self).wf(),
            final(self).inner.fel@.len() == 0,
            final(self).inner.run_num == old(self).inner.run_num,
            final(self).globals@ == spec_run(old(self).inner.fel@, old(self).globals@).0,
            final(self).results@ == old(self).results@ + spec_run(
                old(self).inner.fel@,
                old(self).globals@,
            ).1,
            forall|i: int, j: int|
                old(self).results@.len() <= i <= j < final(self).results@.len()
                    ==> final(self).results@[i].time <= final(self).results@[j].time,
    {
        let ghost n0 = self.results@.len() as int;
        let ghost total = spec_run(self.inner.fel@, self.globals@);
        loop
            invariant
                self.wf(),
                self.inner.run_num == old(self).inner.run_num,
                self.results@.subrange(0, n0) == old(self).results@,
                0 <= n0 <= self.results@.len(),
                total.0 == spec_run(self.inner.fel@, self.globals@).0,
                total.1 == self.results@.skip(n0) + spec_run(
                    self.inner.fel@,
                    self.globals@,
                ).1,
                forall|i: int, j: int|
                    n0 <= i <= j < self.results@.len() ==> self.results@[i].time
                        <= self.results@[j].time,
                forall|i: int, j: int|
                    n0 <= i < self.results@.len() && 0 <= j < self.inner.fel@.len()
                        ==> self.results@[i].time <= self.inner.fel@[j].time,
            ensures
                self.inner.fel@.len() == 0,
            decreases wsum(self.inner.fel@),
        {
            proof {
                crate::logic::lemma_wsum_nonneg(self.inner.fel@);
                if self.inner.fel@.len() >= 1 {
                    lemma_spec_run_unfold(self.inner.fel@, self.globals@);
                }
            }
            let ghost res_pre = self.results@;
            let ghost fel_pre = self.inner.fel@;
            match self.inner.step(&mut self.globals) {
                Some(mut stats) => {
                    let ghost stats_seq = stats@;
                    self.results.append(&mut stats);
                    proof {
                        crate::logic::lemma_wsum_nonneg(self.inner.fel@);
                        assert(self.results@ == res_pre + stats_seq);
                        assert(self.results@.subrange(0, n0) =~= res_pre.subrange(0, n0));
                        assert(self.results@.skip(n0) =~= res_pre.skip(n0) + stats_seq);
                        assert(total.1 =~= self.results@.skip(n0) + spec_run(
                            self.inner.fel@,
                            self.globals@,
                        ).1);
                        assert(stats_seq.len() == 1 && stats_seq[0].time == fel_pre[0].time);
                        assert forall|i: int, j: int|
                            n0 <= i <= j < self.results@.len() implies self.results@[i].time
                            <= self.results@[j].time by {
                            if j >= res_pre.len() {
                                assert(self.results@[j] == stats_seq[j - res_pre.len()]);
                                if i < res_pre.len() {
                                    assert(self.results@[i] == res_pre[i]);
                                    assert(res_pre[i].time <= fel_pre[0].time);
                                }
                            } else {
                                assert(self.results@[i] == res_pre[i]);
                                assert(self.results@[j] == res_pre[j]);
                            }
                        }
                        assert forall|i: int, j: int|
                            n0 <= i < self.results@.len() && 0 <= j
                                < self.inner.fel@.len() implies self.results@[i].time
                            <= self.inner.fel@[j].time by {
                            assert(fel_pre[0].time <= self.inner.fel@[j].time);
                            if i < res_pre.len() {
                                assert(self.results@[i] == res_pre[i]);
                                assert(res_pre[i].time <= fel_pre[0].time);
                            } else {
                                assert(self.results@[i] == stats_seq[i - res_pre.len()]);
                            }
                        }
                    }
                },
                None => {
                    proof {
                        assert(spec_run(self.inner.fel@, self.globals@).1 =~= Seq::<
                            CellEventResult,
                        >::empty());
                        assert(total.1 =~= self.results@.skip(n0));
                    }
                    break;
                },
            }
        }
        proof {
            assert(spec_run(self.inner.fel@, self.globals@).1 =~= Seq::<
                CellEventResult,
            >::empty());
            assert(total.1 =~= self.results@.skip(n0));
            assert(self.results@ =~= self.results@.subrange(0, n0) + self.results@.skip(n0));
        }
    }

    /// The performance counts of this run, skipping the first `skip`
    /// records as warm-up: the initiated calls beyond the warm-up, the
    /// blocked initiations, and the dropped handovers.
    pub fn performance_measure(&self, skip: usize) -> (pm: PerfMeasure)
        requires
            skip <= self.results@.len(),
        ensures
            pm.blocked_calls == count_blocked(self.results@.skip(skip as int)),
            pm.dropped_calls == count_dropped(self.results@.skip(skip as int)),
            pm.initiated == if max_call_idx(self.results@.skip(skip as int)) > skip {
                max_call_idx(self.results@.skip(skip as int)) - skip
            } else {
                0
            },
    {
        let tail = vstd::slice::slice_subrange(
            self.results.as_slice(),
            skip,
            self.results.len(),
        );
        let counts = EventProcessor::calculate_performance_measure(tail);
        let initiated = if counts.initiated > skip {
            counts.initiated - skip
        } else {
            0
        };
        PerfMeasure {
            initiated,
            blocked_calls: counts.blocked_calls,
            dropped_calls: counts.dropped_calls,
        }
    }

    /// The records of the simulation run, consuming the runner.
    pub fn into_results(self) -> (r: Vec<CellEventResult>)
        ensures
            r@ == self.results@,
    {
        self.results
    }
}

impl crate::sim_exec::EventLike for EventRunner {
    /// The runner is ready while its processor is coherent with its
    /// stations.
    open spec fn ready(&self) -> bool {
        self.wf()
    }

    /// The queue's total weight bounds the steps left.
    open spec fn measure(&self) -> nat {
        run_fuel_of(self.inner.fel@)
    }

    /// One step of the simulation: process the earliest event and record
    /// its outcome, or stop once the queue is exhausted.
    fn next_event(&mut self) -> (s: crate::sim_exec::SimStatus)
        ensures
            s is Continue ==> old(self).inner.fel@.len() > 0 && (
            final(self).inner.fel@,
            final(self).globals@,
            final(self).results@,
            ) == (
            spec_step(old(self).inner.fel@, old(self).globals@).0,
            spec_step(old(self).inner.fel@, old(self).globals@).1,
            old(self).results@ + spec_step(old(self).inner.fel@, old(self).globals@).2,
            ),
            s is Stop ==> final(self).results@ == old(self).results@ && final(self).inner.fel@
                == old(self).inner.fel@ && final(self).globals@ == old(self).globals@ && old(
                self,
            ).inner.fel@.len() == 0,
    {
        proof {
            crate::logic::lemma_wsum_nonneg(self.inner.fel@);
        }
        match self.inner.step(&mut self.globals) {
            Some(mut stats) => {
                self.results.append(&mut stats);
                proof {
                    crate::logic::lemma_wsum_nonneg(self.inner.fel@);
                }
                crate::sim_exec::SimStatus::Continue
            },
            None => crate::sim_exec::SimStatus::Stop,
        }
    }
}

/// The seed events the generator builds from a list of sample sets,
/// starting from the given clock and call index; `None` when the clock or
/// the index would leave the machine's range.
pub open spec fn gen_from(time: u64, count: usize, run: u32, samples: Seq<CallSamples>) -> Option<
    Seq<CellEvent>,
>
    decreases samples.len(),
{
    if samples.len() == 0 {
        Some(Seq::<CellEvent>::empty())
    } else {
        let s = samples[0];
        if count + 1 <= usize::MAX && time + s.inter_arrival_ms + s.call_duration_ms
            <= u64::MAX {
            let t2 = (time + s.inter_arrival_ms) as u64;
            let c2 = (count + 1) as usize;
            let ev = spec_cell_event(c2, run, s, t2);
            match gen_from(t2, c2, run, samples.drop_first()) {
                Some(rest) => Some(seq![ev] + rest),
                None => None,
            }
        } else {
            None
        }
    }
}

/// Twenty fresh stations with `reserve` channels kept for handovers.
pub open spec fn fresh_stations(reserve: usize) -> Seq<StationView> {
    Seq::new(NUM_STATIONS as nat, |i: int| fresh_station(reserve))
}

/// The performance counts of a record list, skipping `warmup` records (or
/// all of them, if fewer).
pub open spec fn spec_perf(res: Seq<CellEventResult>, warmup: usize) -> PerfMeasure {
    let eff = if warmup <= res.len() {
        warmup as int
    } else {
        res.len() as int
    };
    let tail = res.skip(eff);
    PerfMeasure {
        initiated: if max_call_idx(tail) > eff {
            (max_call_idx(tail) - eff) as usize
        } else {
            0usize
        },
        blocked_calls: count_blocked(tail) as usize,
        dropped_calls: count_dropped(tail) as usize,
    }
}

/// The whole outcome of one replication: the records of the run seeded by
/// the given samples, and its performance counts.
pub open spec fn spec_replication(
    run_num: usize,
    samples: Seq<CallSamples>,
    handover_reserve: usize,
    warmup: usize,
) -> Option<(Seq<CellEventResult>, PerfMeasure)> {
    match gen_from(0, 0, run_num as u32, samples) {
        Some(evs) => {
            let res = spec_run(evs, fresh_stations(handover_reserve)).1;
            Some((res, spec_perf(res, warmup)))
        },
        None => None,
    }
}

/// One full replication: build the seed events from the samples, run the
/// simulation on fresh stations to exhaustion, and reduce the records to
/// the performance counts, skipping `warmup` records.
///
/// The outcome is exactly [`spec_replication`] of the inputs, so two
/// replications from the same samples agree record for record.  `None` is
/// returned exactly when the accumulated clock or the call index would
/// leave the machine's range.
pub fn run_replication(
    run_num: usize,
    samples: &Vec<CallSamples>,
    handover_reserve: usize,
    warmup: usize,
) -> (r: Option<(Vec<CellEventResult>, PerfMeasure)>)
    requires
        handover_reserve <= STATION_CHANNELS,
        forall|i: int| 0 <= i < samples@.len() ==> (#[trigger] samples@[i]).valid(),
    ensures
        r is Some <==> gen_from(0, 0, run_num as u32, samples@) is Some,
        r matches Some(pair) ==> {
            &&& spec_replication(run_num, samples@, handover_reserve, warmup) matches Some(model)
            &&& pair.0@ == model.0
            &&& pair.1 == model.1
        },
        // the seed events form a valid queue, so every law over the queue,
        // such as [`lemma_run_call_chain`], applies to the records
        gen_from(0, 0, run_num as u32, samples@) matches Some(evs) ==> fel_ok(evs),
{
    let ghost run32 = run_num as u32;
    let mut generator = CallEventGenerator::new(run_num);
    let mut events: Vec<CellEvent> = Vec::new();
    let mut i: usize = 0;
    proof {
        assert(samples@.skip(0) =~= samples@);
        match gen_from(0, 0, run32, samples@) {
            Some(rest) => {
                assert(Seq::<CellEvent>::empty() + rest =~= rest);
            },
            None => (),
        }
    }
    while i < samples.len()
        invariant
            i <= samples@.len(),
            run32 == run_num as u32,
            forall|k: int| 0 <= k < samples@.len() ==> (#[trigger] samples@[k]).valid(),
            generator.run == run_num,
            generator.count == i,
            events@.len() == i,
            gen_from(0, 0, run32, samples@) == (match gen_from(
                generator.time,
                generator.count,
                run32,
                samples@.skip(i as int),
            ) {
                Some(rest) => Some(events@ + rest),
                None => None::<Seq<CellEvent>>,
            }),
            forall|k: int| 0 <= k < i ==> event_ok(#[trigger] events@[k]),
            forall|k: int| 0 <= k < i ==> (#[trigger] events@[k]).ty is Initiate,
            forall|k: int| 0 <= k < i ==> (#[trigger] events@[k]).idx == k + 1,
            forall|k: int| 0 <= k < i ==> (#[trigger] events@[k]).time <= generator.time,
            forall|k: int, l: int| 0 <= k < l < i ==> events@[k].time <= events@[l].time,
        decreases samples@.len() - i,
    {
        let s = samples[i];
        let ghost tail = samples@.skip(i as int);
        proof {
            assert(tail[0] == samples@[i as int]);
            assert(tail.drop_first() =~= samples@.skip(i + 1));
        }
        let ghost g0 = generator;
        match generator.next_event(&s) {
            Some(ev) => {
                proof {
                    assert(ev == spec_cell_event(generator.count, run32, s, generator.time));
                    assert(crate::logic::ttn_consistent(ev));
                    match gen_from(generator.time, generator.count, run32, tail.drop_first()) {
                        Some(rest) => {
                            assert((events@ + seq![ev]) + rest =~= events@ + (seq![ev] + rest));
                        },
                        None => (),
                    }
                }
                events.push(ev);
                i += 1;
            },
            None => {
                proof {
                    assert(gen_from(g0.time, g0.count, run32, tail) is None);
                }
                return None;
            },
        }
    }
    proof {
        assert(gen_from(generator.time, generator.count, run32, samples@.skip(i as int)) == Some(
            Seq::<CellEvent>::empty(),
        ));
        assert(events@ + Seq::<CellEvent>::empty() =~= events@);
        assert(gen_from(0, 0, run32, samples@) == Some(events@));
        assert(fel_ok(events@)) by {
            assert forall|k: int, l: int| 0 <= k < l < events@.len() implies events@[k].idx
                != events@[l].idx by {
                assert(events@[k].idx == k + 1 && events@[l].idx == l + 1);
            }
        }
    }
    let shared = Shared::new(handover_reserve);
    proof {
        assert(shared@ =~= fresh_stations(handover_reserve));
        assert forall|k: int| 0 <= k < events@.len() implies event_linked(
            #[trigger] events@[k],
            shared@,
        ) by {
            assert forall|j: int| 0 <= j < shared@.len() implies !(
            #[trigger] shared@[j]).users.contains(events@[k].idx) by {
                assert(shared@[j] == fresh_station(handover_reserve));
                assert(!Set::<usize>::empty().contains(events@[k].idx));
            }
        }
        assert(fel_linked(events@, shared@));
    }
    let ghost events_seq = events@;
    let processor = EventProcessor::new(run_num, events);
    let mut runner = EventRunner::init(processor, Some(shared));
    runner.run();
    let skip = if warmup <= runner.results.len() {
        warmup
    } else {
        runner.results.len()
    };
    let pm = runner.performance_measure(skip);
    let ghost res_seq = runner.results@;
    let results = runner.into_results();
    proof {
        assert(res_seq == spec_run(events_seq, fresh_stations(handover_reserve)).1) by {
            assert(Seq::<CellEventResult>::empty() + spec_run(
                events_seq,
                fresh_stations(handover_reserve),
            ).1 =~= spec_run(events_seq, fresh_stations(handover_reserve)).1);
        }
        assert(pm == spec_perf(res_seq, warmup));
    }
    Some((results, pm))
}

} // verus!
