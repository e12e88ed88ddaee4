//! The base station that carries calls.
//!
//! Each station owns a fixed number of channels.  New calls and handover
//! attempts consume a channel each; an optional reservation keeps a guard
//! band of channels that only handover requests may use.

use vstd::prelude::*;

verus! {

/// A request made to a base station on behalf of one call.
#[derive(Clone, Copy, Debug, PartialEq, Eq, Structural)]
pub enum StationRequest {
    Initiate,
    Terminate,
    HandoverDisconnect,
    HandoverConnect,
}

/// Channel allocation response by a station.
#[derive(Clone, Copy, Debug, PartialEq, Eq, Structural)]
pub enum StationResponse {
    Success,
    Blocked,
    Terminated,
}

/// The abstract state of a station: the channel counts and the set of call
/// indices currently holding a channel.
pub ghost struct StationView {
    pub channels: usize,
    pub available: usize,
    pub reserved: Option<usize>,
    pub users: Set<usize>,
}

/// A base station with a fixed number of channels.
pub struct BaseStation {
    /// Total number of channels.
    pub channels: usize,
    /// Channels currently free.
    pub available_channels: usize,
    /// Channels reserved for handover requests, if the guard-band policy is
    /// enabled.
    pub reserved_handover_channels: Option<usize>,
    /// Indices of the calls currently holding a channel, kept strictly
    /// ascending.
    pub active_users: Vec<usize>,
}

/// True when the sequence is strictly ascending (hence free of duplicates).
pub open spec fn strictly_ascending(s: Seq<usize>) -> bool {
    forall|i: int, j: int| 0 <= i < j < s.len() ==> s[i] < s[j]
}

impl View for BaseStation {
    type V = StationView;

    open spec fn view(&self) -> StationView {
        StationView {
            channels: self.channels,
            available: self.available_channels,
            reserved: self.reserved_handover_channels,
            users: self.active_users@.to_set(),
        }
    }
}

/// No call index occupies two channels of one station: the active users of
/// a well-formed station are pairwise distinct.
pub proof fn lemma_active_users_distinct(st: &BaseStation)
    requires
        st.wf(),
    ensures
        forall|i: int, j: int|
            0 <= i < j < st.active_users@.len() ==> st.active_users@[i] != st.active_users@[j],
{
}

/// Whether an `Initiate` request is admitted: new calls may not touch the
/// reserved guard band.
pub open spec fn initiate_admitted(st: StationView) -> bool {
    match st.reserved {
        Some(r) => st.available > r,
        None => st.available > 0,
    }
}

/// The response a station gives to a request, as a function of its state.
pub open spec fn request_response(st: StationView, req: StationRequest) -> StationResponse {
    match req {
        StationRequest::Initiate => if initiate_admitted(st) {
            StationResponse::Success
        } else {
            StationResponse::Blocked
        },
        StationRequest::HandoverConnect => if st.available > 0 {
            StationResponse::Success
        } else {
            StationResponse::Terminated
        },
        StationRequest::Terminate | StationRequest::HandoverDisconnect => StationResponse::Success,
    }
}

/// The station state after a request by call `idx`.
pub open spec fn request_next(st: StationView, req: StationRequest, idx: usize) -> StationView {
    match req {
        StationRequest::Initiate => if initiate_admitted(st) {
            StationView {
                available: (st.available - 1) as usize,
                users: st.users.insert(idx),
                ..st
            }
        } else {
            st
        },
        StationRequest::HandoverConnect => if st.available > 0 {
            StationView {
                available: (st.available - 1) as usize,
                users: st.users.insert(idx),
                ..st
            }
        } else {
            st
        },
        StationRequest::Terminate | StationRequest::HandoverDisconnect => StationView {
            available: (st.available + 1) as usize,
            users: st.users.remove(idx),
            ..st
        },
    }
}

impl BaseStation {
    /// The station invariant: free channels never exceed the total, every
    /// occupied channel is accounted for by exactly one active user, and no
    /// call index appears twice.
    pub open spec fn wf(&self) -> bool {
        &&& self.available_channels <= self.channels
        &&& self.active_users@.len() + self.available_channels == self.channels
        &&& strictly_ascending(self.active_users@)
    }

    /// Create a new station with all channels free.
    ///
    /// A reservation larger than the channel count is rejected before
    /// construction; see [`BaseStation::try_new`].
    pub fn new(channels: usize, reserved_handover: Option<usize>) -> (st: Self)
        requires
            reserved_handover matches Some(r) ==> r <= channels,
        ensures
            st.wf(),
            st.channels == channels,
            st.available_channels == channels,
            st.reserved_handover_channels == reserved_handover,
            st.active_users@ == Seq::<usize>::empty(),
    {
        Self {
            channels,
            available_channels: channels,
            reserved_handover_channels: reserved_handover,
            active_users: Vec::new(),
        }
    }

    /// Create a station, rejecting a reservation that exceeds the total
    /// channel count.
    pub fn try_new(channels: usize, reserved_handover: Option<usize>) -> (st: Option<Self>)
        ensures
            st is Some <==> (reserved_handover matches Some(r) ==> r <= channels),
            st matches Some(s) ==> {
                &&& s.wf()
                &&& s.channels == channels
                &&& s.available_channels == channels
                &&& s.reserved_handover_channels == reserved_handover
                &&& s.active_users@ == Seq::<usize>::empty()
            },
    {
        match reserved_handover {
            Some(r) if r > channels => None,
            _ => Some(Self::new(channels, reserved_handover)),
        }
    }

    /// Insert `idx` into the ascending list of active users.
    fn insert_user(&mut self, idx: usize)
        requires
            strictly_ascending(old(self).active_users@),
            !old(self).active_users@.contains(idx),
        ensures
            strictly_ascending(final(self).active_users@),
            final(self).active_users@.len() == old(self).active_users@.len() + 1,
            final(self).active_users@.to_set() == old(self).active_users@.to_set().insert(idx),
            final(self).channels == old(self).channels,
            final(self).available_channels == old(self).available_channels,
            final(self).reserved_handover_channels == old(self).reserved_handover_channels,
    {
        let ghost s0 = self.active_users@;
        let mut i: usize = 0;
        while i < self.active_users.len() && self.active_users[i] < idx
            invariant
                i <= self.active_users@.len(),
                self.active_users@ == s0,
                strictly_ascending(s0),
                !s0.contains(idx),
                forall|k: int| 0 <= k < i ==> s0[k] < idx,
            decreases self.active_users@.len() - i,
        {
            i += 1;
        }
        assert(i < s0.len() ==> s0[i as int] > idx) by {
            if i < s0.len() {
                assert(s0[i as int] != idx);
            }
        }
        self.active_users.insert(i, idx);
        let ghost s1 = self.active_users@;
        assert(strictly_ascending(s1)) by {
            assert(forall|k: int| 0 <= k < i ==> s1[k] == s0[k]);
            assert(s1[i as int] == idx);
            assert(forall|k: int| i < k < s1.len() ==> s1[k] == s0[k - 1]);
            assert forall|p: int, q: int| 0 <= p < q < s1.len() implies s1[p] < s1[q] by {
                if q > i && p < i {
                    assert(s0[p] < idx);
                    if q > i {
                        assert(s0[q - 1] >= idx || i as int == q - 1 || s0[i as int] < s0[q - 1]);
                    }
                }
            }
        }
        assert(s1.to_set() =~= s0.to_set().insert(idx)) by {
            assert forall|x: usize| s1.contains(x) implies s0.contains(x) || x == idx by {
                let w = choose|w: int| 0 <= w < s1.len() && s1[w] == x;
                if w < i {
                    assert(s0[w] == x);
                } else if w > i {
                    assert(s0[w - 1] == x);
                }
            }
            assert forall|x: usize| s0.contains(x) implies s1.contains(x) by {
                let w = choose|w: int| 0 <= w < s0.len() && s0[w] == x;
                if w < i {
                    assert(s1[w] == x);
                } else {
                    assert(s1[w + 1] == x);
                }
            }
            assert(s1.contains(idx)) by {
                assert(s1[i as int] == idx);
            }
        }
    }

    /// Remove `idx` from the ascending list of active users.
    fn remove_user(&mut self, idx: usize)
        requires
            strictly_ascending(old(self).active_users@),
            old(self).active_users@.contains(idx),
        ensures
            strictly_ascending(final(self).active_users@),
            final(self).active_users@.len() == old(self).active_users@.len() - 1,
            final(self).active_users@.to_set() == old(self).active_users@.to_set().remove(idx),
            final(self).channels == old(self).channels,
            final(self).available_channels == old(self).available_channels,
            final(self).reserved_handover_channels == old(self).reserved_handover_channels,
    {
        let ghost s0 = self.active_users@;
        let mut i: usize = 0;
        while i < self.active_users.len() && self.active_users[i] != idx
            invariant
                i <= self.active_users@.len(),
                self.active_users@ == s0,
                s0.contains(idx),
                forall|k: int| 0 <= k < i ==> s0[k] != idx,
            decreases self.active_users@.len() - i,
        {
            i += 1;
        }
        assert(i < s0.len() && s0[i as int] == idx) by {
            if i == s0.len() {
                let w = choose|w: int| 0 <= w < s0.len() && s0[w] == idx;
                assert(s0[w] != idx);
            }
        }
        self.active_users.remove(i);
        let ghost s1 = self.active_users@;
        assert(forall|k: int| 0 <= k < i ==> s1[k] == s0[k]);
        assert(forall|k: int| i <= k < s1.len() ==> s1[k] == s0[k + 1]);
        assert(strictly_ascending(s1));
        assert(s1.to_set() =~= s0.to_set().remove(idx)) by {
            assert forall|x: usize| s1.contains(x) implies s0.contains(x) && x != idx by {
                let w = choose|w: int| 0 <= w < s1.len() && s1[w] == x;
                if w < i {
                    assert(s0[w] == x && w < i as int);
                    assert(x != idx);
                } else {
                    assert(s0[w + 1] == x);
                    assert(s0[i as int] < s0[w + 1]);
                }
            }
            assert forall|x: usize| s0.contains(x) && x != idx implies s1.contains(x) by {
                let w = choose|w: int| 0 <= w < s0.len() && s0[w] == x;
                if w < i {
                    assert(s1[w] == x);
                } else if w > i {
                    assert(s1[w - 1] == x);
                }
            }
        }
    }

    /// Process an incoming request on behalf of call `idx`.
    ///
    /// A new call succeeds only while the free channels exceed the guard
    /// band; a handover connect succeeds while any channel is free; a
    /// terminate or handover disconnect always succeeds and frees the
    /// channel held by `idx`.
    pub fn process_request(&mut self, req: StationRequest, idx: usize) -> (resp: StationResponse)
        requires
            old(self).wf(),
            req is Initiate || req is HandoverConnect ==> !old(self)@.users.contains(idx),
            req is Terminate || req is HandoverDisconnect ==> old(self)@.users.contains(idx),
        ensures
            final(self).wf(),
            resp == request_response(old(self)@, req),
            final(self)@ == request_next(old(self)@, req, idx),
    {
        let ghost v0 = self@;
        match req {
            StationRequest::Initiate => {
                let admitted = match self.reserved_handover_channels {
                    Some(reserved) => self.available_channels > reserved,
                    None => self.available_channels > 0,
                };
                if admitted {
                    self.available_channels -= 1;
                    proof {
                        assert(!self.active_users@.contains(idx)) by {
                            assert(!v0.users.contains(idx));
                        }
                    }
                    self.insert_user(idx);
                    assert(self@ =~= request_next(v0, req, idx));
                    StationResponse::Success
                } else {
                    assert(self@ =~= request_next(v0, req, idx));
                    StationResponse::Blocked
                }
            },
            StationRequest::HandoverConnect => {
                if self.available_channels > 0 {
                    self.available_channels -= 1;
                    proof {
                        assert(!self.active_users@.contains(idx)) by {
                            assert(!v0.users.contains(idx));
                        }
                    }
                    self.insert_user(idx);
                    assert(self@ =~= request_next(v0, req, idx));
                    StationResponse::Success
                } else {
                    assert(self@ =~= request_next(v0, req, idx));
                    StationResponse::Terminated
                }
            },
            StationRequest::Terminate | StationRequest::HandoverDisconnect => {
                proof {
                    assert(self.active_users@.contains(idx)) by {
                        assert(v0.users.contains(idx));
                    }
                    assert(self.active_users@.len() > 0);
                }
                self.remove_user(idx);
                self.available_channels += 1;
                assert(self@ =~= request_next(v0, req, idx));
                StationResponse::Success
            },
        }
    }
}

} // verus!
