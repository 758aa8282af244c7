//! The request/response correlation engine.
//!
//! Each side of the connection runs one [`AdapterState`]: the outbound
//! router asks it to stamp every outgoing message with an id and to register
//! blocking requests in the pending table, and the inbound dispatcher asks
//! it where each incoming message must go.  The surrounding process supplies
//! the transport, the threads and the wake-up channels; everything that can
//! go wrong with correlation itself — a duplicated id, a response nobody
//! asked for, a waiter left registered after its response, a waiter lost on
//! disconnect — is ruled out here.
//!
//! The guarantees, spelled out on the methods below:
//! - ids of fresh outbound messages are strictly increasing, so no two
//!   outstanding requests of one side ever share an id;
//! - a blocking request is registered in the pending table *before* its
//!   packet is handed back for encoding, so a response racing back through
//!   the dispatcher always finds the waiter;
//! - an incoming response is delivered only if its id is pending — that is,
//!   only for an id this side itself issued — and delivering it removes the
//!   entry, so each waiter is woken at most once, by a response whose tag
//!   matches its request;
//! - tearing the adapter down empties the table and hands back every
//!   pending id, so every waiter can be woken with a cancellation signal.

use vstd::prelude::*;

use crate::messages::MessageTypeView;
use crate::messages::MessageView;
use crate::messages::ProtocolMessage;
use crate::messages::ProtocolMessageType;
use crate::messages::spec_is_blocking;
use crate::messages::spec_is_response;
use crate::messages::spec_reply_matches;

verus! {

/// The response tag a registered blocking request is waiting for.
#[derive(Debug, Clone, Copy, PartialEq, Eq, Structural)]
pub enum PendingKind {
    Run,
    SystemInfo,
    ApiVersion,
    AvInfo,
    GetVariable,
    InputState,
}

/// One entry of the pending-reply table.
#[derive(Debug, Clone, Copy, PartialEq, Eq, Structural)]
pub struct PendingEntry {
    pub id: u64,
    pub kind: PendingKind,
}

/// The kind of waiter a blocking request registers; `None` for messages
/// that are not blocking.
pub open spec fn spec_kind_of(m: MessageTypeView) -> Option<PendingKind> {
    match m {
        MessageTypeView::Run => Some(PendingKind::Run),
        MessageTypeView::SystemInfo => Some(PendingKind::SystemInfo),
        MessageTypeView::APIVersion => Some(PendingKind::ApiVersion),
        MessageTypeView::AVInfo => Some(PendingKind::AvInfo),
        MessageTypeView::GetVariable(..) => Some(PendingKind::GetVariable),
        MessageTypeView::InputState { .. } => Some(PendingKind::InputState),
        _ => None,
    }
}

/// Whether `resp` carries the response tag a waiter of kind `kind` expects.
pub open spec fn spec_kind_matches(kind: PendingKind, resp: MessageTypeView) -> bool {
    match kind {
        PendingKind::Run => resp is RunResponse,
        PendingKind::SystemInfo => resp is SystemInfoResponse,
        PendingKind::ApiVersion => resp is APIVersionResponse,
        PendingKind::AvInfo => resp is AVInfoResponse,
        PendingKind::GetVariable => resp is GetVariableResponse,
        PendingKind::InputState => resp is InputResponse,
    }
}

/// A message registers a waiter exactly when it is blocking.
pub proof fn lemma_kind_iff_blocking(m: MessageTypeView)
    ensures
        spec_kind_of(m) is Some <==> spec_is_blocking(m),
{
}

/// A waiter's kind expects exactly the response tags its request expects.
pub proof fn lemma_kind_matches_reply(req: MessageTypeView, resp: MessageTypeView)
    requires
        spec_kind_of(req) is Some,
    ensures
        spec_kind_matches(spec_kind_of(req).unwrap(), resp) == spec_reply_matches(req, resp),
{
}

/// Where the inbound dispatcher must send an incoming message.
#[derive(Debug, Clone, Copy, PartialEq, Eq, Structural)]
pub enum InboundRoute {
    /// The message answers a pending blocking request: wake that waiter
    /// with it.
    Response,
    /// The message is a fresh request from the peer: enqueue it for the
    /// local handler.
    Event,
    /// The message claims to be a response but no matching waiter exists:
    /// a protocol violation, to be logged and dropped.
    Violation,
}

/// The correlation state one side keeps: the id counter and the
/// pending-reply table.  The ghost `issued` set records every id this side
/// has ever stamped on a fresh outbound message.
pub struct AdapterState {
    pub next_id: u64,
    pub pending: Vec<PendingEntry>,
    pub issued: Ghost<Set<u64>>,
}

impl AdapterState {
    /// The table holds a waiter with this id.
    pub open spec fn has_pending(self, id: u64) -> bool {
        exists|i: int| 0 <= i < self.pending@.len() && (#[trigger] self.pending@[i]).id == id
    }

    /// The table holds exactly this waiter.
    pub open spec fn has_entry(self, id: u64, kind: PendingKind) -> bool {
        self.pending@.contains(PendingEntry { id, kind })
    }

    /// Well-formedness: waiter ids are unique, every pending id was issued
    /// here, and every issued id is below the counter.
    pub open spec fn wf(self) -> bool {
        &&& forall|i: int, j: int|
            0 <= i < j < self.pending@.len() ==> (#[trigger] self.pending@[i]).id != (
            #[trigger] self.pending@[j]).id
        &&& forall|i: int|
            0 <= i < self.pending@.len() ==> self.issued@.contains(
                (#[trigger] self.pending@[i]).id,
            )
        &&& forall|id: u64| #[trigger] self.issued@.contains(id) ==> id < self.next_id
    }

    /// Mathematical routing decision for an incoming message.
    pub open spec fn spec_route(self, m: MessageView) -> InboundRoute {
        if !spec_is_response(m.data) {
            InboundRoute::Event
        } else if !self.has_pending(m.id) {
            InboundRoute::Violation
        } else {
            let kind = choose|kind: PendingKind| self.has_entry(m.id, kind);
            if spec_kind_matches(kind, m.data) {
                InboundRoute::Response
            } else {
                InboundRoute::Violation
            }
        }
    }

    /// A fresh adapter: counter at zero, no waiters, nothing issued.
    pub fn new() -> (r: Self)
        ensures
            r.wf(),
            r.next_id == 0,
            r.pending@.len() == 0,
            r.issued@ == Set::<u64>::empty(),
    {
        AdapterState { next_id: 0, pending: Vec::new(), issued: Ghost(Set::empty()) }
    }

    /// How many waiters are registered.
    pub fn pending_len(&self) -> (r: usize)
        ensures
            r == self.pending@.len(),
    {
        self.pending.len()
    }

    /// Whether a waiter with this id is registered.
    pub fn is_pending(&self, id: u64) -> (r: bool)
        ensures
            r == self.has_pending(id),
    {
        let mut i: usize = 0;
        while i < self.pending.len()
            invariant
                0 <= i <= self.pending@.len(),
                forall|k: int| 0 <= k < i ==> (#[trigger] self.pending@[k]).id != id,
            decreases self.pending@.len() - i,
        {
            if self.pending[i].id == id {
                return true;
            }
            i = i + 1;
        }
        false
    }

    /// Stamps an outbound payload with its id and, for a fresh blocking
    /// request, registers the waiter — *before* the packet is handed back,
    /// so a response cannot arrive ahead of its waiter's registration.
    ///
    /// A reply to a peer request passes `reuse` so the originator's id is
    /// kept verbatim; replies are never blocking, so they register nothing
    /// and the id counter does not move.
    pub fn route_outbound(&mut self, payload: ProtocolMessageType, reuse: Option<u64>) -> (m:
        ProtocolMessage)
        requires
            old(self).wf(),
            reuse is Some ==> spec_is_response(payload@),
            reuse is None ==> old(self).next_id < u64::MAX,
        ensures
            final(self).wf(),
            m.data == payload,
            m.data@ == payload@,
            match reuse {
                Some(id) => {
                    &&& m.id == id
                    &&& final(self).next_id == old(self).next_id
                    &&& final(self).pending@ == old(self).pending@
                    &&& final(self).issued@ == old(self).issued@
                },
                None => {
                    &&& m.id == old(self).next_id
                    &&& final(self).next_id == old(self).next_id + 1
                    &&& final(self).issued@ == old(self).issued@.insert(m.id)
                    &&& !old(self).issued@.contains(m.id)
                    &&& !old(self).has_pending(m.id)
                    &&& if spec_is_blocking(payload@) {
                        final(self).pending@ == old(self).pending@.push(
                            PendingEntry { id: m.id, kind: spec_kind_of(payload@).unwrap() },
                        )
                    } else {
                        final(self).pending@ == old(self).pending@
                    }
                },
            },
    {
        match reuse {
            Some(id) => {
                ProtocolMessage { id, data: payload }
            },
            None => {
                let id = self.next_id;
                self.next_id = self.next_id + 1;
                proof {
                    self.issued@ = self.issued@.insert(id);
                }
                let kind = match &payload {
                    ProtocolMessageType::Run => Some(PendingKind::Run),
                    ProtocolMessageType::SystemInfo => Some(PendingKind::SystemInfo),
                    ProtocolMessageType::APIVersion => Some(PendingKind::ApiVersion),
                    ProtocolMessageType::AVInfo => Some(PendingKind::AvInfo),
                    ProtocolMessageType::GetVariable(..) => Some(PendingKind::GetVariable),
                    ProtocolMessageType::InputState { .. } => Some(PendingKind::InputState),
                    _ => None,
                };
                if let Some(kind) = kind {
                    self.pending.push(PendingEntry { id, kind });
                }
                ProtocolMessage { id, data: payload }
            },
        }
    }

    /// Routes an incoming message.
    ///
    /// A response is delivered only when a waiter with its id is pending
    /// and expects its tag, and the entry is removed as it is delivered:
    /// the table never wakes a waiter twice, never accepts a response for
    /// an id this side did not issue, and never hands a waiter a response
    /// of the wrong tag.  Anything that is not a response is a fresh event
    /// for the local handler and leaves the table alone.
    pub fn route_inbound(&mut self, m: &ProtocolMessage) -> (r: InboundRoute)
        requires
            old(self).wf(),
        ensures
            final(self).wf(),
            final(self).next_id == old(self).next_id,
            final(self).issued@ == old(self).issued@,
            r == old(self).spec_route(m@),
            r is Response ==> {
                &&& old(self).has_pending(m.id)
                &&& old(self).issued@.contains(m.id)
                &&& !final(self).has_pending(m.id)
                &&& forall|k: PendingKind|
                    old(self).has_entry(m.id, k) ==> spec_kind_matches(k, m.data@)
                &&& forall|x: u64, k: PendingKind|
                    x != m.id ==> final(self).has_entry(x, k) == old(self).has_entry(x, k)
                &&& final(self).pending@.len() == old(self).pending@.len() - 1
            },
            r is Response || final(self).pending@ == old(self).pending@,
    {
        if !m.data.is_response() {
            return InboundRoute::Event;
        }
        let mut i: usize = 0;
        while i < self.pending.len()
            invariant
                *self == *old(self),
                old(self).wf(),
                spec_is_response(m.data@),
                0 <= i <= self.pending@.len(),
                forall|k: int| 0 <= k < i ==> (#[trigger] self.pending@[k]).id != m.id,
            decreases self.pending@.len() - i,
        {
            if self.pending[i].id == m.id {
                let entry = self.pending[i];
                let matches_tag = match entry.kind {
                    PendingKind::Run => matches!(&m.data, ProtocolMessageType::RunResponse),
                    PendingKind::SystemInfo => matches!(
                        &m.data,
                        ProtocolMessageType::SystemInfoResponse(..),
                    ),
                    PendingKind::ApiVersion => matches!(
                        &m.data,
                        ProtocolMessageType::APIVersionResponse(..),
                    ),
                    PendingKind::AvInfo => matches!(
                        &m.data,
                        ProtocolMessageType::AVInfoResponse(..),
                    ),
                    PendingKind::GetVariable => matches!(
                        &m.data,
                        ProtocolMessageType::GetVariableResponse(..),
                    ),
                    PendingKind::InputState => matches!(
                        &m.data,
                        ProtocolMessageType::InputResponse(..),
                    ),
                };
                proof {
                    assert(self.has_entry(m.id, entry.kind)) by {
                        assert(self.pending@[i as int] == (PendingEntry {
                            id: m.id,
                            kind: entry.kind,
                        }));
                    }
                    assert(matches_tag == spec_kind_matches(entry.kind, m.data@));
                    assert forall|k: PendingKind| self.has_entry(m.id, k) implies k
                        == entry.kind by {
                        assert(self.pending@.contains(PendingEntry { id: m.id, kind: k }));
                        assert(exists|j: int|
                            0 <= j < self.pending@.len() && self.pending@[j] == (PendingEntry {
                                id: m.id,
                                kind: k,
                            }));
                        let j = choose|j: int|
                            0 <= j < self.pending@.len() && self.pending@[j] == (PendingEntry {
                                id: m.id,
                                kind: k,
                            });
                        assert(self.pending@[j].id == m.id && self.pending@[i as int].id == m.id);
                        assert(j == i);
                    }
                    assert(exists|kind: PendingKind| self.has_entry(m.id, kind));
                    let kc = choose|kind: PendingKind| self.has_entry(m.id, kind);
                    assert(self.has_entry(m.id, kc));
                    assert(kc == entry.kind);
                }
                if matches_tag {
                    self.pending.remove(i);
                    proof {
                        let newp = self.pending@;
                        let oldp = old(self).pending@;
                        assert(newp =~= oldp.subrange(0, i as int) + oldp.subrange(
                            i + 1,
                            oldp.len() as int,
                        ));
                        assert(!self.has_pending(m.id)) by {
                            assert forall|j: int|
                                0 <= j < newp.len() implies (#[trigger] newp[j]).id != m.id by {
                                if j < i {
                                    assert(newp[j] == oldp[j]);
                                } else {
                                    assert(newp[j] == oldp[j + 1]);
                                }
                            }
                        }
                        assert forall|x: u64, k: PendingKind|
                            x != m.id && old(self).has_entry(x, k) implies self.has_entry(
                            x,
                            k,
                        ) by {
                            let j = choose|j: int|
                                0 <= j < oldp.len() && oldp[j] == (PendingEntry { id: x, kind: k });
                            if j < i {
                                assert(newp[j] == oldp[j]);
                            } else {
                                assert(j != i);
                                assert(newp[j - 1] == oldp[j]);
                            }
                        }
                        assert forall|x: u64, k: PendingKind|
                            x != m.id && self.has_entry(x, k) implies old(self).has_entry(
                            x,
                            k,
                        ) by {
                            let j = choose|j: int|
                                0 <= j < newp.len() && newp[j] == (PendingEntry { id: x, kind: k });
                            if j < i {
                                assert(oldp[j] == newp[j]);
                            } else {
                                assert(oldp[j + 1] == newp[j]);
                            }
                        }
                        assert forall|a: int, b: int|
                            0 <= a < b < newp.len() implies (#[trigger] newp[a]).id != (
                        #[trigger] newp[b]).id by {
                            let a0 = if a < i {
                                a
                            } else {
                                a + 1
                            };
                            let b0 = if b < i {
                                b
                            } else {
                                b + 1
                            };
                            assert(newp[a] == oldp[a0] && newp[b] == oldp[b0]);
                        }
                        assert forall|j: int|
                            0 <= j < newp.len() implies old(self).issued@.contains(
                            (#[trigger] newp[j]).id,
                        ) by {
                            let j0 = if j < i {
                                j
                            } else {
                                j + 1
                            };
                            assert(newp[j] == oldp[j0]);
                        }
                    }
                    return InboundRoute::Response;
                } else {
                    return InboundRoute::Violation;
                }
            }
            i = i + 1;
        }
        InboundRoute::Violation
    }

    /// Empties the table on disconnect and hands back every pending entry,
    /// so the owner can wake each waiter with a cancellation signal: no
    /// waiter is left parked forever.
    pub fn cancel_all(&mut self) -> (r: Vec<PendingEntry>)
        requires
            old(self).wf(),
        ensures
            final(self).wf(),
            final(self).pending@.len() == 0,
            final(self).next_id == old(self).next_id,
            final(self).issued@ == old(self).issued@,
            r@ == old(self).pending@,
            forall|id: u64| !final(self).has_pending(id),
    {
        let mut drained: Vec<PendingEntry> = Vec::new();
        let mut i: usize = 0;
        let n = self.pending.len();
        while i < n
            invariant
                0 <= i <= n,
                n == self.pending@.len(),
                *self == *old(self),
                drained@ == self.pending@.take(i as int),
            decreases n - i,
        {
            drained.push(self.pending[i]);
            proof {
                assert(self.pending@.take(i as int).push(self.pending@[i as int]) =~= self
                    .pending@.take(i + 1 as int));
            }
            i = i + 1;
        }
        proof {
            assert(self.pending@.take(n as int) =~= self.pending@);
        }
        self.pending = Vec::new();
        drained
    }
}

/// A response whose id is not pending is dropped as a violation, never
/// delivered: once a waiter has been woken, its id is gone from the table,
/// so a side observes at most one response for each id it assigned.
pub proof fn lemma_at_most_one_response(s: AdapterState, m: MessageView)
    requires
        spec_is_response(m.data),
        !s.has_pending(m.id),
    ensures
        s.spec_route(m) == InboundRoute::Violation,
{
}

/// A response whose id this side never issued is dropped as a violation:
/// under no reordering of deliveries can a blocking sender observe a
/// response to an id it did not issue.
pub proof fn lemma_no_foreign_response(s: AdapterState, m: MessageView)
    requires
        s.wf(),
        spec_is_response(m.data),
        !s.issued@.contains(m.id),
    ensures
        s.spec_route(m) == InboundRoute::Violation,
{
    if s.has_pending(m.id) {
        let i = choose|i: int| 0 <= i < s.pending@.len() && (#[trigger] s.pending@[i]).id == m.id;
        assert(s.issued@.contains(s.pending@[i].id));
    }
}

} // verus!
