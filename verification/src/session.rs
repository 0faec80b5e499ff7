//! The session layer: the request/response state machine of a Bolt v1
//! conversation. The transport reads and writes bytes; every decision about
//! what may be sent, what a response means, and what state follows is here.

use vstd::prelude::*;

use crate::message::ResponseKind;
use crate::value::Value;

verus! {

broadcast use vstd::std_specs::vec::group_vec_axioms;

/// The states a session passes through.
#[derive(Clone, Copy, Debug, PartialEq, Eq, Structural)]
pub enum SessionState {
    /// No connection yet.
    Disconnected,
    /// Connected and version agreed; `Init` not yet acknowledged.
    Connected,
    /// Ready for a statement.
    Ready,
    /// A statement ran; records may be pulled or discarded.
    Streaming,
    /// The server reported a failure; only `AckFailure` or `Reset` help.
    Failed,
    /// The server is ignoring requests until the failure is acknowledged.
    Interrupted,
    /// The conversation is beyond recovery; the connection must close.
    Defunct,
}

/// The requests a client sends.
#[derive(Clone, Copy, Debug, PartialEq, Eq, Structural)]
pub enum RequestKind {
    Init,
    Run,
    DiscardAll,
    PullAll,
    AckFailure,
    Reset,
}

/// Which requests a state permits sending.
pub open spec fn can_send(s: SessionState, req: RequestKind) -> bool {
    match s {
        SessionState::Connected => req is Init,
        SessionState::Ready => req is Run || req is Reset,
        SessionState::Streaming => req is PullAll || req is DiscardAll,
        SessionState::Failed => req is AckFailure || req is Reset,
        SessionState::Interrupted => req is AckFailure || req is Reset,
        _ => false,
    }
}

/// The state after receiving one response to the oldest pending request.
/// Every combination the table does not permit is beyond recovery.
pub open spec fn spec_transition(
    s: SessionState,
    req: RequestKind,
    resp: ResponseKind,
) -> SessionState {
    match (s, req, resp) {
        (SessionState::Connected, RequestKind::Init, ResponseKind::Success) => SessionState::Ready,
        (SessionState::Connected, RequestKind::Init, ResponseKind::Failure) => SessionState::Defunct,
        (SessionState::Ready, RequestKind::Run, ResponseKind::Success) => SessionState::Streaming,
        (SessionState::Ready, RequestKind::Run, ResponseKind::Failure) => SessionState::Failed,
        (SessionState::Ready, RequestKind::Reset, ResponseKind::Success) => SessionState::Ready,
        (SessionState::Ready, RequestKind::Reset, ResponseKind::Failure) => SessionState::Defunct,
        (SessionState::Streaming, RequestKind::PullAll, ResponseKind::Success) => SessionState::Ready,
        (SessionState::Streaming, RequestKind::PullAll, ResponseKind::Failure) => SessionState::Failed,
        (SessionState::Streaming, RequestKind::PullAll, ResponseKind::Record) => SessionState::Streaming,
        (SessionState::Streaming, RequestKind::DiscardAll, ResponseKind::Success) => SessionState::Ready,
        (SessionState::Streaming, RequestKind::DiscardAll, ResponseKind::Failure) => SessionState::Failed,
        (SessionState::Streaming, RequestKind::DiscardAll, ResponseKind::Record) => SessionState::Streaming,
        (SessionState::Failed, RequestKind::AckFailure, ResponseKind::Success) => SessionState::Ready,
        (SessionState::Failed, RequestKind::AckFailure, ResponseKind::Failure) => SessionState::Defunct,
        (SessionState::Failed, RequestKind::Reset, ResponseKind::Success) => SessionState::Ready,
        (SessionState::Failed, RequestKind::Reset, ResponseKind::Failure) => SessionState::Defunct,
        (SessionState::Failed, _, ResponseKind::Ignored) => SessionState::Failed,
        (SessionState::Interrupted, RequestKind::AckFailure, ResponseKind::Success) => SessionState::Ready,
        (SessionState::Interrupted, RequestKind::AckFailure, ResponseKind::Failure) => SessionState::Defunct,
        (SessionState::Interrupted, RequestKind::Reset, ResponseKind::Success) => SessionState::Ready,
        (SessionState::Interrupted, RequestKind::Reset, ResponseKind::Failure) => SessionState::Defunct,
        (SessionState::Interrupted, _, ResponseKind::Ignored) => SessionState::Interrupted,
        _ => SessionState::Defunct,
    }
}

/// The state the session will reach if every pending request succeeds:
/// what the next request's legality is judged against when pipelining.
pub open spec fn advance(s: SessionState, reqs: Seq<RequestKind>) -> SessionState
    decreases reqs,
{
    if reqs.len() == 0 {
        s
    } else {
        advance(spec_transition(s, reqs[0], ResponseKind::Success), reqs.subrange(1, reqs.len() as int))
    }
}

/// One step of the state table, as executable code.
pub fn transition(s: SessionState, req: RequestKind, resp: ResponseKind) -> (r: SessionState)
    ensures
        r == spec_transition(s, req, resp),
{
    match (s, req, resp) {
        (SessionState::Connected, RequestKind::Init, ResponseKind::Success) => SessionState::Ready,
        (SessionState::Connected, RequestKind::Init, ResponseKind::Failure) => SessionState::Defunct,
        (SessionState::Ready, RequestKind::Run, ResponseKind::Success) => SessionState::Streaming,
        (SessionState::Ready, RequestKind::Run, ResponseKind::Failure) => SessionState::Failed,
        (SessionState::Ready, RequestKind::Reset, ResponseKind::Success) => SessionState::Ready,
        (SessionState::Ready, RequestKind::Reset, ResponseKind::Failure) => SessionState::Defunct,
        (SessionState::Streaming, RequestKind::PullAll, ResponseKind::Success) => SessionState::Ready,
        (SessionState::Streaming, RequestKind::PullAll, ResponseKind::Failure) => SessionState::Failed,
        (SessionState::Streaming, RequestKind::PullAll, ResponseKind::Record) => SessionState::Streaming,
        (SessionState::Streaming, RequestKind::DiscardAll, ResponseKind::Success) => SessionState::Ready,
        (SessionState::Streaming, RequestKind::DiscardAll, ResponseKind::Failure) => SessionState::Failed,
        (SessionState::Streaming, RequestKind::DiscardAll, ResponseKind::Record) => SessionState::Streaming,
        (SessionState::Failed, RequestKind::AckFailure, ResponseKind::Success) => SessionState::Ready,
        (SessionState::Failed, RequestKind::AckFailure, ResponseKind::Failure) => SessionState::Defunct,
        (SessionState::Failed, RequestKind::Reset, ResponseKind::Success) => SessionState::Ready,
        (SessionState::Failed, RequestKind::Reset, ResponseKind::Failure) => SessionState::Defunct,
        (SessionState::Failed, _, ResponseKind::Ignored) => SessionState::Failed,
        (SessionState::Interrupted, RequestKind::AckFailure, ResponseKind::Success) => SessionState::Ready,
        (SessionState::Interrupted, RequestKind::AckFailure, ResponseKind::Failure) => SessionState::Defunct,
        (SessionState::Interrupted, RequestKind::Reset, ResponseKind::Success) => SessionState::Ready,
        (SessionState::Interrupted, RequestKind::Reset, ResponseKind::Failure) => SessionState::Defunct,
        (SessionState::Interrupted, _, ResponseKind::Ignored) => SessionState::Interrupted,
        _ => SessionState::Defunct,
    }
}

/// What handling one inbound message amounts to.
#[derive(Debug)]
pub enum Outcome {
    /// A record arrived mid-stream and was buffered (or discarded under a
    /// pending `DiscardAll`); the stream continues.
    Streamed,
    /// The oldest pending request finished; its kind, and the message's
    /// single field, are handed back.
    Completed(RequestKind, Value),
    /// The message is not acceptable here; the session is now beyond
    /// recovery and the connection must close.
    ProtocolViolation,
}

/// The protocol brain of a session: its state, the pending requests oldest
/// first, and the records buffered for the pending stream. It owns no
/// socket: bytes in and out of it are somebody else's business.
pub struct SessionCore {
    /// The current state.
    pub state: SessionState,
    /// Requests sent and not yet answered, oldest first.
    pub pending: Vec<RequestKind>,
    /// Records buffered since the last stream began.
    pub records: Vec<Value>,
}

impl SessionCore {
    /// A session whose connection just completed the handshake.
    pub fn new() -> (s: SessionCore)
        ensures
            s.state == SessionState::Connected,
            s.pending@ == Seq::<RequestKind>::empty(),
            s.records@ == Seq::<Value>::empty(),
    {
        SessionCore { state: SessionState::Connected, pending: Vec::new(), records: Vec::new() }
    }

    /// Asks to send a request. It is accepted exactly when the state the
    /// pending requests lead to (assuming they succeed) permits it; an
    /// accepted request joins the back of the pending queue, and a refused
    /// one changes nothing - in particular, nothing goes on the wire.
    pub fn request(&mut self, req: RequestKind) -> (accepted: bool)
        ensures
            accepted == can_send(advance(old(self).state, old(self).pending@), req),
            accepted ==> final(self).state == old(self).state && final(self).pending@ == old(
                self,
            ).pending@.push(req) && final(self).records@ == old(self).records@,
            !accepted ==> final(self).state == old(self).state && final(self).pending@ == old(
                self,
            ).pending@ && final(self).records@ == old(self).records@,
    {
        let ghost reqs = self.pending@;
        let mut head: SessionState = self.state;
        let n = self.pending.len();
        let mut j: usize = 0;
        proof {
            assert(reqs.skip(0) =~= reqs);
        }
        while j < n
            invariant
                j <= n,
                n == reqs.len(),
                reqs == self.pending@,
                advance(self.state, reqs) == advance(head, reqs.skip(j as int)),
            decreases n - j,
        {
            proof {
                assert(reqs.skip(j as int)[0] == reqs[j as int]);
                assert(reqs.skip(j as int).subrange(1, reqs.skip(j as int).len() as int) =~=
                    reqs.skip(j as int + 1));
            }
            head = transition(head, self.pending[j], ResponseKind::Success);
            j += 1;
        }
        proof {
            assert(reqs.skip(n as int) =~= Seq::<RequestKind>::empty());
        }
        let allowed = match (head, req) {
            (SessionState::Connected, RequestKind::Init) => true,
            (SessionState::Ready, RequestKind::Run) => true,
            (SessionState::Ready, RequestKind::Reset) => true,
            (SessionState::Streaming, RequestKind::PullAll) => true,
            (SessionState::Streaming, RequestKind::DiscardAll) => true,
            (SessionState::Failed, RequestKind::AckFailure) => true,
            (SessionState::Failed, RequestKind::Reset) => true,
            (SessionState::Interrupted, RequestKind::AckFailure) => true,
            (SessionState::Interrupted, RequestKind::Reset) => true,
            _ => false,
        };
        if allowed {
            self.pending.push(req);
        }
        allowed
    }

    /// Handles one classified inbound message. Records under a pending
    /// `PullAll` are buffered and under a pending `DiscardAll` dropped;
    /// a terminal message completes the oldest pending request - responses
    /// meet requests strictly in the order the requests were sent - and
    /// moves the state by the table. A message that no state and pending
    /// request permit leaves the session beyond recovery.
    pub fn handle_message(&mut self, kind: ResponseKind, payload: Value) -> (r: Outcome)
        ensures
            old(self).pending@.len() == 0 ==> (final(self).state == SessionState::Defunct
                && final(self).pending@ == old(self).pending@
                && final(self).records@ == old(self).records@
                && r is ProtocolViolation),
            (old(self).pending@.len() > 0 && kind == ResponseKind::Record
                && old(self).state == SessionState::Streaming
                && old(self).pending@[0] == RequestKind::PullAll) ==> (final(self).state == old(self).state
                && final(self).pending@ == old(self).pending@
                && final(self).records@ == old(self).records@.push(payload)
                && r is Streamed),
            (old(self).pending@.len() > 0 && kind == ResponseKind::Record
                && old(self).state == SessionState::Streaming
                && old(self).pending@[0] == RequestKind::DiscardAll) ==> (final(self).state == old(self).state
                && final(self).pending@ == old(self).pending@
                && final(self).records@ == old(self).records@
                && r is Streamed),
            (old(self).pending@.len() > 0 && kind == ResponseKind::Record
                && !(old(self).state == SessionState::Streaming
                && (old(self).pending@[0] == RequestKind::PullAll
                || old(self).pending@[0] == RequestKind::DiscardAll))) ==> (final(self).state == SessionState::Defunct
                && final(self).pending@ == old(self).pending@
                && final(self).records@ == old(self).records@
                && r is ProtocolViolation),
            (old(self).pending@.len() > 0 && kind != ResponseKind::Record) ==> (final(self).state
                == spec_transition(old(self).state, old(self).pending@[0], kind)
                && final(self).pending@ == old(self).pending@.skip(1)
                && final(self).records@ == old(self).records@
                && (r matches Outcome::Completed(req, p) && req == old(self).pending@[0] && p == payload)),
    {
        if self.pending.len() == 0 {
            self.state = SessionState::Defunct;
            return Outcome::ProtocolViolation;
        }
        let is_record = match kind {
            ResponseKind::Record => true,
            _ => false,
        };
        if is_record {
            let under_pull = match (self.state, self.pending[0]) {
                (SessionState::Streaming, RequestKind::PullAll) => true,
                _ => false,
            };
            let under_discard = match (self.state, self.pending[0]) {
                (SessionState::Streaming, RequestKind::DiscardAll) => true,
                _ => false,
            };
            if under_pull {
                self.records.push(payload);
                return Outcome::Streamed;
            }
            if under_discard {
                return Outcome::Streamed;
            }
            self.state = SessionState::Defunct;
            return Outcome::ProtocolViolation;
        }
        let front = self.pending.remove(0);
        proof {
            assert(old(self).pending@.remove(0) =~= old(self).pending@.skip(1));
        }
        self.state = transition(self.state, front, kind);
        Outcome::Completed(front, payload)
    }

    /// Hands over the records buffered so far and starts an empty buffer.
    pub fn take_records(&mut self) -> (r: Vec<Value>)
        ensures
            r@ == old(self).records@,
            final(self).records@ == Seq::<Value>::empty(),
            final(self).state == old(self).state,
            final(self).pending@ == old(self).pending@,
    {
        let r = self.records.split_off(0);
        proof {
            assert(r@ =~= old(self).records@);
            assert(self.records@ =~= Seq::<Value>::empty());
        }
        r
    }
}

} // verus!
