use vstd::prelude::*;
use crate::handshake::{copy_range, credentials_match, parse_handshake, parse_model, HandshakeParse, ParseModel};

verus! {

/// Why a session ended without a clean close.
#[derive(Clone, Copy, Debug, PartialEq, Eq, Structural)]
pub enum FailReason {
    /// The handshake record was malformed, or the client left before it was complete.
    Protocol,
    /// The handshake's credential is not the configured one.
    Auth,
    /// The destination could not be reached.
    Upstream,
    /// The relay ended on an I/O error.
    Relay,
}

impl FailReason {
    /// A short description of the reason, for reporting.
    pub fn describe(&self) -> (r: &'static str) {
        match self {
            FailReason::Protocol => "malformed or incomplete handshake",
            FailReason::Auth => "credential mismatch",
            FailReason::Upstream => "destination unreachable",
            FailReason::Relay => "relay i/o error",
        }
    }
}

#[derive(Clone, Copy, Debug, PartialEq, Eq, Structural)]
pub enum SessionState {
    AwaitingHandshake,
    Connecting,
    Relaying,
    Closed,
    Failed(FailReason),
}

/// What the surroundings report to a session.
#[derive(Debug, PartialEq, Eq)]
pub enum SessionEvent {
    /// Bytes arrived from the client.
    ClientData(Vec<u8>),
    /// The client stream ended.
    ClientClosed,
    /// The outbound connection is open.
    UpstreamConnected,
    /// The outbound connection could not be opened.
    UpstreamFailed,
    /// The relay has ended, cleanly (`true`) or on an error.
    RelayFinished(bool),
}

/// What a session asks its surroundings to do next.
#[derive(Clone, Copy, Debug, PartialEq, Eq, Structural)]
pub enum SessionAction {
    /// Nothing; wait for the next event.
    Wait,
    /// Open the outbound connection to the configured destination.
    Connect,
    /// Write the pending bytes upstream, then relay both streams.
    StartRelay,
    /// Close both streams.
    Release,
    /// Close both streams and report the reason.
    Fail(FailReason),
}

/// One tunnel session: from the client's first bytes to the end of the relay.
pub struct TunnelSession {
    credential: Vec<u8>,
    state: SessionState,
    pending: Vec<u8>,
}

/// One transition: the next state, the next pending bytes and the action.
pub open spec fn step(
    credential: Seq<u8>,
    state: SessionState,
    pending: Seq<u8>,
    event: SessionEvent,
) -> (SessionState, Seq<u8>, SessionAction) {
    match state {
        SessionState::AwaitingHandshake => match event {
            SessionEvent::ClientData(d) => {
                let b = pending + d@;
                match parse_model(b) {
                    ParseModel::Incomplete => (state, b, SessionAction::Wait),
                    ParseModel::Malformed => (
                        SessionState::Failed(FailReason::Protocol),
                        Seq::empty(),
                        SessionAction::Fail(FailReason::Protocol),
                    ),
                    ParseModel::Complete { credential: c, consumed, .. } => if c == credential {
                        (SessionState::Connecting, b.subrange(consumed as int, b.len() as int), SessionAction::Connect)
                    } else {
                        (
                            SessionState::Failed(FailReason::Auth),
                            Seq::empty(),
                            SessionAction::Fail(FailReason::Auth),
                        )
                    },
                }
            },
            SessionEvent::ClientClosed => (
                SessionState::Failed(FailReason::Protocol),
                Seq::empty(),
                SessionAction::Fail(FailReason::Protocol),
            ),
            _ => (state, pending, SessionAction::Wait),
        },
        SessionState::Connecting => match event {
            SessionEvent::ClientData(d) => (state, pending + d@, SessionAction::Wait),
            SessionEvent::ClientClosed => (SessionState::Closed, Seq::empty(), SessionAction::Release),
            SessionEvent::UpstreamConnected => (SessionState::Relaying, pending, SessionAction::StartRelay),
            SessionEvent::UpstreamFailed => (
                SessionState::Failed(FailReason::Upstream),
                Seq::empty(),
                SessionAction::Fail(FailReason::Upstream),
            ),
            SessionEvent::RelayFinished(_) => (state, pending, SessionAction::Wait),
        },
        SessionState::Relaying => match event {
            SessionEvent::RelayFinished(clean) => if clean {
                (SessionState::Closed, Seq::empty(), SessionAction::Release)
            } else {
                (
                    SessionState::Failed(FailReason::Relay),
                    Seq::empty(),
                    SessionAction::Fail(FailReason::Relay),
                )
            },
            _ => (state, pending, SessionAction::Wait),
        },
        _ => (state, pending, SessionAction::Wait),
    }
}

fn append_bytes(v: &mut Vec<u8>, d: &Vec<u8>)
    ensures
        final(v)@ == old(v)@ + d@,
{
    let mut i: usize = 0;
    while i < d.len()
        invariant
            i <= d@.len(),
            v@ == old(v)@ + d@.subrange(0, i as int),
        decreases d.len() - i,
    {
        v.push(d[i]);
        i = i + 1;
        assert(v@ =~= old(v)@ + d@.subrange(0, i as int));
    }
    assert(d@.subrange(0, i as int) =~= d@);
}

impl TunnelSession {
    pub closed spec fn credential_view(&self) -> Seq<u8> {
        self.credential@
    }

    pub closed spec fn state_view(&self) -> SessionState {
        self.state
    }

    pub closed spec fn pending_view(&self) -> Seq<u8> {
        self.pending@
    }

    /// A session waiting for the handshake, holding the configured credential.
    pub fn new(credential: Vec<u8>) -> (r: Self)
        ensures
            r.credential_view() == credential@,
            r.state_view() == SessionState::AwaitingHandshake,
            r.pending_view() == Seq::<u8>::empty(),
    {
        TunnelSession { credential, state: SessionState::AwaitingHandshake, pending: Vec::new() }
    }

    pub fn state(&self) -> (r: SessionState)
        ensures
            r == self.state_view(),
    {
        self.state
    }

    /// The bytes received from the client that are not yet sent upstream.
    pub fn pending(&self) -> (r: &Vec<u8>)
        ensures
            r@ == self.pending_view(),
    {
        &self.pending
    }

    /// Takes in one event and says what to do next.
    pub fn on_event(&mut self, event: SessionEvent) -> (a: SessionAction)
        ensures
            final(self).credential_view() == old(self).credential_view(),
            (final(self).state_view(), final(self).pending_view(), a) == step(
                old(self).credential_view(),
                old(self).state_view(),
                old(self).pending_view(),
                event,
            ),
    {
        match self.state {
            SessionState::AwaitingHandshake => match event {
                SessionEvent::ClientData(d) => {
                    append_bytes(&mut self.pending, &d);
                    match parse_handshake(self.pending.as_slice()) {
                        HandshakeParse::Incomplete => SessionAction::Wait,
                        HandshakeParse::Malformed => {
                            self.state = SessionState::Failed(FailReason::Protocol);
                            self.pending = Vec::new();
                            SessionAction::Fail(FailReason::Protocol)
                        },
                        HandshakeParse::Complete(h, n) => {
                            if credentials_match(h.credential.as_slice(), self.credential.as_slice()) {
                                let rest = copy_range(self.pending.as_slice(), n, self.pending.len());
                                self.pending = rest;
                                self.state = SessionState::Connecting;
                                SessionAction::Connect
                            } else {
                                self.state = SessionState::Failed(FailReason::Auth);
                                self.pending = Vec::new();
                                SessionAction::Fail(FailReason::Auth)
                            }
                        },
                    }
                },
                SessionEvent::ClientClosed => {
                    self.state = SessionState::Failed(FailReason::Protocol);
                    self.pending = Vec::new();
                    SessionAction::Fail(FailReason::Protocol)
                },
                _ => SessionAction::Wait,
            },
            SessionState::Connecting => match event {
                SessionEvent::ClientData(d) => {
                    append_bytes(&mut self.pending, &d);
                    SessionAction::Wait
                },
                SessionEvent::ClientClosed => {
                    self.state = SessionState::Closed;
                    self.pending = Vec::new();
                    SessionAction::Release
                },
                SessionEvent::UpstreamConnected => {
                    self.state = SessionState::Relaying;
                    SessionAction::StartRelay
                },
                SessionEvent::UpstreamFailed => {
                    self.state = SessionState::Failed(FailReason::Upstream);
                    self.pending = Vec::new();
                    SessionAction::Fail(FailReason::Upstream)
                },
                SessionEvent::RelayFinished(_) => SessionAction::Wait,
            },
            SessionState::Relaying => match event {
                SessionEvent::RelayFinished(clean) => {
                    self.pending = Vec::new();
                    if clean {
                        self.state = SessionState::Closed;
                        SessionAction::Release
                    } else {
                        self.state = SessionState::Failed(FailReason::Relay);
                        SessionAction::Fail(FailReason::Relay)
                    }
                },
                _ => SessionAction::Wait,
            },
            _ => SessionAction::Wait,
        }
    }
}

} // verus!

verus! {

/// A session's state, pending bytes and actions after `events`, from the start.
pub open spec fn run(credential: Seq<u8>, events: Seq<SessionEvent>) -> (SessionState, Seq<u8>, Seq<SessionAction>)
    decreases events.len(),
{
    if events.len() == 0 {
        (SessionState::AwaitingHandshake, Seq::empty(), Seq::empty())
    } else {
        let (s, p, acts) = run(credential, events.drop_last());
        let (s2, p2, a) = step(credential, s, p, events.last());
        (s2, p2, acts.push(a))
    }
}

/// Whether the client stream has ended among `events`.
pub open spec fn client_closed(events: Seq<SessionEvent>) -> bool
    decreases events.len(),
{
    events.len() > 0 && (client_closed(events.drop_last()) || events.last() is ClientClosed)
}

/// The bytes the client sent among `events`, up to its close.
pub open spec fn client_bytes(events: Seq<SessionEvent>) -> Seq<u8>
    decreases events.len(),
{
    if events.len() == 0 {
        Seq::empty()
    } else {
        let before = client_bytes(events.drop_last());
        if client_closed(events.drop_last()) {
            before
        } else {
            match events.last() {
                SessionEvent::ClientData(d) => before + d@,
                _ => before,
            }
        }
    }
}

/// A complete record keeps its meaning whatever bytes follow it.
proof fn lemma_complete_is_stable(b: Seq<u8>, c: Seq<u8>)
    requires
        parse_model(b) is Complete,
    ensures
        parse_model(b + c) == parse_model(b),
{
    let bc = b + c;
    assert(bc[0] == b[0] && bc[17] == b[17] && bc[18] == b[18] && bc[19] == b[19]);
    if b.len() > 20 {
        assert(bc[20] == b[20]);
    }
    assert(bc.subrange(1, 17) =~= b.subrange(1, 17));
    if let ParseModel::Complete { consumed, kind, .. } = parse_model(b) {
        let start = crate::handshake::address_start(kind);
        assert(bc.subrange(start, consumed as int) =~= b.subrange(start, consumed as int));
    }
}

proof fn lemma_run_invariant(credential: Seq<u8>, events: Seq<SessionEvent>)
    ensures
        ({
            let (s, p, acts) = run(credential, events);
            &&& s == SessionState::AwaitingHandshake ==> {
                &&& p == client_bytes(events)
                &&& parse_model(p) is Incomplete
                &&& !client_closed(events)
                &&& forall|i: int| 0 <= i < acts.len() ==> acts[i] != SessionAction::Connect
            }
            &&& (exists|i: int| 0 <= i < acts.len() && acts[i] == SessionAction::Connect) ==> {
                &&& parse_model(client_bytes(events)) is Complete
                &&& parse_model(client_bytes(events))->credential == credential
            }
        }),
    decreases events.len(),
{
    if events.len() > 0 {
        let prev = events.drop_last();
        lemma_run_invariant(credential, prev);
        let (s, p, acts) = run(credential, prev);
        let (s2, p2, a) = step(credential, s, p, events.last());
        let acts2 = acts.push(a);
        let before = client_bytes(prev);
        let now = client_bytes(events);
        assert(exists|tail: Seq<u8>| now == before + tail) by {
            if !client_closed(prev) && events.last() is ClientData {
                assert(now == before + events.last()->ClientData_0@);
            } else {
                assert(now =~= before + Seq::<u8>::empty());
            }
        }
        let tail = choose|tail: Seq<u8>| now == before + tail;
        if exists|i: int| 0 <= i < acts2.len() && acts2[i] == SessionAction::Connect {
            let i = choose|i: int| 0 <= i < acts2.len() && acts2[i] == SessionAction::Connect;
            if i < acts.len() {
                assert(acts[i] == SessionAction::Connect);
                lemma_complete_is_stable(before, tail);
            } else {
                assert(a == SessionAction::Connect);
                assert(s == SessionState::AwaitingHandshake);
            }
        }
        if s2 == SessionState::AwaitingHandshake {
            assert(s == SessionState::AwaitingHandshake);
            assert forall|i: int| 0 <= i < acts2.len() implies acts2[i] != SessionAction::Connect by {
                if i < acts.len() {
                    assert(acts2[i] == acts[i]);
                }
            }
        }
    }
}

/// A session whose client sends a complete handshake record with a credential
/// other than the configured one never asks for an outbound connection,
/// whatever events come before or after the record.
pub proof fn wrong_credential_never_connects(credential: Seq<u8>, events: Seq<SessionEvent>)
    requires
        parse_model(client_bytes(events)) is Complete,
        parse_model(client_bytes(events))->credential != credential,
    ensures
        forall|i: int|
            0 <= i < run(credential, events).2.len() ==> run(credential, events).2[i] != SessionAction::Connect,
{
    lemma_run_invariant(credential, events);
}

} // verus!
