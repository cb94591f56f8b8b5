use vstd::prelude::*;

verus! {

/// One direction of the relay.
#[derive(Clone, Copy, Debug, PartialEq, Eq, Structural)]
pub enum Direction {
    ClientToUpstream,
    UpstreamToClient,
}

/// What the two copy loops report.
#[derive(Debug, PartialEq, Eq)]
pub enum RelayEvent {
    /// Bytes were read from the source of a direction.
    Received(Direction, Vec<u8>),
    /// The source of a direction reached its end.
    Ended(Direction),
    /// Reading or writing in a direction failed.
    Failed(Direction),
}

/// What the copy loops are to do next.
#[derive(Debug, PartialEq, Eq)]
pub enum RelayAction {
    /// Write the bytes to the destination of the direction.
    Forward(Direction, Vec<u8>),
    /// Shut down the write side of the direction's destination.
    ShutdownWrite(Direction),
    /// Both directions are done; the first direction that failed, if any.
    Finish(Option<Direction>),
}

/// The state of a relay between two streams: which directions still run,
/// and the first direction that failed.
#[derive(Clone, Copy, Debug, PartialEq, Eq, Structural)]
pub struct RelayEngine {
    pub client_to_upstream_open: bool,
    pub upstream_to_client_open: bool,
    pub failure: Option<Direction>,
}

pub open spec fn is_open(s: RelayEngine, d: Direction) -> bool {
    match d {
        Direction::ClientToUpstream => s.client_to_upstream_open,
        Direction::UpstreamToClient => s.upstream_to_client_open,
    }
}

pub open spec fn other(d: Direction) -> Direction {
    match d {
        Direction::ClientToUpstream => Direction::UpstreamToClient,
        Direction::UpstreamToClient => Direction::ClientToUpstream,
    }
}

pub open spec fn closed(s: RelayEngine, d: Direction) -> RelayEngine {
    match d {
        Direction::ClientToUpstream => RelayEngine { client_to_upstream_open: false, ..s },
        Direction::UpstreamToClient => RelayEngine { upstream_to_client_open: false, ..s },
    }
}

/// The actions that end direction `d` of `s`, whose state afterwards is `after`.
pub open spec fn ending_actions(after: RelayEngine, d: Direction) -> Seq<RelayAction> {
    if is_open(after, other(d)) {
        seq![RelayAction::ShutdownWrite(d)]
    } else {
        seq![RelayAction::ShutdownWrite(d), RelayAction::Finish(after.failure)]
    }
}

/// One transition of the relay: the next state and the actions.
pub open spec fn relay_step(s: RelayEngine, e: RelayEvent) -> (RelayEngine, Seq<RelayAction>) {
    match e {
        RelayEvent::Received(d, bytes) => if is_open(s, d) {
            (s, seq![RelayAction::Forward(d, bytes)])
        } else {
            (s, Seq::empty())
        },
        RelayEvent::Ended(d) => if is_open(s, d) {
            (closed(s, d), ending_actions(closed(s, d), d))
        } else {
            (s, Seq::empty())
        },
        RelayEvent::Failed(d) => if is_open(s, d) {
            let f = if s.failure is None { Some(d) } else { s.failure };
            let after = RelayEngine { failure: f, ..closed(s, d) };
            (after, ending_actions(after, d))
        } else {
            (s, Seq::empty())
        },
    }
}

impl RelayEngine {
    /// A relay with both directions running.
    pub fn new() -> (r: Self)
        ensures
            r.client_to_upstream_open && r.upstream_to_client_open && r.failure is None,
    {
        RelayEngine { client_to_upstream_open: true, upstream_to_client_open: true, failure: None }
    }

    fn open(&self, d: Direction) -> (r: bool)
        ensures
            r == is_open(*self, d),
    {
        match d {
            Direction::ClientToUpstream => self.client_to_upstream_open,
            Direction::UpstreamToClient => self.upstream_to_client_open,
        }
    }

    fn close(&mut self, d: Direction)
        ensures
            *final(self) == closed(*old(self), d),
    {
        match d {
            Direction::ClientToUpstream => self.client_to_upstream_open = false,
            Direction::UpstreamToClient => self.upstream_to_client_open = false,
        }
    }

    /// Whether both directions are done.
    pub fn is_finished(&self) -> (r: bool)
        ensures
            r == (!self.client_to_upstream_open && !self.upstream_to_client_open),
    {
        !self.client_to_upstream_open && !self.upstream_to_client_open
    }

    fn end(&mut self, d: Direction) -> (r: Vec<RelayAction>)
        requires
            !is_open(*old(self), d),
        ensures
            *final(self) == *old(self),
            r@ == ending_actions(*old(self), d),
    {
        let other = match d {
            Direction::ClientToUpstream => Direction::UpstreamToClient,
            Direction::UpstreamToClient => Direction::ClientToUpstream,
        };
        if self.open(other) {
            vec![RelayAction::ShutdownWrite(d)]
        } else {
            vec![RelayAction::ShutdownWrite(d), RelayAction::Finish(self.failure)]
        }
    }

    /// Takes in one report of the copy loops and says what to do next.
    pub fn on_event(&mut self, e: RelayEvent) -> (r: Vec<RelayAction>)
        ensures
            (*final(self), r@) == relay_step(*old(self), e),
    {
        match e {
            RelayEvent::Received(d, bytes) => {
                if self.open(d) {
                    let r = vec![RelayAction::Forward(d, bytes)];
                    assert(r@ =~= seq![RelayAction::Forward(d, bytes)]);
                    r
                } else {
                    Vec::new()
                }
            },
            RelayEvent::Ended(d) => {
                if self.open(d) {
                    self.close(d);
                    self.end(d)
                } else {
                    Vec::new()
                }
            },
            RelayEvent::Failed(d) => {
                if self.open(d) {
                    if self.failure.is_none() {
                        self.failure = Some(d);
                    }
                    self.close(d);
                    self.end(d)
                } else {
                    Vec::new()
                }
            },
        }
    }
}

} // verus!

verus! {

/// The relay's state and actions after `events`, from a fresh relay.
pub open spec fn relay_run(events: Seq<RelayEvent>) -> (RelayEngine, Seq<RelayAction>)
    decreases events.len(),
{
    if events.len() == 0 {
        (RelayEngine { client_to_upstream_open: true, upstream_to_client_open: true, failure: None }, Seq::empty())
    } else {
        let (s, acts) = relay_run(events.drop_last());
        let (s2, more) = relay_step(s, events.last());
        (s2, acts + more)
    }
}

pub open spec fn ends(e: RelayEvent, d: Direction) -> bool {
    e == RelayEvent::Ended(d) || e == RelayEvent::Failed(d)
}

/// Whether direction `d` has reached its end, or failed, among `events`.
pub open spec fn ended(events: Seq<RelayEvent>, d: Direction) -> bool
    decreases events.len(),
{
    events.len() > 0 && (ended(events.drop_last(), d) || ends(events.last(), d))
}

/// The bytes read in direction `d` among `events`, up to that direction's end.
pub open spec fn received(events: Seq<RelayEvent>, d: Direction) -> Seq<u8>
    decreases events.len(),
{
    if events.len() == 0 {
        Seq::empty()
    } else {
        let before = received(events.drop_last(), d);
        if ended(events.drop_last(), d) {
            before
        } else {
            match events.last() {
                RelayEvent::Received(d2, bytes) => if d2 == d {
                    before + bytes@
                } else {
                    before
                },
                _ => before,
            }
        }
    }
}

/// The bytes that `acts` write in direction `d`, in order.
pub open spec fn forwarded(acts: Seq<RelayAction>, d: Direction) -> Seq<u8>
    decreases acts.len(),
{
    if acts.len() == 0 {
        Seq::empty()
    } else {
        let before = forwarded(acts.drop_last(), d);
        match acts.last() {
            RelayAction::Forward(d2, bytes) => if d2 == d {
                before + bytes@
            } else {
                before
            },
            _ => before,
        }
    }
}

/// Whether `acts` hold a `Finish`.
pub open spec fn finishes(acts: Seq<RelayAction>) -> bool
    decreases acts.len(),
{
    acts.len() > 0 && (finishes(acts.drop_last()) || acts.last() is Finish)
}

proof fn lemma_concat(a: Seq<RelayAction>, b: Seq<RelayAction>)
    ensures
        forall|d: Direction| #[trigger] forwarded(a + b, d) == forwarded(a, d) + forwarded(b, d),
        finishes(a + b) == (finishes(a) || finishes(b)),
    decreases b.len(),
{
    if b.len() == 0 {
        assert(a + b =~= a);
        assert forall|d: Direction| #[trigger] forwarded(a + b, d) == forwarded(a, d) + forwarded(b, d) by {
            assert(forwarded(a, d) + Seq::<u8>::empty() =~= forwarded(a, d));
        }
    } else {
        lemma_concat(a, b.drop_last());
        assert((a + b).drop_last() =~= a + b.drop_last());
        assert((a + b).last() == b.last());
        assert forall|d: Direction| #[trigger] forwarded(a + b, d) == forwarded(a, d) + forwarded(b, d) by {
            let x = forwarded(a, d);
            let y = forwarded(b.drop_last(), d);
            assert(forwarded(a + b.drop_last(), d) == x + y);
            match b.last() {
                RelayAction::Forward(d2, bytes) => {
                    if d2 == d {
                        assert(x + y + bytes@ =~= x + (y + bytes@));
                    }
                },
                _ => {},
            }
        }
    }
}

proof fn lemma_relay_run(events: Seq<RelayEvent>)
    ensures
        ({
            let (s, acts) = relay_run(events);
            &&& s.client_to_upstream_open == !ended(events, Direction::ClientToUpstream)
            &&& s.upstream_to_client_open == !ended(events, Direction::UpstreamToClient)
            &&& forall|d: Direction| #[trigger] forwarded(acts, d) == received(events, d)
            &&& finishes(acts) == (ended(events, Direction::ClientToUpstream) && ended(
                events,
                Direction::UpstreamToClient,
            ))
        }),
    decreases events.len(),
{
    if events.len() == 0 {
        assert forall|d: Direction| #[trigger] forwarded(Seq::<RelayAction>::empty(), d) == received(events, d) by {}
    } else {
        let prev = events.drop_last();
        lemma_relay_run(prev);
        let (s, acts) = relay_run(prev);
        let (s2, more) = relay_step(s, events.last());
        lemma_concat(acts, more);
        let e = Seq::<RelayAction>::empty();
        assert(finishes(e) == false);
        assert forall|d: Direction| #[trigger] forwarded(e, d) == Seq::<u8>::empty() by {}
        assert forall|d: Direction| #[trigger] forwarded(more, d) == received(events, d).subrange(
            received(prev, d).len() as int,
            received(events, d).len() as int,
        ) && received(events, d) == received(prev, d) + forwarded(more, d) by {
            match events.last() {
                RelayEvent::Received(d2, bytes) => {
                    if is_open(s, d2) {
                        assert(seq![RelayAction::Forward(d2, bytes)].drop_last() =~= Seq::<RelayAction>::empty());
                    }
                    if d2 == d && !ended(prev, d) {
                        assert(is_open(s, d));
                        assert(more == seq![RelayAction::Forward(d2, bytes)]);
                        assert(more.last() == RelayAction::Forward(d2, bytes));
                        assert(forwarded(more, d) == forwarded(more.drop_last(), d) + bytes@);
                        assert(forwarded(more, d) =~= Seq::<u8>::empty() + bytes@);
                    } else if is_open(s, d2) {
                        assert(d2 != d);
                        assert(more == seq![RelayAction::Forward(d2, bytes)]);
                        assert(forwarded(more, d) == forwarded(more.drop_last(), d));
                        assert(forwarded(more, d) =~= Seq::<u8>::empty());
                    }
                },
                _ => {
                    let m = more;
                    if m.len() == 2 {
                        assert(m.drop_last().drop_last() =~= Seq::<RelayAction>::empty());
                        assert(forwarded(m.drop_last(), d) == forwarded(m.drop_last().drop_last(), d));
                        assert(forwarded(m, d) == forwarded(m.drop_last(), d));
                    } else if m.len() == 1 {
                        assert(m.drop_last() =~= Seq::<RelayAction>::empty());
                        assert(forwarded(m, d) == forwarded(m.drop_last(), d));
                    }
                    assert(forwarded(m, d) =~= Seq::<u8>::empty());
                },
            }
            assert(received(events, d) =~= received(prev, d) + forwarded(more, d));
        }
        let m = more;
        if m.len() == 2 {
            assert(m.drop_last().drop_last() =~= Seq::<RelayAction>::empty());
        } else if m.len() == 1 {
            assert(m.drop_last() =~= Seq::<RelayAction>::empty());
        }
    }
}

/// Every byte read in a direction, up to that direction's end, is written in
/// the same direction, in the order read; and the relay finishes once both
/// directions have ended, and not before.
pub proof fn relay_keeps_both_streams(events: Seq<RelayEvent>)
    ensures
        forall|d: Direction| #[trigger] forwarded(relay_run(events).1, d) == received(events, d),
        finishes(relay_run(events).1) == (ended(events, Direction::ClientToUpstream) && ended(
            events,
            Direction::UpstreamToClient,
        )),
{
    lemma_relay_run(events);
}

/// Once one direction has ended and the other still runs, bytes read in the
/// other direction are still forwarded, and the relay does not finish.
pub proof fn half_close_keeps_other_direction(events: Seq<RelayEvent>, d: Direction, bytes: Vec<u8>)
    requires
        ended(events, other(d)),
        !ended(events, d),
    ensures
        relay_step(relay_run(events).0, RelayEvent::Received(d, bytes)).1 == seq![RelayAction::Forward(d, bytes)],
        !finishes(relay_run(events).1),
{
    lemma_relay_run(events);
}

} // verus!
