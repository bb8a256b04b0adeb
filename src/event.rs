//! Captured terminal events and the append-only log that holds them.
use vstd::prelude::*;

verus! {

/// The I/O direction an event was read from.
#[derive(Clone, Copy, PartialEq, Eq, Debug, Structural)]
pub enum Source {
    /// Bytes typed by the user and forwarded to the subprocess.
    Input,
    /// Bytes the subprocess wrote to its terminal.
    Output,
}

/// One captured chunk of terminal traffic.
///
/// Every event carries exactly one payload, tagged by `source`; the
/// timestamp is milliseconds since the session started.
#[derive(Debug)]
pub struct TerminalEvent {
    pub timestamp: u128,
    pub source: Source,
    pub payload: String,
}

/// The mathematical value of an event.
pub struct EventModel {
    pub timestamp: u128,
    pub source: Source,
    pub payload: Seq<char>,
}

impl View for TerminalEvent {
    type V = EventModel;

    open spec fn view(&self) -> EventModel {
        EventModel { timestamp: self.timestamp, source: self.source, payload: self.payload@ }
    }
}

/// The model of a sequence of events.
pub open spec fn events_model(v: Seq<TerminalEvent>) -> Seq<EventModel> {
    v.map_values(|e: TerminalEvent| e@)
}

impl Clone for TerminalEvent {
    fn clone(&self) -> (r: Self)
        ensures
            r@ == self@,
    {
        TerminalEvent { timestamp: self.timestamp, source: self.source, payload: self.payload.clone() }
    }
}

impl TerminalEvent {
    /// An event holding user input.
    pub fn input(timestamp: u128, payload: String) -> (r: Self)
        ensures
            r@ == (EventModel { timestamp, source: Source::Input, payload: payload@ }),
    {
        TerminalEvent { timestamp, source: Source::Input, payload }
    }

    /// An event holding subprocess output.
    pub fn output(timestamp: u128, payload: String) -> (r: Self)
        ensures
            r@ == (EventModel { timestamp, source: Source::Output, payload: payload@ }),
    {
        TerminalEvent { timestamp, source: Source::Output, payload }
    }
}

/// The ordered, append-only record of a session's events.
///
/// Insertion order is kept: it is the order in which the capture sources'
/// appends were admitted, not an order by timestamp.
pub struct EventLog {
    events: Vec<TerminalEvent>,
}

impl View for EventLog {
    type V = Seq<EventModel>;

    closed spec fn view(&self) -> Seq<EventModel> {
        events_model(self.events@)
    }
}

impl EventLog {
    /// An empty log.
    pub fn new() -> (r: Self)
        ensures
            r@ == Seq::<EventModel>::empty(),
    {
        let r = EventLog { events: Vec::new() };
        assert(r@ =~= Seq::<EventModel>::empty());
        r
    }

    /// Adds `e` at the tail; nothing already in the log moves or goes.
    pub fn append(&mut self, e: TerminalEvent)
        ensures
            final(self)@ == old(self)@.push(e@),
    {
        let ghost m = e@;
        self.events.push(e);
        assert(final(self)@ =~= old(self)@.push(m));
    }

    /// A copy of the events as they stand now.
    pub fn snapshot(&self) -> (r: Vec<TerminalEvent>)
        ensures
            events_model(r@) == self@,
    {
        let mut out: Vec<TerminalEvent> = Vec::new();
        let mut k: usize = 0;
        while k < self.events.len()
            invariant
                k <= self.events.len(),
                events_model(out@) == events_model(self.events@).take(k as int),
            decreases self.events.len() - k,
        {
            let e = self.events[k].clone();
            let ghost before = out@;
            out.push(e);
            assert(events_model(out@) =~= events_model(self.events@).take(k + 1)) by {
                assert(events_model(out@) =~= events_model(before).push(self.events@[k as int]@));
            }
            k = k + 1;
        }
        assert(events_model(self.events@).take(k as int) =~= self@);
        out
    }

    /// The number of events.
    pub fn len(&self) -> (r: usize)
        ensures
            r == self@.len(),
    {
        self.events.len()
    }

    /// Whether the log holds no event.
    pub fn is_empty(&self) -> (r: bool)
        ensures
            r == (self@.len() == 0),
    {
        self.events.len() == 0
    }
}

/// The log that a run of appends leaves, one event at a time in the order
/// in which they were admitted.
pub open spec fn after_appends(l: Seq<EventModel>, admitted: Seq<EventModel>) -> Seq<EventModel>
    decreases admitted.len(),
{
    if admitted.len() == 0 {
        l
    } else {
        after_appends(l.push(admitted[0]), admitted.drop_first())
    }
}

/// However the appends of several producers interleave, the log ends up
/// with every admitted event exactly once, after what it held before: its
/// length grows by the number of appends and its contents by exactly the
/// appended events.
pub proof fn lemma_appends_keep_every_event(l: Seq<EventModel>, admitted: Seq<EventModel>)
    ensures
        after_appends(l, admitted) == l + admitted,
        after_appends(l, admitted).len() == l.len() + admitted.len(),
        after_appends(l, admitted).to_multiset() == l.to_multiset().add(admitted.to_multiset()),
    decreases admitted.len(),
{
    if admitted.len() == 0 {
        assert(l + admitted =~= l);
    } else {
        lemma_appends_keep_every_event(l.push(admitted[0]), admitted.drop_first());
        assert(l.push(admitted[0]) + admitted.drop_first() =~= l + admitted);
    }
    vstd::seq_lib::lemma_multiset_commutative(l, admitted);
}

} // verus!
