//! Replay: the cumulative screen text after each event of a log.
use vstd::prelude::*;
use crate::error::ErrorKind;
use crate::event::{events_model, EventModel, TerminalEvent};

verus! {

/// The payloads of the first `n` events, concatenated in log order.
pub open spec fn payloads_upto(l: Seq<EventModel>, n: int) -> Seq<char>
    decreases n,
{
    if n <= 0 {
        seq![]
    } else {
        payloads_upto(l, n - 1) + l[n - 1].payload
    }
}

/// The screen text once event `i` has been shown: every payload of
/// `l[0..=i]`, in order.
pub open spec fn screen_state(l: Seq<EventModel>, i: int) -> Seq<char> {
    payloads_upto(l, i + 1)
}

/// The screen states of a whole log, one per event.
pub open spec fn replayed(l: Seq<EventModel>) -> Seq<Seq<char>> {
    Seq::new(l.len(), |i: int| screen_state(l, i))
}

pub open spec fn strings_view(v: Seq<String>) -> Seq<Seq<char>> {
    v.map_values(|s: String| s@)
}

/// The screen states of a log, one per event and in log order.
///
/// An empty log has nothing to show and is reported as `NoEvents`.
pub fn replay(events: &Vec<TerminalEvent>) -> (r: Result<Vec<String>, ErrorKind>)
    ensures
        match r {
            Ok(v) => events@.len() > 0 && strings_view(v@) == replayed(events_model(events@)),
            Err(e) => events@.len() == 0 && e == ErrorKind::NoEvents,
        },
{
    if events.len() == 0 {
        return Err(ErrorKind::NoEvents);
    }
    let ghost l = events_model(events@);
    let mut frames: Vec<String> = Vec::new();
    let mut screen = String::new();
    let mut k: usize = 0;
    while k < events.len()
        invariant
            k <= events.len(),
            l == events_model(events@),
            screen@ == payloads_upto(l, k as int),
            strings_view(frames@) == replayed(l).take(k as int),
        decreases events.len() - k,
    {
        screen.append(events[k].payload.as_str());
        let ghost before = frames@;
        frames.push(screen.clone());
        assert(strings_view(frames@) =~= replayed(l).take(k + 1)) by {
            assert(strings_view(frames@) =~= strings_view(before).push(screen@));
        }
        k = k + 1;
    }
    assert(replayed(l).take(k as int) =~= replayed(l));
    Ok(frames)
}

/// A lazy replay: hands out the screen states of a log one at a time, in
/// log order, without touching the log.
pub struct Replayer<'a> {
    events: &'a Vec<TerminalEvent>,
    pos: usize,
    screen: String,
}

impl<'a> Replayer<'a> {
    /// The log being replayed.
    pub closed spec fn log(&self) -> Seq<EventModel> {
        events_model(self.events@)
    }

    /// How many states have been handed out.
    pub closed spec fn position(&self) -> nat {
        self.pos as nat
    }

    pub closed spec fn wf(&self) -> bool {
        &&& self.pos <= self.events@.len()
        &&& self.screen@ == payloads_upto(events_model(self.events@), self.pos as int)
    }

    /// Starts a replay; an empty log has nothing to show and is reported as
    /// `NoEvents`.
    pub fn new(events: &'a Vec<TerminalEvent>) -> (r: Result<Self, ErrorKind>)
        ensures
            match r {
                Ok(p) => p.wf() && p.log() == events_model(events@) && p.position() == 0
                    && events@.len() > 0,
                Err(e) => events@.len() == 0 && e == ErrorKind::NoEvents,
            },
    {
        if events.len() == 0 {
            return Err(ErrorKind::NoEvents);
        }
        Ok(Replayer { events, pos: 0, screen: String::new() })
    }

    /// The next screen state, or `None` once every event has been shown.
    pub fn next_state(&mut self) -> (r: Option<String>)
        requires
            old(self).wf(),
        ensures
            final(self).wf(),
            final(self).log() == old(self).log(),
            old(self).position() < old(self).log().len() ==> final(self).position() == old(
                self,
            ).position() + 1 && r is Some && r->0@ == screen_state(
                old(self).log(),
                old(self).position() as int,
            ),
            old(self).position() >= old(self).log().len() ==> *final(self) == *old(self)
                && r is None,
    {
        if self.pos >= self.events.len() {
            return None;
        }
        self.screen.append(self.events[self.pos].payload.as_str());
        self.pos = self.pos + 1;
        Some(self.screen.clone())
    }
}

/// Replay is a function of the log alone: two replays of one log give the
/// same screen states, element by element.
pub proof fn lemma_replay_deterministic(l: Seq<EventModel>, a: Seq<Seq<char>>, b: Seq<Seq<char>>)
    requires
        a == replayed(l),
        b == replayed(l),
    ensures
        a.len() == b.len(),
        forall|i: int| 0 <= i < a.len() ==> a[i] == b[i],
{
}

/// One screen state per event: a non-empty log of `n` events replays to
/// `n` states.
pub proof fn lemma_replay_len(l: Seq<EventModel>)
    ensures
        replayed(l).len() == l.len(),
{
}

/// Each screen state is the previous one followed by the event's payload,
/// and so each is a prefix of every later one.
pub proof fn lemma_screen_cumulative(l: Seq<EventModel>, i: int, j: int)
    requires
        0 <= i <= j < l.len(),
    ensures
        i > 0 ==> screen_state(l, i) == screen_state(l, i - 1) + l[i].payload,
        i == 0 ==> screen_state(l, i) == l[0].payload,
        screen_state(l, i).len() <= screen_state(l, j).len(),
        screen_state(l, j).subrange(0, screen_state(l, i).len() as int) == screen_state(l, i),
    decreases j - i,
{
    if i == 0 {
        assert(payloads_upto(l, 0) =~= seq![]);
        assert(screen_state(l, 0) =~= l[0].payload);
    }
    if i < j {
        lemma_screen_cumulative(l, i, j - 1);
        let sj = screen_state(l, j);
        let sp = screen_state(l, j - 1);
        assert(sj.subrange(0, sp.len() as int) =~= sp);
        assert(sj.subrange(0, screen_state(l, i).len() as int) =~= sp.subrange(
            0,
            screen_state(l, i).len() as int,
        ));
    } else {
        assert(screen_state(l, j).subrange(0, screen_state(l, j).len() as int) =~= screen_state(l, j));
    }
}

} // verus!
