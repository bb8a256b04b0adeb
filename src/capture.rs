//! A capture source: turns chunks read from one I/O direction into events.
use vstd::prelude::*;
use crate::event::{EventLog, EventModel, Source, TerminalEvent};

verus! {

/// The text that lossy UTF-8 decoding makes of a byte sequence.
pub uninterp spec fn lossy_utf8(b: Seq<u8>) -> Seq<char>;

/// Relies on `String::from_utf8_lossy`: decodes bytes as UTF-8, replacing
/// each invalid sequence; the text depends on the bytes alone.
#[verifier::external_body]
fn decode_lossy(b: &[u8]) -> (r: String)
    ensures
        r@ == lossy_utf8(b@),
{
    String::from_utf8_lossy(b).into_owned()
}

/// One of the two capture tasks of a session.
///
/// `issued` holds the timestamps of the events it contributed so far, in
/// order; they never decrease.
pub struct CaptureSource {
    pub source: Source,
    pub last: u128,
    pub issued: Ghost<Seq<u128>>,
}

impl CaptureSource {
    pub open spec fn wf(&self) -> bool {
        &&& forall|i: int, j: int| 0 <= i <= j < self.issued@.len() ==> self.issued@[i] <= self.issued@[j]
        &&& forall|i: int| 0 <= i < self.issued@.len() ==> self.issued@[i] <= self.last
    }

    /// A source for one direction that has contributed nothing yet.
    pub fn new(source: Source) -> (r: Self)
        ensures
            r.wf(),
            r.source == source,
            r.last == 0,
            r.issued@ == Seq::<u128>::empty(),
    {
        CaptureSource { source, last: 0, issued: Ghost(Seq::empty()) }
    }

    /// The timestamp given to an event captured at clock reading `now`: the
    /// reading itself, raised to the last one issued if the clock went back.
    pub open spec fn stamp(&self, now: u128) -> u128 {
        if now < self.last { self.last } else { now }
    }

    /// Records decoded text read at clock reading `now` as one event of this
    /// source, at the tail of `log`.
    pub fn record(&mut self, log: &mut EventLog, now: u128, text: String)
        requires
            old(self).wf(),
        ensures
            final(self).wf(),
            final(self).source == old(self).source,
            final(self).last == old(self).stamp(now),
            final(self).issued@ == old(self).issued@.push(old(self).stamp(now)),
            final(log)@ == old(log)@.push(
                EventModel { timestamp: old(self).stamp(now), source: old(self).source, payload: text@ },
            ),
    {
        let ts = if now < self.last { self.last } else { now };
        let e = TerminalEvent { timestamp: ts, source: self.source, payload: text };
        log.append(e);
        self.last = ts;
        self.issued = Ghost(self.issued@.push(ts));
    }

    /// Handles one read of `chunk` at clock reading `now`. An empty chunk is
    /// the end of the stream: nothing is recorded and `false` says the
    /// source is done. Otherwise the chunk, decoded lossily, becomes one event.
    pub fn capture(&mut self, log: &mut EventLog, now: u128, chunk: &[u8]) -> (more: bool)
        requires
            old(self).wf(),
        ensures
            final(self).wf(),
            more == (chunk@.len() > 0),
            !more ==> *final(self) == *old(self) && final(log)@ == old(log)@,
            more ==> final(self).source == old(self).source
                && final(self).last == old(self).stamp(now)
                && final(self).issued@ == old(self).issued@.push(old(self).stamp(now))
                && final(log)@ == old(log)@.push(
                EventModel {
                    timestamp: old(self).stamp(now),
                    source: old(self).source,
                    payload: lossy_utf8(chunk@),
                },
            ),
    {
        if chunk.len() == 0 {
            return false;
        }
        let text = decode_lossy(chunk);
        self.record(log, now, text);
        true
    }
}

} // verus!
