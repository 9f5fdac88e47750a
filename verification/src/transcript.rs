//! The transcript that both sides of a proof keep.
use crate::field::{values, JoltField};
use vstd::prelude::*;

verus! {

/// One step of a transcript.
pub enum Event {
    /// A scalar was absorbed.
    Absorbed(int),
    /// A challenge was drawn.
    Drawn(int),
}

/// Where a transcript stands: the steps so far, and the rule by which the steps
/// decide the next challenge. Two transcripts in the same state give the same
/// challenges as long as they absorb the same scalars.
#[verifier::ext_equal]
pub struct TranscriptState {
    pub events: Seq<Event>,
    pub oracle: spec_fn(Seq<Event>) -> Option<int>,
}

impl TranscriptState {
    /// There is a next challenge.
    pub open spec fn can_draw(self) -> bool {
        (self.oracle)(self.events) is Some
    }

    pub open spec fn next_challenge(self) -> int {
        (self.oracle)(self.events)->Some_0
    }

    /// After the next challenge was drawn.
    pub open spec fn draw(self) -> Self {
        TranscriptState { events: self.events.push(Event::Drawn(self.next_challenge())), ..self }
    }

    /// After `scalar` was absorbed.
    pub open spec fn absorb(self, scalar: int) -> Self {
        TranscriptState { events: self.events.push(Event::Absorbed(scalar)), ..self }
    }

    /// After `scalars` were absorbed, in order.
    pub open spec fn absorb_all(self, scalars: Seq<int>) -> Self {
        TranscriptState {
            events: self.events + Seq::new(scalars.len(), |i: int| Event::Absorbed(scalars[i])),
            ..self
        }
    }
}

/// A transcript absorbs what is sent and gives challenges.
pub trait Transcript<F: JoltField> {
    spec fn state(&self) -> TranscriptState;

    /// Whether there is a next challenge.
    fn can_draw(&self) -> (b: bool)
        ensures
            b == self.state().can_draw(),
    ;

    fn append_scalar(&mut self, scalar: F)
        ensures
            final(self).state() == old(self).state().absorb(scalar.value()),
    ;

    fn challenge_scalar(&mut self) -> (challenge: F)
        requires
            old(self).state().can_draw(),
        ensures
            challenge.value() == old(self).state().next_challenge(),
            final(self).state() == old(self).state().draw(),
    ;
}

/// An entry in the record of a run.
#[derive(Debug, PartialEq, Eq)]
pub enum Entry<F> {
    Absorbed(F),
    Drawn(F),
}

pub open spec fn event<F: JoltField>(entry: Entry<F>) -> Event {
    match entry {
        Entry::Absorbed(scalar) => Event::Absorbed(scalar.value()),
        Entry::Drawn(challenge) => Event::Drawn(challenge.value()),
    }
}

/// The steps of a record.
pub open spec fn recorded<F: JoltField>(record: Seq<Entry<F>>) -> Seq<Event> {
    Seq::new(record.len(), |i: int| event(record[i]))
}

/// How many challenges were drawn.
pub open spec fn draws(events: Seq<Event>) -> nat
    decreases events.len(),
{
    if events.len() == 0 {
        0
    } else {
        draws(events.drop_last()) + (if events.last() is Drawn {
            1nat
        } else {
            0
        })
    }
}

/// The rule of public coins: the challenges are the coins in order, whatever is
/// absorbed.
pub open spec fn public_coins(coins: Seq<int>) -> spec_fn(Seq<Event>) -> Option<int> {
    |events: Seq<Event>|
        if draws(events) < coins.len() {
            Some(coins[draws(events) as int])
        } else {
            None
        }
}

/// The transcript of an interactive run: the challenges are the verifier's public
/// coins, in the order in which they were tossed, and every step is recorded.
pub struct PublicCoinTranscript<F: JoltField> {
    coins: Vec<F>,
    record: Vec<Entry<F>>,
}

impl<F: JoltField> PublicCoinTranscript<F> {
    pub fn new(coins: Vec<F>) -> (transcript: Self)
        ensures
            transcript.state() == (TranscriptState {
                events: Seq::empty(),
                oracle: public_coins(values(coins@)),
            }),
    {
        let transcript = PublicCoinTranscript { coins, record: Vec::new() };
        assert(transcript.state().events =~= Seq::<Event>::empty());
        transcript
    }

    /// The steps so far, in order.
    pub fn record(&self) -> (record: &Vec<Entry<F>>)
        ensures
            self.state().events == recorded(record@),
    {
        &self.record
    }

    /// How many coins were drawn.
    fn drawn(&self) -> (n: usize)
        ensures
            n == draws(self.state().events),
    {
        let ghost events = recorded(self.record@);
        let mut n: usize = 0;
        let mut i: usize = 0;
        while i < self.record.len()
            invariant
                i <= self.record@.len(),
                n <= i,
                events == recorded(self.record@),
                n == draws(events.take(i as int)),
            decreases self.record.len() - i,
        {
            assert(events.take(i + 1).drop_last() =~= events.take(i as int));
            if let Entry::Drawn(_) = &self.record[i] {
                n += 1;
            }
            i += 1;
        }
        assert(events.take(i as int) =~= events);
        n
    }
}

impl<F: JoltField> Transcript<F> for PublicCoinTranscript<F> {
    closed spec fn state(&self) -> TranscriptState {
        TranscriptState {
            events: recorded(self.record@),
            oracle: public_coins(values(self.coins@)),
        }
    }

    fn can_draw(&self) -> (b: bool) {
        self.drawn() < self.coins.len()
    }

    fn append_scalar(&mut self, scalar: F) {
        self.record.push(Entry::Absorbed(scalar));
        assert(self.state().events =~= old(self).state().absorb(scalar.value()).events);
    }

    fn challenge_scalar(&mut self) -> (challenge: F) {
        let challenge = self.coins[self.drawn()];
        self.record.push(Entry::Drawn(challenge));
        assert(self.state().events =~= old(self).state().draw().events);
        challenge
    }
}

} // verus!
