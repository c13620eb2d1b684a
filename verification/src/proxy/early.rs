//! Handing a fresh backend the data that came before it was connected.

use bytes::Bytes;
use std::collections::VecDeque;
use vstd::prelude::*;

use crate::buffers;
use crate::buffers::bytes_slice_from;
use crate::proxy::backlog;
use crate::proxy::backlog::WriteOutcome;
use crate::proxy::stream;

verus! {

/// Early data on its way to a backend.
///
/// Chunks are offered one by one. The first that is not taken whole ends the offering: what is
/// left of it, and every chunk behind it, is the stream's backlog.
pub struct EarlyFlush {
    waiting: VecDeque<Bytes>,
    backlog: VecDeque<Bytes>,
    dead: bool,
}

/// Early data on its way, as a mathematical value.
#[verifier::ext_equal]
pub struct EarlyView {
    /// The chunks still to be offered.
    pub waiting: Seq<Seq<u8>>,
    /// What the backend has not taken.
    pub backlog: Seq<Seq<u8>>,
    /// Whether the backend is gone.
    pub dead: bool,
}

impl View for EarlyFlush {
    type V = EarlyView;

    closed spec fn view(&self) -> EarlyView {
        EarlyView {
            waiting: stream::chunks(self.waiting@),
            backlog: stream::chunks(self.backlog@),
            dead: self.dead,
        }
    }
}

impl EarlyView {
    /// All that the backend has not taken, whether it was offered or not.
    pub open spec fn unwritten(self) -> Seq<Seq<u8>> {
        self.backlog + self.waiting
    }

    /// The state after an attempt to write the first waiting chunk.
    pub open spec fn after(self, outcome: WriteOutcome) -> EarlyView {
        let rest = self.waiting.skip(1);
        match outcome {
            WriteOutcome::Wrote(taken) => if taken == self.waiting[0].len() {
                EarlyView { waiting: rest, ..self }
            } else {
                EarlyView {
                    waiting: seq![],
                    backlog: self.backlog + (seq![self.waiting[0].skip(taken as int)] + rest),
                    ..self
                }
            },
            WriteOutcome::WouldBlock => EarlyView {
                waiting: seq![],
                backlog: self.backlog + self.waiting,
                ..self
            },
            WriteOutcome::Failed => EarlyView { waiting: seq![], dead: true, ..self },
        }
    }
}

/// What the backend took of the first waiting chunk, the backlog and the chunks still waiting
/// are what was there before, in order, as long as the backend lives.
pub proof fn flushing_keeps_the_stream(flush: EarlyView, outcome: WriteOutcome)
    requires
        flush.waiting.len() > 0,
        flush.backlog.len() == 0,
        outcome != WriteOutcome::Failed,
        backlog::within(outcome, flush.waiting[0].len() as int),
    ensures
        ({
            let after = flush.after(outcome);
            backlog::taken(flush.waiting[0], outcome) + after.backlog.flatten()
                + after.waiting.flatten() == flush.waiting.flatten()
        }),
{
    let after = flush.after(outcome);
    let first = flush.waiting[0];
    let rest = flush.waiting.skip(1);
    backlog::lemma_flatten_first(flush.waiting);
    match outcome {
        WriteOutcome::Wrote(taken) => {
            if taken == first.len() {
                assert(first.take(taken as int) == first);
                assert(after.backlog.flatten() == Seq::<u8>::empty());
                assert(first + Seq::<u8>::empty() + rest.flatten() == first + rest.flatten());
            } else {
                let left = seq![first.skip(taken as int)] + rest;
                assert(after.backlog == left);
                backlog::lemma_flatten_first(left);
                assert(left.skip(1) == rest);
                assert(after.waiting.flatten() == Seq::<u8>::empty());
                assert(first.take(taken as int) + first.skip(taken as int) == first);
                assert(first.take(taken as int) + (first.skip(taken as int) + rest.flatten())
                    + Seq::<u8>::empty() == first + rest.flatten());
            }
        },
        _ => {
            assert(after.backlog == flush.waiting);
            assert(after.waiting.flatten() == Seq::<u8>::empty());
            assert(Seq::<u8>::empty() + flush.waiting.flatten() + Seq::<u8>::empty()
                == flush.waiting.flatten());
        },
    }
}

/// Whether early data on its way is accounted for: what the backend took, the backlog and the
/// chunks still waiting are what the client sent, and nothing waits behind a backlog.
pub open spec fn accounts_for(flush: EarlyView, delivered: Seq<u8>, sent: Seq<u8>) -> bool {
    &&& delivered + flush.backlog.flatten() + flush.waiting.flatten() == sent
    &&& flush.backlog.len() > 0 ==> flush.waiting.len() == 0
}

/// Early data is accounted for before any of it is offered.
pub proof fn early_data_is_accounted_for_at_first(early_data: Seq<Seq<u8>>)
    ensures
        accounts_for(
            EarlyView { waiting: early_data, backlog: seq![], dead: false },
            seq![],
            early_data.flatten(),
        ),
{
    let none = Seq::<Seq<u8>>::empty();
    assert(none.flatten() == Seq::<u8>::empty());
    assert(Seq::<u8>::empty() + Seq::<u8>::empty() + early_data.flatten() == early_data.flatten());
}

/// Early data that is accounted for still is after a chunk of it was offered, as long as the
/// backend lives.
pub proof fn early_data_stays_accounted_for(
    flush: EarlyView,
    outcome: WriteOutcome,
    delivered: Seq<u8>,
    sent: Seq<u8>,
)
    requires
        accounts_for(flush, delivered, sent),
        flush.waiting.len() > 0,
        outcome != WriteOutcome::Failed,
        backlog::within(outcome, flush.waiting[0].len() as int),
    ensures
        accounts_for(
            flush.after(outcome),
            delivered + backlog::taken(flush.waiting[0], outcome),
            sent,
        ),
{
    flushing_keeps_the_stream(flush, outcome);
    let after = flush.after(outcome);
    let got = backlog::taken(flush.waiting[0], outcome);
    assert(flush.backlog.flatten() == Seq::<u8>::empty());
    assert(delivered + Seq::<u8>::empty() + flush.waiting.flatten() == delivered
        + flush.waiting.flatten());
    assert((delivered + got) + after.backlog.flatten() + after.waiting.flatten() == delivered + (got
        + after.backlog.flatten() + after.waiting.flatten()));
}

impl EarlyFlush {
    /// Nothing has been offered yet.
    pub fn new(early_data: Vec<Bytes>) -> (r: Self)
        ensures
            r@ == (EarlyView {
                waiting: stream::chunks(early_data@),
                backlog: seq![],
                dead: false,
            }),
    {
        let mut rest = early_data;
        let mut waiting: VecDeque<Bytes> = VecDeque::new();
        while rest.len() > 0
            invariant
                rest@ + waiting@ == early_data@,
            decreases rest@.len(),
        {
            let ghost before = rest@;
            match rest.pop() {
                Some(chunk) => {
                    waiting.push_front(chunk);
                    proof {
                        assert(before == rest@.push(chunk));
                    }
                },
                None => {},
            }
        }
        proof {
            assert(waiting@ == early_data@);
        }
        let r = EarlyFlush { waiting, backlog: VecDeque::new(), dead: false };
        proof {
            assert(r@.backlog == Seq::<Seq<u8>>::empty());
        }
        r
    }

    /// The chunk to be offered next.
    pub fn next(&self) -> (r: Option<&Bytes>)
        ensures
            match r {
                Some(chunk) => self@.waiting.len() > 0 && buffers::contents(*chunk)
                    == self@.waiting[0],
                None => self@.waiting.len() == 0,
            },
    {
        if self.waiting.len() > 0 {
            Some(&self.waiting[0])
        } else {
            None
        }
    }

    /// Settles an attempt to write the chunk that was offered.
    pub fn settle(&mut self, outcome: WriteOutcome)
        requires
            old(self)@.waiting.len() > 0,
            backlog::within(outcome, old(self)@.waiting[0].len() as int),
        ensures
            final(self)@ == old(self)@.after(outcome),
    {
        match outcome {
            WriteOutcome::Wrote(taken) => {
                match self.waiting.pop_front() {
                    Some(chunk) => {
                        proof {
                            assert(stream::chunks(self.waiting@) == old(self)@.waiting.skip(1));
                        }
                        if taken != chunk.len() {
                            let rest = bytes_slice_from(&chunk, taken);
                            self.backlog.push_back(rest);
                            self.give_up_offering();
                            proof {
                                assert(self@.backlog == old(self)@.backlog + (seq![
                                    old(self)@.waiting[0].skip(taken as int),
                                ] + old(self)@.waiting.skip(1)));
                            }
                        }
                    },
                    None => {},
                }
            },
            WriteOutcome::WouldBlock => {
                self.give_up_offering();
            },
            WriteOutcome::Failed => {
                self.waiting.clear();
                self.dead = true;
                proof {
                    assert(self@.waiting == Seq::<Seq<u8>>::empty());
                }
            },
        }
    }

    /// Moves every waiting chunk to the backlog.
    fn give_up_offering(&mut self)
        ensures
            final(self)@ == (EarlyView {
                waiting: seq![],
                backlog: old(self)@.backlog + old(self)@.waiting,
                ..old(self)@
            }),
    {
        while self.waiting.len() > 0
            invariant
                self@.backlog + self@.waiting == old(self)@.backlog + old(self)@.waiting,
                self.dead == old(self).dead,
            decreases self.waiting@.len(),
        {
            let ghost before = self@;
            match self.waiting.pop_front() {
                Some(chunk) => {
                    self.backlog.push_back(chunk);
                    proof {
                        assert(self@.backlog == before.backlog.push(before.waiting[0]));
                        assert(self@.waiting == before.waiting.skip(1));
                        assert(self@.backlog + self@.waiting == before.backlog + before.waiting);
                    }
                },
                None => {},
            }
        }
        proof {
            assert(self@.waiting == Seq::<Seq<u8>>::empty());
            assert(self@.backlog == old(self)@.backlog + old(self)@.waiting);
        }
    }

    /// Whether the backend is gone.
    pub fn is_dead(&self) -> (r: bool)
        ensures
            r == self@.dead,
    {
        self.dead
    }

    /// The backlog that the stream starts with: what the backend has not taken, and every chunk
    /// that was not offered.
    pub fn into_backlog(self) -> (r: VecDeque<Bytes>)
        ensures
            stream::chunks(r@) == self@.unwritten(),
    {
        let mut flush = self;
        flush.give_up_offering();
        flush.backlog
    }
}

/// A chunk that is taken whole is followed by the next, one that is not ends the offering, and a
/// backend that is gone is offered nothing more.
pub proof fn offering_goes_on_while_chunks_are_taken(flush: EarlyView, count: usize)
    requires
        flush.waiting.len() > 0,
    ensures
        count == flush.waiting[0].len() ==> {
            let after = flush.after(WriteOutcome::Wrote(count));
            after.waiting == flush.waiting.skip(1) && after.backlog == flush.backlog && after.dead
                == flush.dead
        },
        count < flush.waiting[0].len() ==> {
            let after = flush.after(WriteOutcome::Wrote(count));
            after.waiting.len() == 0 && after.dead == flush.dead && after.backlog.len()
                == flush.backlog.len() + flush.waiting.len()
        },
        flush.after(WriteOutcome::WouldBlock).waiting.len() == 0,
        flush.after(WriteOutcome::WouldBlock).dead == flush.dead,
        flush.after(WriteOutcome::Failed).waiting.len() == 0,
        flush.after(WriteOutcome::Failed).dead,
{
}

/// What the stream starts with is all that the backend has not taken, in order.
pub proof fn the_backlog_is_what_was_not_taken(flush: EarlyView)
    ensures
        flush.unwritten().flatten() == flush.backlog.flatten() + flush.waiting.flatten(),
{
    vstd::seq_lib::lemma_flatten_concat(flush.backlog, flush.waiting);
}

/// Early data is offered chunk by chunk from the first on, and there is nothing to offer only once
/// all was settled.
pub proof fn early_data_is_offered_from_the_first(
    early_data: Vec<Bytes>,
    flush: EarlyFlush,
    next: Option<&Bytes>,
    dead: bool,
)
    requires
        call_ensures(EarlyFlush::new, (early_data,), flush),
        call_ensures(EarlyFlush::next, (&flush,), next),
        call_ensures(EarlyFlush::is_dead, (&flush,), dead),
    ensures
        early_data@.len() > 0 ==> (next matches Some(chunk) && buffers::contents(*chunk)
            == buffers::contents(early_data@[0])),
        early_data@.len() == 0 ==> next is None,
        !dead,
        flush@.unwritten() == stream::chunks(early_data@),
{
    assert(flush@.unwritten() =~= stream::chunks(early_data@));
}

} // verus!
