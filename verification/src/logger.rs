//! The console log: messages go over a bounded channel to the text view. When the channel is full
//! they wait in an overflow queue, in order, and are sent first the next time something is logged.

use crate::channel::try_send;
pub use crate::channel::{answer_of, Attempt, SendAnswer, SendOutcome};
use std::collections::VecDeque;
use std::sync::mpsc::SyncSender;
use vstd::prelude::*;

verus! {

#[verifier::external_type_specification]
#[verifier::external_body]
#[verifier::reject_recursive_types(T)]
pub struct ExSyncSender<T>(SyncSender<T>);

/// Number of attempts, in a record of attempts, whose message the channel took (all of them, but
/// a last one answered `Full`).
pub open spec fn taken_count(attempts: Seq<(Seq<char>, SendAnswer)>) -> int {
    if attempts.len() > 0 && attempts.last().1 == SendAnswer::Full {
        attempts.len() - 1
    } else {
        attempts.len() as int
    }
}

/// The answers of a record of attempts, with the texts offered.
pub open spec fn attempt_record(attempts: Seq<Attempt>) -> Seq<(Seq<char>, SendAnswer)> {
    attempts.map_values(|a: Attempt| (a.text(), a.answer()))
}

/// The texts of a queue of messages.
pub open spec fn texts(q: Seq<String>) -> Seq<Seq<char>> {
    q.map_values(|s: String| s@)
}

/// What follows one attempt to send the front message (already taken off the queue): a sent or
/// lost message is done with and the draining goes on; a message refused because the channel is
/// full goes back to the front of the queue and the draining stops.
pub fn after_send(overflow: &mut VecDeque<String>, outcome: SendOutcome) -> (keep_going: bool)
    ensures
        match outcome {
            SendOutcome::Sent => keep_going && final(overflow)@ == old(overflow)@,
            SendOutcome::Disconnected => keep_going && final(overflow)@ == old(overflow)@,
            SendOutcome::Full(m) => !keep_going && final(overflow)@ == seq![m] + old(overflow)@,
        },
{
    match outcome {
        SendOutcome::Sent => true,
        SendOutcome::Full(msg_back) => {
            overflow.push_front(msg_back);
            false
        },
        SendOutcome::Disconnected => true,
    }
}

/// Sends the messages of the log window's channel, keeping those that do not fit.
pub struct AppLogger {
    tx: SyncSender<String>,
    overflow: VecDeque<String>,
    /// Texts of the messages handed to the channel so far (sent, or lost to a closed channel),
    /// in the order they were handed over.
    handed: Ghost<Seq<Seq<char>>>,
    /// The records of the attempts to send made by the latest `log`, each made by the attempt.
    attempts: Vec<Attempt>,
}

impl AppLogger {
    /// Texts of the messages waiting for room on the channel, oldest first.
    pub closed spec fn waiting(&self) -> Seq<Seq<char>> {
        texts(self.overflow@)
    }

    /// The channel the messages are sent on.
    pub closed spec fn channel(&self) -> SyncSender<String> {
        self.tx
    }

    /// Texts of the messages handed to the channel so far, in the order they were handed over.
    pub closed spec fn handed_over(&self) -> Seq<Seq<char>> {
        self.handed@
    }

    /// The attempts to send made by the latest `log`, in order: the text offered to the channel
    /// and how the channel answered.
    pub closed spec fn last_attempts(&self) -> Seq<(Seq<char>, SendAnswer)> {
        attempt_record(self.attempts@)
    }

    /// Texts of every message logged so far, oldest first: those handed to the channel, then
    /// those waiting.
    pub open spec fn logged(&self) -> Seq<Seq<char>> {
        self.handed_over() + self.waiting()
    }

    /// A logger that sends on `tx`, with nothing logged yet.
    pub fn new(tx: SyncSender<String>) -> (l: Self)
        ensures
            l.waiting() == Seq::<Seq<char>>::empty(),
            l.handed_over() == Seq::<Seq<char>>::empty(),
            l.last_attempts() == Seq::<(Seq<char>, SendAnswer)>::empty(),
            l.channel() == tx,
    {
        let l = AppLogger {
            tx,
            overflow: VecDeque::new(),
            handed: Ghost(Seq::empty()),
            attempts: Vec::new(),
        };
        assert(texts(l.overflow@) =~= Seq::<Seq<char>>::empty());
        l
    }

    /// Number of messages waiting for room on the channel.
    pub fn waiting_len(&self) -> (n: usize)
        ensures
            n == self.waiting().len(),
    {
        self.overflow.len()
    }

    /// Logs `msg`: it joins the end of the queue, then the queue is offered to the channel from the
    /// front, one message at a time, until the channel answers that it is full. A message the
    /// channel takes (sent, or lost to a closed channel) is handed over; the refused one goes back
    /// to the front and waits with all after it. So, with `all` the old queue followed by `msg`:
    /// the attempts offer `all` in order, at least one attempt is made, only the last can be
    /// answered `Full`, the taken messages are handed over in order and the rest wait. No message
    /// is reordered, duplicated, dropped or made up.
    pub fn log(&mut self, msg: String)
        ensures
            ({
                let all = old(self).waiting().push(msg@);
                let a = final(self).last_attempts();
                let k = taken_count(a);
                &&& 1 <= a.len() <= all.len()
                &&& forall|i: int| 0 <= i < a.len() ==> (#[trigger] a[i]).0 == all[i]
                &&& forall|i: int| 0 <= i < a.len() - 1 ==> (#[trigger] a[i]).1 != SendAnswer::Full
                &&& a.last().1 != SendAnswer::Full ==> a.len() == all.len()
                &&& final(self).waiting() == all.skip(k)
                &&& final(self).handed_over() == old(self).handed_over() + all.take(k)
                &&& final(self).waiting().len() > 0 ==> a.last().1 == SendAnswer::Full && a.last().0
                    == final(self).waiting()[0]
            }),
            final(self).logged() == old(self).logged().push(msg@),
            final(self).channel() == old(self).channel(),
    {
        let ghost all = old(self).waiting().push(msg@);
        let ghost handed0 = old(self).handed_over();
        self.overflow.push_back(msg);
        self.attempts = Vec::new();
        proof {
            assert(texts(self.overflow@) =~= all);
            assert(all.skip(0) =~= all);
            assert(all.take(0) =~= Seq::<Seq<char>>::empty());
            assert(handed0 + all.take(0) =~= handed0);
        }
        let ghost mut k: int = 0;
        loop
            invariant_except_break
                attempt_record(self.attempts@).len() == k,
                forall|i: int| 0 <= i < k ==> (#[trigger] attempt_record(self.attempts@)[i]).0 == all[i] && attempt_record(self.attempts@)[i].1
                    != SendAnswer::Full,
            invariant
                0 <= k <= all.len(),
                all.len() >= 1,
                all == old(self).waiting().push(msg@),
                self.tx == old(self).tx,
                texts(self.overflow@) == all.skip(k),
                self.handed@ == handed0 + all.take(k),
            ensures
                0 <= k <= all.len(),
                texts(self.overflow@) == all.skip(k),
                self.handed@ == handed0 + all.take(k),
                1 <= attempt_record(self.attempts@).len() <= all.len(),
                taken_count(attempt_record(self.attempts@)) == k,
                forall|i: int| 0 <= i < attempt_record(self.attempts@).len() ==> (#[trigger] attempt_record(self.attempts@)[i]).0 == all[i],
                forall|i: int| 0 <= i < attempt_record(self.attempts@).len() - 1 ==> (#[trigger] attempt_record(self.attempts@)[i]).1
                    != SendAnswer::Full,
                attempt_record(self.attempts@).last().1 != SendAnswer::Full ==> attempt_record(self.attempts@).len() == all.len(),
                attempt_record(self.attempts@).last().1 != SendAnswer::Full ==> k == all.len(),
                attempt_record(self.attempts@).last().1 == SendAnswer::Full ==> self.overflow@.len() > 0
                    && self.overflow@[0]@ == all[k],
            decreases self.overflow@.len(),
        {
            let ghost before = self.overflow@;
            let front = self.overflow.pop_front();
            match front {
                Some(m) => {
                    proof {
                        assert(texts(before).len() == before.len());
                        assert(all.skip(k).len() == before.len());
                        assert(texts(before)[0] == before[0]@);
                        assert(all.skip(k)[0] == all[k]);
                        assert(m@ == all[k]);
                        assert(texts(self.overflow@) =~= all.skip(k + 1)) by {
                            assert forall|i: int| 0 <= i < self.overflow@.len() implies texts(self.overflow@)[i] == all.skip(k + 1)[i] by {
                                assert(self.overflow@[i] == before[i + 1]);
                                assert(texts(before)[i + 1] == all.skip(k)[i + 1]);
                            }
                        }
                        assert(all.take(k + 1) =~= all.take(k).push(all[k]));
                    }
                    let (outcome, attempt) = try_send(&self.tx, m);
                    let ghost answer = answer_of(outcome);
                    let ghost before_attempts = self.attempts@;
                    let keep_going = after_send(&mut self.overflow, outcome);
                    self.attempts.push(attempt);
                    proof {
                        assert(attempt_record(self.attempts@) =~= attempt_record(before_attempts).push((all[k], answer)));
                    }
                    if keep_going {
                        self.handed = Ghost(self.handed@.push(all[k]));
                        proof {
                            assert(handed0 + all.take(k).push(all[k]) =~= (handed0 + all.take(k)).push(all[k]));
                            k = k + 1;
                        }
                    } else {
                        proof {
                            assert(texts(self.overflow@) =~= all.skip(k));
                            assert(self.overflow@[0]@ == all[k]);
                        }
                        break;
                    }
                },
                None => {
                    proof {
                        assert(all.skip(k).len() == 0);
                    }
                    break;
                },
            }
        }
        proof {
            assert(all.take(k) + all.skip(k) =~= all);
            assert(handed0 + all.take(k) + all.skip(k) =~= handed0 + all);
            assert(handed0 + all =~= (handed0 + old(self).waiting()).push(all[all.len() - 1]));
            if self.overflow@.len() > 0 {
                assert(texts(self.overflow@)[0] == self.overflow@[0]@);
            }
        }
    }
}

} // verus!
