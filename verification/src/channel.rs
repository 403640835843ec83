//! Putting a message on the console log's bounded channel without waiting, and the record of how
//! the channel answered. A record of an attempt is made only here, by the attempt itself, so a
//! record always reports what the channel really answered.

use std::sync::mpsc::SyncSender;
use vstd::prelude::*;

verus! {

/// Outcome of one attempt to put a message on the channel without waiting.
#[derive(Debug)]
pub enum SendOutcome {
    /// The message is on the channel.
    Sent,
    /// The channel is full; the message comes back.
    Full(String),
    /// The receiving end is gone; the message is lost.
    Disconnected,
}

/// How the channel answered one attempt to send a message.
#[derive(Clone, Copy, Debug, PartialEq, Eq, Structural)]
pub enum SendAnswer {
    Sent,
    Full,
    Disconnected,
}

/// The answer an outcome stands for.
pub open spec fn answer_of(outcome: SendOutcome) -> SendAnswer {
    match outcome {
        SendOutcome::Sent => SendAnswer::Sent,
        SendOutcome::Full(_) => SendAnswer::Full,
        SendOutcome::Disconnected => SendAnswer::Disconnected,
    }
}

/// The record of one attempt to send: the text offered and the channel's answer. Its fields are
/// private to this module, so only `try_send` makes one.
pub struct Attempt {
    text: Ghost<Seq<char>>,
    answer: SendAnswer,
}

impl Attempt {
    /// The text offered to the channel.
    pub closed spec fn text(&self) -> Seq<char> {
        self.text@
    }

    /// How the channel answered.
    pub closed spec fn answer(&self) -> SendAnswer {
        self.answer
    }
}

/// `SyncSender::try_send`: puts `msg` on the channel if there is room, without waiting, and
/// records the attempt. Whether there is room depends on the receiving thread, so the contract
/// says only what holds of every outcome: when the channel is full, the message handed back is
/// the one given, and the record holds the text offered and the answer the channel gave.
#[verifier::external_body]
pub(crate) fn try_send(tx: &SyncSender<String>, msg: String) -> (r: (SendOutcome, Attempt))
    ensures
        r.0 matches SendOutcome::Full(m) ==> m@ == msg@,
        r.1.text() == msg@,
        r.1.answer() == answer_of(r.0),
{
    let text = Ghost(msg@);
    match tx.try_send(msg) {
        Ok(()) => (SendOutcome::Sent, Attempt { text, answer: SendAnswer::Sent }),
        Err(std::sync::mpsc::TrySendError::Full(m)) => (SendOutcome::Full(m), Attempt { text, answer: SendAnswer::Full }),
        Err(std::sync::mpsc::TrySendError::Disconnected(_)) => (
            SendOutcome::Disconnected,
            Attempt { text, answer: SendAnswer::Disconnected },
        ),
    }
}

} // verus!
