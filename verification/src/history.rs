//! What a client remembers of the room: the last messages that came in,
//! oldest first, never more than a fixed number, and which of them fit on a
//! screen of a given height.

use crate::message::{Message, Record};
use std::collections::VecDeque;
use vstd::prelude::*;

verus! {

/// The most messages that a history holds.
pub const HISTORY_LIMIT: usize = 50;

/// The screen rows that one message takes.
pub const ROWS_PER_MESSAGE: u16 = 4;

/// The number of colours that messages take in turn.
pub const COLOURS: usize = 4;

/// The records of a run of messages.
pub open spec fn records(messages: Seq<Message>) -> Seq<Record> {
    messages.map_values(|message: Message| message@)
}

/// The history after one more message: the message joins at the end, and the
/// oldest leaves where that makes more than the limit.
pub open spec fn remembered(before: Seq<Record>, message: Record) -> Seq<Record> {
    if before.len() < HISTORY_LIMIT {
        before.push(message)
    } else {
        before.drop_first().push(message)
    }
}

/// The position of the first message that is shown: as many of the last
/// messages are shown as fit the height.
pub open spec fn first_shown(count: nat, height: u16) -> nat {
    let fit: nat = (height / ROWS_PER_MESSAGE) as nat;
    if count > fit {
        (count - fit) as nat
    } else {
        0
    }
}

pub struct History {
    messages: VecDeque<Message>,
}

impl View for History {
    type V = Seq<Record>;

    closed spec fn view(&self) -> Seq<Record> {
        records(self.messages@)
    }
}

impl History {
    /// The history holds no more than the limit.
    pub open spec fn wf(&self) -> bool {
        self@.len() <= HISTORY_LIMIT
    }

    /// A history without messages.
    pub fn new() -> (history: History)
        ensures
            history.wf(),
            history@ == Seq::<Record>::empty(),
    {
        History { messages: VecDeque::with_capacity(HISTORY_LIMIT) }
    }

    /// Remembers one more message, and forgets the oldest where the history
    /// is full.
    pub fn push(&mut self, message: Message)
        requires
            old(self).wf(),
        ensures
            final(self).wf(),
            final(self)@ == remembered(old(self)@, message@),
    {
        if self.messages.len() >= HISTORY_LIMIT {
            self.messages.pop_front();
        }
        self.messages.push_back(message);
        assert(self@ =~= remembered(old(self)@, message@));
    }

    /// The number of messages held.
    pub fn len(&self) -> (count: usize)
        ensures
            count == self@.len(),
    {
        self.messages.len()
    }

    /// Whether no message is held.
    pub fn is_empty(&self) -> (empty: bool)
        ensures
            empty == (self@.len() == 0),
    {
        self.messages.len() == 0
    }

    /// The message at `position`, counted from the oldest.
    pub fn get(&self, position: usize) -> (message: Option<&Message>)
        ensures
            message is Some <==> position < self@.len(),
            message matches Some(held) ==> held@ == self@[position as int],
    {
        if position < self.messages.len() {
            Some(&self.messages[position])
        } else {
            None
        }
    }

    /// The position of the first message that is shown on a screen part of
    /// the given height; all from there to the newest are shown.
    pub fn first_shown(&self, height: u16) -> (first: usize)
        ensures
            first == first_shown(self@.len(), height),
            first <= self@.len(),
    {
        let fit: usize = (height / ROWS_PER_MESSAGE) as usize;
        let count: usize = self.messages.len();
        if count > fit {
            count - fit
        } else {
            0
        }
    }
}

/// The colour, by its number, of the message at `position`: the colours take
/// turns.
pub fn colour_of(position: usize) -> (colour: usize)
    ensures
        colour == position % COLOURS,
        colour < COLOURS,
{
    position % COLOURS
}

} // verus!
