//! The inbound queue: the raw lines that readers accepted, in the order in
//! which they were pushed, waiting for the relay to publish them.

use crate::broadcast::texts;
use std::collections::VecDeque;
use vstd::prelude::*;

verus! {

pub struct InboundQueue {
    lines: VecDeque<String>,
}

impl View for InboundQueue {
    type V = Seq<Seq<char>>;

    closed spec fn view(&self) -> Seq<Seq<char>> {
        texts(self.lines@)
    }
}

impl InboundQueue {
    /// A queue in which nothing waits.
    pub fn new() -> (queue: InboundQueue)
        ensures
            queue@ == Seq::<Seq<char>>::empty(),
    {
        InboundQueue { lines: VecDeque::new() }
    }

    /// Puts `line` behind all that wait.
    pub fn push(&mut self, line: String)
        ensures
            final(self)@ == old(self)@.push(line@),
    {
        self.lines.push_back(line);
    }

    /// Takes the line that has waited longest, if any waits.
    pub fn pop(&mut self) -> (line: Option<String>)
        ensures
            line is Some <==> old(self)@.len() > 0,
            line matches Some(text) ==> text@ == old(self)@.first() && final(self)@ == old(
                self,
            )@.drop_first(),
            line is None ==> final(self)@ == old(self)@,
    {
        self.lines.pop_front()
    }

    /// The number of lines that wait.
    pub fn len(&self) -> (count: usize)
        ensures
            count == self@.len(),
    {
        self.lines.len()
    }

    /// Whether no line waits.
    pub fn is_empty(&self) -> (empty: bool)
        ensures
            empty == (self@.len() == 0),
    {
        self.lines.len() == 0
    }
}

} // verus!
