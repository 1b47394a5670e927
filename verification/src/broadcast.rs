//! The fan-out: every line that is published goes to every subscriber of the
//! moment, once, in the order of publishing. Each subscriber has a backlog of
//! bounded length; one that falls behind loses its oldest lines and is told how
//! many, and nobody else is affected.

use vstd::prelude::*;
use std::collections::VecDeque;

verus! {

/// What one subscriber has yet to receive.
pub ghost struct Mailbox {
    /// The lines that wait, oldest first.
    pub pending: Seq<Seq<char>>,
    /// How many lines were dropped since the subscriber was last told.
    pub missed: nat,
}

/// What a subscriber gets when it asks for its next line.
pub ghost enum Received {
    /// The oldest line that waited.
    Line(Seq<char>),
    /// The number of lines that were dropped; the backlog is untouched.
    Lagged(nat),
    /// Nothing waits.
    Empty,
    /// The subscriber is not known.
    Gone,
}

/// The largest count of missed lines that is kept; further misses leave it.
pub open spec fn missed_limit() -> nat {
    u64::MAX as nat
}

impl Mailbox {
    /// A mailbox in which nothing waits.
    pub open spec fn empty() -> Mailbox {
        Mailbox { pending: Seq::empty(), missed: 0 }
    }

    /// The mailbox after `line` is published. With room left the line joins
    /// the backlog; otherwise the oldest line makes way for it and is counted
    /// as missed.
    pub open spec fn deliver(self, capacity: nat, line: Seq<char>) -> Mailbox {
        if self.pending.len() < capacity {
            Mailbox { pending: self.pending.push(line), missed: self.missed }
        } else {
            Mailbox {
                pending: self.pending.drop_first().push(line),
                missed: if self.missed < missed_limit() {
                    self.missed + 1
                } else {
                    self.missed
                },
            }
        }
    }

    /// What the subscriber gets next: first the news of a lag, then the
    /// oldest line.
    pub open spec fn next(self) -> Received {
        if self.missed > 0 {
            Received::Lagged(self.missed)
        } else if self.pending.len() > 0 {
            Received::Line(self.pending.first())
        } else {
            Received::Empty
        }
    }

    /// The mailbox after the subscriber got `self.next()`.
    pub open spec fn after_next(self) -> Mailbox {
        if self.missed > 0 {
            Mailbox { pending: self.pending, missed: 0 }
        } else if self.pending.len() > 0 {
            Mailbox { pending: self.pending.drop_first(), missed: 0 }
        } else {
            self
        }
    }
}

/// The texts of a run of lines.
pub open spec fn texts(lines: Seq<String>) -> Seq<Seq<char>> {
    lines.map_values(|line: String| line@)
}

/// What a subscriber gets when it asks for its next line.
#[derive(Debug, PartialEq, Eq)]
pub enum Delivery {
    /// The oldest line that waited.
    Line(String),
    /// The number of lines that were dropped; the backlog is untouched.
    Lagged(u64),
    /// Nothing waits.
    Empty,
    /// The subscriber is not known.
    Gone,
}

impl View for Delivery {
    type V = Received;

    open spec fn view(&self) -> Received {
        match *self {
            Delivery::Line(line) => Received::Line(line@),
            Delivery::Lagged(missed) => Received::Lagged(missed as nat),
            Delivery::Empty => Received::Empty,
            Delivery::Gone => Received::Gone,
        }
    }
}

/// The fan-out as a whole: its bound, and the mailbox of each subscriber.
pub ghost struct Fanout {
    /// The most lines that may wait for one subscriber.
    pub capacity: nat,
    /// The mailbox of each subscriber, by its id.
    pub mailboxes: Map<nat, Mailbox>,
}

impl Fanout {
    /// A fan-out without subscribers.
    pub open spec fn new(capacity: nat) -> Fanout {
        Fanout { capacity, mailboxes: Map::empty() }
    }

    /// The bound is positive and no mailbox holds more than it allows.
    pub open spec fn bounded(self) -> bool {
        &&& self.capacity > 0
        &&& forall|id: nat| #[trigger]
            self.mailboxes.contains_key(id) ==> self.mailboxes[id].pending.len() <= self.capacity
    }

    /// `id` is the smallest id that no subscriber has.
    pub open spec fn is_fresh(self, id: nat) -> bool {
        &&& !self.mailboxes.contains_key(id)
        &&& forall|other: nat| other < id ==> #[trigger] self.mailboxes.contains_key(other)
    }

    /// The fan-out with one more subscriber, whose mailbox is empty.
    pub open spec fn subscribe(self, id: nat) -> Fanout {
        Fanout { mailboxes: self.mailboxes.insert(id, Mailbox::empty()), ..self }
    }

    /// The fan-out without the subscriber `id`.
    pub open spec fn unsubscribe(self, id: nat) -> Fanout {
        Fanout { mailboxes: self.mailboxes.remove(id), ..self }
    }

    /// The fan-out after `line` is published: it is delivered to every
    /// mailbox.
    pub open spec fn publish(self, line: Seq<char>) -> Fanout {
        Fanout {
            mailboxes: self.mailboxes.map_values(
                |mailbox: Mailbox| mailbox.deliver(self.capacity, line),
            ),
            ..self
        }
    }

    /// What the subscriber `id` gets next.
    pub open spec fn next(self, id: nat) -> Received {
        if self.mailboxes.contains_key(id) {
            self.mailboxes[id].next()
        } else {
            Received::Gone
        }
    }

    /// The fan-out after the subscriber `id` got `self.next(id)`.
    pub open spec fn after_next(self, id: nat) -> Fanout {
        if self.mailboxes.contains_key(id) {
            Fanout { mailboxes: self.mailboxes.insert(id, self.mailboxes[id].after_next()), ..self }
        } else {
            self
        }
    }
}

/// The backlog of one subscriber.
struct Backlog {
    pending: VecDeque<String>,
    missed: u64,
}

impl View for Backlog {
    type V = Mailbox;

    closed spec fn view(&self) -> Mailbox {
        Mailbox { pending: texts(self.pending@), missed: self.missed as nat }
    }
}

impl Backlog {
    fn new() -> (backlog: Backlog)
        ensures
            backlog@ == Mailbox::empty(),
    {
        let backlog = Backlog { pending: VecDeque::new(), missed: 0 };
        assert(backlog@.pending =~= Seq::empty());
        backlog
    }

    fn deliver(&mut self, capacity: usize, line: String)
        requires
            capacity > 0,
        ensures
            final(self)@ == old(self)@.deliver(capacity as nat, line@),
    {
        if self.pending.len() >= capacity {
            self.pending.pop_front();
            if self.missed < u64::MAX {
                self.missed = self.missed + 1;
            }
        }
        self.pending.push_back(line);
        assert(self@.pending =~= old(self)@.deliver(capacity as nat, line@).pending);
    }

    fn take(&mut self) -> (delivery: Delivery)
        ensures
            delivery@ == old(self)@.next(),
            final(self)@ == old(self)@.after_next(),
    {
        if self.missed > 0 {
            let missed: u64 = self.missed;
            self.missed = 0;
            return Delivery::Lagged(missed);
        }
        match self.pending.pop_front() {
            Some(line) => {
                assert(self@.pending =~= old(self)@.pending.drop_first());
                Delivery::Line(line)
            },
            None => Delivery::Empty,
        }
    }
}

/// The mailbox that a slot stands for, if a subscriber holds the slot.
spec fn mailbox_of(slot: Option<Backlog>) -> Option<Mailbox> {
    match slot {
        Some(backlog) => Some(backlog@),
        None => None,
    }
}

/// The fan-out that a run of slots stands for: a subscriber's id is the
/// position of its slot.
spec fn fanout_of(capacity: usize, slots: Seq<Option<Backlog>>) -> Fanout {
    Fanout {
        capacity: capacity as nat,
        mailboxes: Map::new(
            |id: nat| id < slots.len() && slots[id as int] is Some,
            |id: nat| slots[id as int]->0@,
        ),
    }
}

/// The publish/subscribe channel between the relay and the writers.
pub struct Broadcast {
    capacity: usize,
    slots: Vec<Option<Backlog>>,
}

impl View for Broadcast {
    type V = Fanout;

    closed spec fn view(&self) -> Fanout {
        fanout_of(self.capacity, self.slots@)
    }
}

impl Broadcast {
    /// The channel keeps its bound.
    pub open spec fn wf(&self) -> bool {
        self@.bounded()
    }

    /// A channel without subscribers, in which at most `capacity` lines wait
    /// for any one of them.
    pub fn new(capacity: usize) -> (channel: Broadcast)
        requires
            capacity > 0,
        ensures
            channel.wf(),
            channel@ == Fanout::new(capacity as nat),
    {
        let channel = Broadcast { capacity, slots: Vec::new() };
        assert(channel@.mailboxes =~= Map::empty());
        channel
    }

    /// The most lines that may wait for one subscriber.
    pub fn capacity(&self) -> (capacity: usize)
        ensures
            capacity == self@.capacity,
    {
        self.capacity
    }

    /// Whether `id` is a subscriber.
    pub fn is_subscribed(&self, id: usize) -> (held: bool)
        ensures
            held == self@.mailboxes.contains_key(id as nat),
    {
        id < self.slots.len() && self.slots[id].is_some()
    }

    /// Adds a subscriber and returns its id, the smallest that is free. The
    /// new subscriber's mailbox is empty: nothing published before reaches it.
    pub fn subscribe(&mut self) -> (id: usize)
        requires
            old(self).wf(),
        ensures
            final(self).wf(),
            old(self)@.is_fresh(id as nat),
            final(self)@ == old(self)@.subscribe(id as nat),
    {
        let mut at: usize = 0;
        while at < self.slots.len() && self.slots[at].is_some()
            invariant
                at <= self.slots.len(),
                *self == *old(self),
                forall|other: int| 0 <= other < at ==> self.slots[other] is Some,
            decreases self.slots.len() - at,
        {
            at += 1;
        }
        if at < self.slots.len() {
            self.slots.set(at, Some(Backlog::new()));
        } else {
            self.slots.push(Some(Backlog::new()));
        }
        assert(self@.mailboxes =~= old(self)@.subscribe(at as nat).mailboxes);
        at
    }

    /// Removes the subscriber `id` and says whether there was one.
    pub fn unsubscribe(&mut self, id: usize) -> (removed: bool)
        requires
            old(self).wf(),
        ensures
            final(self).wf(),
            removed == old(self)@.mailboxes.contains_key(id as nat),
            final(self)@ == old(self)@.unsubscribe(id as nat),
    {
        if id < self.slots.len() && self.slots[id].is_some() {
            self.slots.set(id, None);
            assert(self@.mailboxes =~= old(self)@.unsubscribe(id as nat).mailboxes);
            true
        } else {
            assert(self@.mailboxes =~= old(self)@.unsubscribe(id as nat).mailboxes);
            false
        }
    }

    /// Publishes `line` to every subscriber.
    pub fn publish(&mut self, line: &str)
        requires
            old(self).wf(),
        ensures
            final(self).wf(),
            final(self)@ == old(self)@.publish(line@),
    {
        let capacity: usize = self.capacity;
        let mut at: usize = 0;
        while at < self.slots.len()
            invariant
                at <= self.slots.len(),
                capacity == self.capacity == old(self).capacity,
                capacity > 0,
                self.slots.len() == old(self).slots.len(),
                old(self).wf(),
                forall|id: int|
                    0 <= id < at ==> mailbox_of(#[trigger] self.slots[id]) == match mailbox_of(
                        old(self).slots[id],
                    ) {
                        Some(mailbox) => Some(mailbox.deliver(capacity as nat, line@)),
                        None => None,
                    },
                forall|id: int| at <= id < self.slots.len() ==> self.slots[id] == old(self).slots[id],
            decreases self.slots.len() - at,
        {
            match &mut self.slots[at] {
                Some(backlog) => {
                    backlog.deliver(capacity, line.to_owned());
                },
                None => {},
            }
            at += 1;
        }
        assert(self@.mailboxes =~= old(self)@.publish(line@).mailboxes);
    }

    /// Hands the subscriber `id` what it gets next.
    pub fn receive(&mut self, id: usize) -> (delivery: Delivery)
        requires
            old(self).wf(),
        ensures
            final(self).wf(),
            delivery@ == old(self)@.next(id as nat),
            final(self)@ == old(self)@.after_next(id as nat),
    {
        if id >= self.slots.len() {
            return Delivery::Gone;
        }
        let delivery = match &mut self.slots[id] {
            Some(backlog) => backlog.take(),
            None => Delivery::Gone,
        };
        assert(self@.mailboxes =~= old(self)@.after_next(id as nat).mailboxes);
        delivery
    }
}

} // verus!
