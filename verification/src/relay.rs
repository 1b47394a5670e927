//! The relay: readers hand it the lines they read, it keeps the valid ones in
//! a queue, publishes them one by one, and writers ask it for what their
//! subscriber is to be sent. A connection becomes a subscriber only through a
//! handshake that carries the required token.

use crate::broadcast::{Broadcast, Delivery, Fanout, Mailbox, Received};
use crate::handshake::{
    authorized,
    handshake,
    handshake_headers,
    is_authorized,
    HandshakeFailure,
};
use crate::headers::HeaderMap;
use crate::message::{decoded, is_record, wire_bytes, wire_frame};
use crate::queue::InboundQueue;
use vstd::prelude::*;

verus! {

/// The relay's state: the lines that wait to be published, and the fan-out.
pub ghost struct Hub {
    /// The accepted lines that are not yet published, oldest first.
    pub queue: Seq<Seq<char>>,
    /// The subscribers and what waits for each.
    pub fanout: Fanout,
}

impl Hub {
    /// A relay without subscribers or lines.
    pub open spec fn new(capacity: nat) -> Hub {
        Hub { queue: Seq::empty(), fanout: Fanout::new(capacity) }
    }

    /// The state after a reader hands over `line`: a line that holds a record
    /// joins the queue as it is, any other line is dropped.
    pub open spec fn accept(self, line: Seq<char>) -> Hub {
        if decoded(line) is Some {
            Hub { queue: self.queue.push(line), ..self }
        } else {
            self
        }
    }

    /// The state after one step of the relay loop: the oldest line of the
    /// queue is published. With an empty queue nothing changes.
    pub open spec fn relay(self) -> Hub {
        if self.queue.len() > 0 {
            Hub { queue: self.queue.drop_first(), fanout: self.fanout.publish(self.queue.first()) }
        } else {
            self
        }
    }

    /// The state after the relay loop has emptied the queue.
    pub open spec fn drain(self) -> Hub
        decreases self.queue.len(),
    {
        if self.queue.len() > 0 {
            self.relay().drain()
        } else {
            self
        }
    }

    /// The state after a connection became the subscriber `id`.
    pub open spec fn join(self, id: nat) -> Hub {
        Hub { fanout: self.fanout.subscribe(id), ..self }
    }

    /// The state after the subscriber `id` left.
    pub open spec fn leave(self, id: nat) -> Hub {
        Hub { fanout: self.fanout.unsubscribe(id), ..self }
    }

    /// The state after the subscriber `id` was handed what was next for it.
    pub open spec fn take(self, id: nat) -> Hub {
        Hub { fanout: self.fanout.after_next(id), ..self }
    }

    /// Every line that waits, in the queue or for a subscriber, holds a
    /// record.
    pub open spec fn only_records(self) -> bool {
        &&& forall|at: int|
            0 <= at < self.queue.len() ==> decoded(#[trigger] self.queue[at]) is Some
        &&& forall|id: nat, at: int|
            self.fanout.mailboxes.contains_key(id) && 0 <= at
                < self.fanout.mailboxes[id].pending.len() ==> decoded(
                #[trigger] self.fanout.mailboxes[id].pending[at],
            ) is Some
    }

    /// What holds of the relay at all times: the bound on every backlog, and
    /// that nothing but records travels.
    pub open spec fn valid(self) -> bool {
        self.fanout.bounded() && self.only_records()
    }
}

/// The fan-out after each of `lines` is published, in order.
pub open spec fn publish_all(fanout: Fanout, lines: Seq<Seq<char>>) -> Fanout
    decreases lines.len(),
{
    if lines.len() == 0 {
        fanout
    } else {
        publish_all(fanout.publish(lines.first()), lines.drop_first())
    }
}

/// The mailbox after the subscriber took from it `count` times.
pub open spec fn after_taking(mailbox: Mailbox, count: nat) -> Mailbox
    decreases count,
{
    if count == 0 {
        mailbox
    } else {
        after_taking(mailbox.after_next(), (count - 1) as nat)
    }
}

/// The mailbox after each of `lines` is delivered to it, in order.
pub open spec fn deliver_all(mailbox: Mailbox, capacity: nat, lines: Seq<Seq<char>>) -> Mailbox
    decreases lines.len(),
{
    if lines.len() == 0 {
        mailbox
    } else {
        deliver_all(mailbox.deliver(capacity, lines.first()), capacity, lines.drop_first())
    }
}

/// Publishing a run of lines changes neither the bound nor who subscribes,
/// and does to each mailbox what delivering the run to it alone would do.
pub proof fn lemma_publish_all_by_mailbox(fanout: Fanout, lines: Seq<Seq<char>>)
    ensures
        publish_all(fanout, lines).capacity == fanout.capacity,
        publish_all(fanout, lines).mailboxes.dom() == fanout.mailboxes.dom(),
        forall|id: nat| #[trigger]
            fanout.mailboxes.contains_key(id) ==> publish_all(fanout, lines).mailboxes[id]
                == deliver_all(fanout.mailboxes[id], fanout.capacity, lines),
    decreases lines.len(),
{
    if lines.len() > 0 {
        let next = fanout.publish(lines.first());
        lemma_publish_all_by_mailbox(next, lines.drop_first());
        assert forall|id: nat| #[trigger] fanout.mailboxes.contains_key(id) implies publish_all(
            fanout,
            lines,
        ).mailboxes[id] == deliver_all(fanout.mailboxes[id], fanout.capacity, lines) by {
            assert(next.mailboxes.contains_key(id));
        }
    }
}

/// A mailbox with room for a whole run of lines takes them all, in order, and
/// misses nothing.
pub proof fn lemma_deliver_all_with_room(mailbox: Mailbox, capacity: nat, lines: Seq<Seq<char>>)
    requires
        mailbox.pending.len() + lines.len() <= capacity,
    ensures
        deliver_all(mailbox, capacity, lines) == (Mailbox {
            pending: mailbox.pending + lines,
            missed: mailbox.missed,
        }),
    decreases lines.len(),
{
    if lines.len() > 0 {
        let next = mailbox.deliver(capacity, lines.first());
        lemma_deliver_all_with_room(next, capacity, lines.drop_first());
        assert(next.pending + lines.drop_first() =~= mailbox.pending + lines);
    }
}

/// Emptying the queue publishes the lines that waited in it, oldest first.
pub proof fn lemma_drain_publishes_queue(hub: Hub)
    ensures
        hub.drain() == (Hub {
            queue: Seq::empty(),
            fanout: publish_all(hub.fanout, hub.queue),
        }),
    decreases hub.queue.len(),
{
    if hub.queue.len() > 0 {
        lemma_drain_publishes_queue(hub.relay());
    } else {
        assert(hub.queue =~= Seq::empty());
    }
}

/// Fan-out is complete: once a line that holds a record is accepted and the
/// relay has emptied its queue, every subscriber that had room for what
/// waited ahead of the line has it in its mailbox exactly once, behind all
/// that it had and all that waited, and has missed nothing. This holds for
/// whoever sent the line as for everybody else.
pub proof fn lemma_fan_out_reaches_all(hub: Hub, line: Seq<char>)
    requires
        decoded(line) is Some,
    ensures
        hub.accept(line).drain().queue.len() == 0,
        hub.accept(line).drain().fanout.mailboxes.dom() == hub.fanout.mailboxes.dom(),
        forall|id: nat|
            #![trigger hub.fanout.mailboxes.contains_key(id)]
            hub.fanout.mailboxes.contains_key(id) && hub.fanout.mailboxes[id].pending.len()
                + hub.queue.len() < hub.fanout.capacity ==> hub.accept(
                line,
            ).drain().fanout.mailboxes[id] == (Mailbox {
                pending: hub.fanout.mailboxes[id].pending + hub.queue.push(line),
                missed: hub.fanout.mailboxes[id].missed,
            }),
{
    let accepted = hub.accept(line);
    lemma_drain_publishes_queue(accepted);
    lemma_publish_all_by_mailbox(accepted.fanout, accepted.queue);
    assert forall|id: nat|
        #![trigger hub.fanout.mailboxes.contains_key(id)]
        hub.fanout.mailboxes.contains_key(id) && hub.fanout.mailboxes[id].pending.len()
            + hub.queue.len() < hub.fanout.capacity implies accepted.drain().fanout.mailboxes[id]
        == (Mailbox {
        pending: hub.fanout.mailboxes[id].pending + hub.queue.push(line),
        missed: hub.fanout.mailboxes[id].missed,
    }) by {
        lemma_deliver_all_with_room(
            hub.fanout.mailboxes[id],
            hub.fanout.capacity,
            accepted.queue,
        );
    }
}

/// Nothing is replayed: whatever was published before, a subscriber that
/// joins finds in its mailbox exactly the lines that are published after it
/// joined, in their order, as long as they are no more than the bound.
pub proof fn lemma_no_replay(before: Fanout, id: nat, lines: Seq<Seq<char>>)
    requires
        lines.len() <= before.capacity,
    ensures
        before.subscribe(id).mailboxes[id] == Mailbox::empty(),
        publish_all(before.subscribe(id), lines).mailboxes.contains_key(id),
        publish_all(before.subscribe(id), lines).mailboxes[id] == (Mailbox {
            pending: lines,
            missed: 0,
        }),
{
    let joined = before.subscribe(id);
    lemma_publish_all_by_mailbox(joined, lines);
    lemma_deliver_all_with_room(Mailbox::empty(), before.capacity, lines);
}

/// A subscriber that was told of no lag gets its lines one by one in the
/// order in which they were published, each once, and then nothing.
pub proof fn lemma_taking_in_order(mailbox: Mailbox, count: nat)
    requires
        mailbox.missed == 0,
        count <= mailbox.pending.len(),
    ensures
        after_taking(mailbox, count) == (Mailbox {
            pending: mailbox.pending.skip(count as int),
            missed: 0,
        }),
        count < mailbox.pending.len() ==> after_taking(mailbox, count).next() == Received::Line(
            mailbox.pending[count as int],
        ),
        count == mailbox.pending.len() ==> after_taking(mailbox, count).next() == Received::Empty,
    decreases count,
{
    if count > 0 {
        lemma_taking_in_order(mailbox.after_next(), (count - 1) as nat);
        assert(mailbox.after_next().pending.skip(count - 1) =~= mailbox.pending.skip(count as int));
    } else {
        assert(mailbox.pending.skip(0) =~= mailbox.pending);
    }
}

/// What is accepted is received, once: a subscriber that has missed nothing
/// and has room takes, after all that waited for it and all that was queued
/// ahead, the accepted line itself, and after it there is nothing.
pub proof fn lemma_accepted_line_is_received(hub: Hub, line: Seq<char>, id: nat)
    requires
        decoded(line) is Some,
        hub.fanout.mailboxes.contains_key(id),
        hub.fanout.mailboxes[id].missed == 0,
        hub.fanout.mailboxes[id].pending.len() + hub.queue.len() < hub.fanout.capacity,
    ensures
        ({
            let ahead: nat = hub.fanout.mailboxes[id].pending.len() + hub.queue.len();
            let mailbox = hub.accept(line).drain().fanout.mailboxes[id];
            &&& after_taking(mailbox, ahead).next() == Received::Line(line)
            &&& after_taking(mailbox, ahead + 1).next() == Received::Empty
        }),
{
    lemma_fan_out_reaches_all(hub, line);
    let ahead: nat = hub.fanout.mailboxes[id].pending.len() + hub.queue.len();
    let mailbox = hub.accept(line).drain().fanout.mailboxes[id];
    lemma_taking_in_order(mailbox, ahead);
    lemma_taking_in_order(mailbox, ahead + 1);
}

/// A lag is the laggard's own: what another subscriber takes, or whether it
/// leaves, changes nothing in what a publish does to this one.
pub proof fn lemma_lag_is_private(fanout: Fanout, id: nat, other: nat, line: Seq<char>)
    requires
        id != other,
        fanout.mailboxes.contains_key(id),
    ensures
        fanout.after_next(other).publish(line).mailboxes[id] == fanout.publish(line).mailboxes[id],
        fanout.unsubscribe(other).publish(line).mailboxes[id] == fanout.publish(
            line,
        ).mailboxes[id],
        fanout.publish(line).mailboxes[id] == fanout.mailboxes[id].deliver(fanout.capacity, line),
{
}

/// The bound holds: no operation lets a mailbox grow beyond it.
pub proof fn lemma_bound_is_kept(fanout: Fanout, id: nat, line: Seq<char>)
    requires
        fanout.bounded(),
    ensures
        fanout.subscribe(id).bounded(),
        fanout.unsubscribe(id).bounded(),
        fanout.publish(line).bounded(),
        fanout.after_next(id).bounded(),
{
}

/// A line that holds no record never travels: from a state in which only
/// records wait, and no backlog is over the bound, every step leads to such a
/// state again, whatever line a reader hands over.
pub proof fn lemma_valid_is_kept(hub: Hub, line: Seq<char>, id: nat)
    requires
        hub.valid(),
    ensures
        hub.accept(line).valid(),
        hub.relay().valid(),
        hub.join(id).valid(),
        hub.leave(id).valid(),
        hub.take(id).valid(),
        decoded(line) is None ==> hub.accept(line) == hub,
        hub.fanout.next(id) matches Received::Line(given) ==> decoded(given) is Some,
{
    lemma_bound_is_kept(hub.fanout, id, line);
    if hub.queue.len() > 0 {
        lemma_bound_is_kept(hub.fanout, id, hub.queue.first());
    }
}

/// One thing that happens to the relay.
pub ghost enum Event {
    /// A reader hands over a line.
    Accept(Seq<char>),
    /// The relay loop takes a step.
    Relay,
    /// A connection becomes the subscriber of this id.
    Join(nat),
    /// The subscriber of this id leaves.
    Leave(nat),
    /// The subscriber of this id is handed what is next for it.
    Take(nat),
}

impl Hub {
    /// The state after `event`.
    pub open spec fn after(self, event: Event) -> Hub {
        match event {
            Event::Accept(line) => self.accept(line),
            Event::Relay => self.relay(),
            Event::Join(id) => self.join(id),
            Event::Leave(id) => self.leave(id),
            Event::Take(id) => self.take(id),
        }
    }

    /// The state after all of `events`, in order.
    pub open spec fn after_all(self, events: Seq<Event>) -> Hub
        decreases events.len(),
    {
        if events.len() == 0 {
            self
        } else {
            self.after_all(events.drop_last()).after(events.last())
        }
    }
}

/// In every state that a relay can reach, whatever happened to it and in
/// whatever order, only records wait and no backlog is over the bound.
pub proof fn lemma_every_state_is_valid(capacity: nat, events: Seq<Event>)
    requires
        capacity > 0,
    ensures
        Hub::new(capacity).after_all(events).valid(),
    decreases events.len(),
{
    if events.len() > 0 {
        lemma_every_state_is_valid(capacity, events.drop_last());
        let reached = Hub::new(capacity).after_all(events.drop_last());
        match events.last() {
            Event::Accept(line) => lemma_valid_is_kept(reached, line, 0),
            Event::Relay => lemma_valid_is_kept(reached, Seq::empty(), 0),
            Event::Join(id) => lemma_valid_is_kept(reached, Seq::empty(), id),
            Event::Leave(id) => lemma_valid_is_kept(reached, Seq::empty(), id),
            Event::Take(id) => lemma_valid_is_kept(reached, Seq::empty(), id),
        }
    }
}

/// The lines that the relay published in the course of `events`, in order.
pub open spec fn relayed(hub: Hub, events: Seq<Event>) -> Seq<Seq<char>>
    decreases events.len(),
{
    if events.len() == 0 {
        Seq::empty()
    } else {
        let reached = hub.after_all(events.drop_last());
        let earlier = relayed(hub, events.drop_last());
        if events.last() is Relay && reached.queue.len() > 0 {
            earlier.push(reached.queue.first())
        } else {
            earlier
        }
    }
}

/// The lines that the subscriber `id` was handed in the course of `events`,
/// in order.
pub open spec fn handed(hub: Hub, events: Seq<Event>, id: nat) -> Seq<Seq<char>>
    decreases events.len(),
{
    if events.len() == 0 {
        Seq::empty()
    } else {
        let reached = hub.after_all(events.drop_last());
        let earlier = handed(hub, events.drop_last(), id);
        if events.last() == Event::Take(id) && reached.fanout.next(id) is Line {
            earlier.push(reached.fanout.next(id)->Line_0)
        } else {
            earlier
        }
    }
}

/// Nobody joins or leaves under the id `id` in the course of `events`.
pub open spec fn stays(events: Seq<Event>, id: nat) -> bool {
    forall|at: int|
        0 <= at < events.len() ==> #[trigger] events[at] != Event::Join(id) && events[at]
            != Event::Leave(id)
}

/// A subscriber gets what is published after it joined, and nothing else.
/// Whatever the relay held when the subscriber joined, and whatever happens
/// afterwards while it stays, the lines it was handed and the lines that
/// still wait for it are together exactly the lines published since it
/// joined, in their order, as long as they are no more than the bound.
pub proof fn lemma_subscriber_gets_what_follows(before: Hub, id: nat, events: Seq<Event>)
    requires
        stays(events, id),
        relayed(before.join(id), events).len() <= before.fanout.capacity,
    ensures
        ({
            let joined = before.join(id);
            let end = joined.after_all(events);
            &&& end.fanout.capacity == before.fanout.capacity
            &&& end.fanout.mailboxes.contains_key(id)
            &&& end.fanout.mailboxes[id].missed == 0
            &&& handed(joined, events, id) + end.fanout.mailboxes[id].pending == relayed(
                joined,
                events,
            )
        }),
    decreases events.len(),
{
    let joined = before.join(id);
    if events.len() == 0 {
        assert(handed(joined, events, id) + joined.fanout.mailboxes[id].pending =~= relayed(
            joined,
            events,
        ));
    } else {
        let earlier = events.drop_last();
        assert forall|at: int| 0 <= at < earlier.len() implies #[trigger] earlier[at]
            != Event::Join(id) && earlier[at] != Event::Leave(id) by {
            assert(earlier[at] == events[at]);
        }
        lemma_subscriber_gets_what_follows(before, id, earlier);
        let reached = joined.after_all(earlier);
        let end = joined.after_all(events);
        let had = reached.fanout.mailboxes[id];
        let last = events[events.len() - 1];
        assert(last == events.last());
        assert(last != Event::Join(id) && last != Event::Leave(id));
        assert(had.pending.len() <= relayed(joined, earlier).len()) by {
            assert((handed(joined, earlier, id) + had.pending).len() == handed(
                joined,
                earlier,
                id,
            ).len() + had.pending.len());
        }
        assert(handed(joined, events, id) + end.fanout.mailboxes[id].pending =~= relayed(
            joined,
            events,
        ));
    }
}

/// What a writer does with what it was handed.
pub ghost enum Step {
    /// Write these bytes, then ask again.
    Send(Seq<u8>),
    /// Lines were missed: skip over them and ask again at once.
    Skip,
    /// Nothing waits: sleep until something is published.
    Wait,
    /// The subscription is gone: end the task.
    Stop,
}

/// The writer's policy. A line is sent with its line feed behind it. A lag
/// is skipped over and is no reason to stop.
pub open spec fn step_for(received: Received) -> Step {
    match received {
        Received::Line(line) => Step::Send(wire_bytes(line)),
        Received::Lagged(_) => Step::Skip,
        Received::Empty => Step::Wait,
        Received::Gone => Step::Stop,
    }
}

/// What a writer does with what it was handed.
#[derive(Debug, PartialEq, Eq)]
pub enum WriterStep {
    /// Write these bytes, then ask again.
    Send(Vec<u8>),
    /// Lines were missed: skip over them and ask again at once.
    Skip,
    /// Nothing waits: sleep until something is published.
    Wait,
    /// The subscription is gone: end the task.
    Stop,
}

impl View for WriterStep {
    type V = Step;

    open spec fn view(&self) -> Step {
        match *self {
            WriterStep::Send(bytes) => Step::Send(bytes@),
            WriterStep::Skip => Step::Skip,
            WriterStep::Wait => Step::Wait,
            WriterStep::Stop => Step::Stop,
        }
    }
}

/// Decides what a writer does with what it was handed.
pub fn writer_step(delivery: Delivery) -> (step: WriterStep)
    ensures
        step@ == step_for(delivery@),
{
    match delivery {
        Delivery::Line(line) => WriterStep::Send(wire_frame(line.as_str())),
        Delivery::Lagged(_) => WriterStep::Skip,
        Delivery::Empty => WriterStep::Wait,
        Delivery::Gone => WriterStep::Stop,
    }
}

/// The relay of a chat room.
pub struct Relay {
    queue: InboundQueue,
    channel: Broadcast,
}

impl View for Relay {
    type V = Hub;

    closed spec fn view(&self) -> Hub {
        Hub { queue: self.queue@, fanout: self.channel@ }
    }
}

impl Relay {
    /// No backlog is longer than the bound, and only records wait.
    pub open spec fn wf(&self) -> bool {
        self@.valid()
    }

    /// A relay without subscribers, in which at most `capacity` lines wait
    /// for any one subscriber.
    pub fn new(capacity: usize) -> (relay: Relay)
        requires
            capacity > 0,
        ensures
            relay.wf(),
            relay@ == Hub::new(capacity as nat),
    {
        Relay { queue: InboundQueue::new(), channel: Broadcast::new(capacity) }
    }

    /// Makes a subscriber of a connection whose handshake gave `headers`, if
    /// they carry the required token, and returns its id, the smallest that
    /// is free. Without the token nothing changes.
    pub fn join(&mut self, headers: &HeaderMap) -> (id: Option<usize>)
        requires
            old(self).wf(),
        ensures
            final(self).wf(),
            id is Some <==> authorized(headers@),
            id matches Some(given) ==> old(self)@.fanout.is_fresh(given as nat) && final(self)@
                == old(self)@.join(given as nat),
            id is None ==> final(self)@ == old(self)@,
    {
        if is_authorized(headers) {
            let given: usize = self.channel.subscribe();
            proof {
                lemma_valid_is_kept(old(self)@, Seq::empty(), given as nat);
            }
            Some(given)
        } else {
            None
        }
    }

    /// Reads a connection's handshake and makes a subscriber of it if the
    /// frame is complete and carries the required token. Otherwise nothing
    /// changes.
    pub fn connect(&mut self, frame: &[u8]) -> (outcome: Result<usize, HandshakeFailure>)
        requires
            old(self).wf(),
        ensures
            final(self).wf(),
            match outcome {
                Ok(id) => handshake_headers(frame@) matches Some(headers) && authorized(headers)
                    && old(self)@.fanout.is_fresh(id as nat) && final(self)@ == old(self)@.join(
                    id as nat,
                ),
                Err(HandshakeFailure::Unterminated) => handshake_headers(frame@) is None
                    && final(self)@ == old(self)@,
                Err(HandshakeFailure::Unauthorized) => handshake_headers(frame@) matches Some(
                    headers,
                ) && !authorized(headers) && final(self)@ == old(self)@,
            },
    {
        match handshake(frame) {
            Ok(_) => {
                let given: usize = self.channel.subscribe();
                proof {
                    lemma_valid_is_kept(old(self)@, Seq::empty(), given as nat);
                }
                Ok(given)
            },
            Err(failure) => Err(failure),
        }
    }

    /// Ends the subscription `id`, and says whether there was one.
    pub fn leave(&mut self, id: usize) -> (left: bool)
        requires
            old(self).wf(),
        ensures
            final(self).wf(),
            left == old(self)@.fanout.mailboxes.contains_key(id as nat),
            final(self)@ == old(self)@.leave(id as nat),
    {
        proof {
            lemma_valid_is_kept(self@, Seq::empty(), id as nat);
        }
        self.channel.unsubscribe(id)
    }

    /// Takes a line that a reader read, and says whether it was accepted. A
    /// line that holds a record is queued as it came; any other is dropped.
    pub fn accept_line(&mut self, line: String) -> (accepted: bool)
        requires
            old(self).wf(),
        ensures
            final(self).wf(),
            accepted == decoded(line@) is Some,
            final(self)@ == old(self)@.accept(line@),
    {
        proof {
            lemma_valid_is_kept(self@, line@, 0);
        }
        if is_record(line.as_str()) {
            self.queue.push(line);
            true
        } else {
            false
        }
    }

    /// Publishes the oldest line of the queue, and says whether there was
    /// one.
    pub fn relay_next(&mut self) -> (published: bool)
        requires
            old(self).wf(),
        ensures
            final(self).wf(),
            published == (old(self)@.queue.len() > 0),
            final(self)@ == old(self)@.relay(),
    {
        proof {
            lemma_valid_is_kept(self@, Seq::empty(), 0);
        }
        match self.queue.pop() {
            Some(line) => {
                self.channel.publish(line.as_str());
                true
            },
            None => false,
        }
    }

    /// Hands the subscriber `id` what it is to be sent next. A line that is
    /// handed out holds a record.
    pub fn receive(&mut self, id: usize) -> (delivery: Delivery)
        requires
            old(self).wf(),
        ensures
            final(self).wf(),
            delivery@ == old(self)@.fanout.next(id as nat),
            final(self)@ == old(self)@.take(id as nat),
            delivery matches Delivery::Line(line) ==> decoded(line@) is Some,
    {
        proof {
            lemma_valid_is_kept(self@, Seq::empty(), id as nat);
        }
        self.channel.receive(id)
    }

    /// Hands the subscriber `id` what it is to be sent next, as the step its
    /// writer is to take.
    pub fn next_step(&mut self, id: usize) -> (step: WriterStep)
        requires
            old(self).wf(),
        ensures
            final(self).wf(),
            step@ == step_for(old(self)@.fanout.next(id as nat)),
            final(self)@ == old(self)@.take(id as nat),
    {
        let delivery = self.receive(id);
        writer_step(delivery)
    }

    /// The number of accepted lines that are not yet published.
    pub fn queued(&self) -> (count: usize)
        ensures
            count == self@.queue.len(),
    {
        self.queue.len()
    }

    /// Whether `id` is a subscriber.
    pub fn is_subscribed(&self, id: usize) -> (held: bool)
        ensures
            held == self@.fanout.mailboxes.contains_key(id as nat),
    {
        self.channel.is_subscribed(id)
    }
}

} // verus!
