use tcp_chatroom::broadcast::{Broadcast, Delivery};
use tcp_chatroom::handshake::{parse_handshake, HandshakeFailure};
use tcp_chatroom::message::Message;
use tcp_chatroom::queue::InboundQueue;
use tcp_chatroom::relay::{writer_step, Relay, WriterStep};

const GOOD: &[u8] = b"Hello:GoToGroup\n\0";

fn line_of(sender: &str, text: &str) -> String {
    Message {
        sender: sender.to_string(),
        send_time: "2024-01-01T00:00:00Z".to_string(),
        message: text.to_string(),
    }
    .to_line()
    .expect("text can be written")
}

fn drain(relay: &mut Relay) -> usize {
    let mut published = 0;
    while relay.relay_next() {
        published += 1;
    }
    published
}

fn line(text: &str) -> Delivery {
    Delivery::Line(text.to_string())
}

#[test]
fn connection_with_token_becomes_a_subscriber() {
    let mut relay = Relay::new(1024);
    let id = relay.connect(GOOD).expect("token is right");
    assert!(relay.is_subscribed(id));
    assert_eq!(relay.receive(id), Delivery::Empty);
}

#[test]
fn connection_with_wrong_token_is_closed() {
    let mut relay = Relay::new(1024);
    assert_eq!(relay.connect(b"Hello:Nope\n\0"), Err(HandshakeFailure::Unauthorized));
    assert!(!relay.is_subscribed(0));
    assert_eq!(relay.receive(0), Delivery::Gone);

    let headers = parse_handshake(b"Hello:Nope\n\0").expect("frame is complete");
    assert_eq!(relay.join(&headers), None);
    assert!(!relay.is_subscribed(0));
}

#[test]
fn connection_closed_before_nul_is_dropped() {
    let mut relay = Relay::new(1024);
    assert_eq!(relay.connect(b"Hello:GoToGroup\n"), Err(HandshakeFailure::Unterminated));
    assert!(!relay.is_subscribed(0));
}

#[test]
fn join_takes_parsed_headers() {
    let mut relay = Relay::new(4);
    let headers = parse_handshake(b"NoColonHere\nHello:GoToGroup\n\0").expect("complete");
    assert_eq!(relay.join(&headers), Some(0));
    assert_eq!(relay.join(&headers), Some(1));
    assert!(relay.is_subscribed(0));
    assert!(relay.is_subscribed(1));
    assert!(!relay.is_subscribed(2));
}

#[test]
fn message_from_one_connection_reaches_another_unchanged() {
    let mut relay = Relay::new(1024);
    let alice = relay.connect(GOOD).expect("token is right");
    let bob = relay.connect(GOOD).expect("token is right");
    assert_ne!(alice, bob);

    let sent = Message {
        sender: "Alice".to_string(),
        send_time: "2024-01-01T00:00:00Z".to_string(),
        message: "hi".to_string(),
    };
    let raw = sent.to_line().expect("text can be written");
    assert!(relay.accept_line(raw.clone()));
    assert_eq!(relay.queued(), 1);
    assert!(relay.relay_next());
    assert_eq!(relay.queued(), 0);

    match relay.receive(bob) {
        Delivery::Line(got) => {
            assert_eq!(got, raw);
            assert_eq!(Message::from_line(&got), Some(sent));
        }
        other => panic!("expected a line, got {:?}", other),
    }
    assert_eq!(relay.receive(bob), Delivery::Empty);
}

#[test]
fn raw_line_is_relayed_not_a_copy_written_anew() {
    let mut relay = Relay::new(8);
    let id = relay.connect(GOOD).expect("token is right");
    let raw = " { \"message\" : \"hi\", \"sender\":\"A\",  \"send_time\":\"t\", \"more\": 1 } ";
    assert!(relay.accept_line(raw.to_string()));
    assert!(relay.relay_next());
    assert_eq!(relay.receive(id), line(raw));
}

#[test]
fn line_that_is_no_record_reaches_nobody() {
    let mut relay = Relay::new(1024);
    let sender = relay.connect(GOOD).expect("token is right");
    let other = relay.connect(GOOD).expect("token is right");

    assert!(!relay.accept_line("not a valid record".to_string()));
    assert_eq!(relay.queued(), 0);
    assert!(!relay.relay_next());
    assert_eq!(relay.receive(sender), Delivery::Empty);
    assert_eq!(relay.receive(other), Delivery::Empty);

    let valid = line_of("Alice", "still here");
    assert!(relay.accept_line(valid.clone()));
    assert_eq!(drain(&mut relay), 1);
    assert_eq!(relay.receive(sender), line(&valid));
    assert_eq!(relay.receive(other), line(&valid));
    assert_eq!(relay.receive(sender), Delivery::Empty);
    assert_eq!(relay.receive(other), Delivery::Empty);
}

#[test]
fn every_subscriber_gets_the_message_exactly_once() {
    for count in 2..6usize {
        let mut relay = Relay::new(1024);
        let mut ids = Vec::new();
        for _ in 0..count {
            ids.push(relay.connect(GOOD).expect("token is right"));
        }
        let raw = line_of("first", "to all");
        assert!(relay.accept_line(raw.clone()));
        assert_eq!(drain(&mut relay), 1);
        for id in &ids {
            assert_eq!(relay.receive(*id), line(&raw));
            assert_eq!(relay.receive(*id), Delivery::Empty);
        }
    }
}

#[test]
fn messages_arrive_in_the_order_of_acceptance() {
    let mut relay = Relay::new(1024);
    let a = relay.connect(GOOD).expect("token is right");
    let b = relay.connect(GOOD).expect("token is right");
    let lines: Vec<String> = (0..5).map(|n| line_of("a", &format!("m{}", n))).collect();
    for raw in &lines {
        assert!(relay.accept_line(raw.clone()));
    }
    assert_eq!(relay.queued(), 5);
    assert_eq!(drain(&mut relay), 5);
    for id in [a, b] {
        for raw in &lines {
            assert_eq!(relay.receive(id), line(raw));
        }
        assert_eq!(relay.receive(id), Delivery::Empty);
    }
}

#[test]
fn late_subscriber_gets_nothing_published_before_it_joined() {
    let mut relay = Relay::new(1024);
    let early = relay.connect(GOOD).expect("token is right");
    let before = line_of("early", "M");
    assert!(relay.accept_line(before.clone()));
    assert_eq!(drain(&mut relay), 1);

    let late = relay.connect(GOOD).expect("token is right");
    assert_eq!(relay.receive(late), Delivery::Empty);

    let after = line_of("early", "N");
    let later = line_of("late", "O");
    assert!(relay.accept_line(after.clone()));
    assert!(relay.accept_line(later.clone()));
    assert_eq!(drain(&mut relay), 2);

    assert_eq!(relay.receive(late), line(&after));
    assert_eq!(relay.receive(late), line(&later));
    assert_eq!(relay.receive(late), Delivery::Empty);

    assert_eq!(relay.receive(early), line(&before));
    assert_eq!(relay.receive(early), line(&after));
    assert_eq!(relay.receive(early), line(&later));
    assert_eq!(relay.receive(early), Delivery::Empty);
}

#[test]
fn line_accepted_but_not_yet_published_reaches_who_joins_in_between() {
    let mut relay = Relay::new(8);
    let raw = line_of("x", "queued");
    assert!(relay.accept_line(raw.clone()));
    let id = relay.connect(GOOD).expect("token is right");
    assert_eq!(relay.receive(id), Delivery::Empty);
    assert!(relay.relay_next());
    assert_eq!(relay.receive(id), line(&raw));
}

#[test]
fn publishing_without_subscribers_is_harmless() {
    let mut relay = Relay::new(2);
    assert!(relay.accept_line(line_of("x", "nobody hears")));
    assert!(relay.relay_next());
    assert!(!relay.relay_next());
    let id = relay.connect(GOOD).expect("token is right");
    assert_eq!(relay.receive(id), Delivery::Empty);
}

#[test]
fn subscriber_that_falls_behind_loses_its_oldest_lines_only() {
    let mut relay = Relay::new(2);
    let slow = relay.connect(GOOD).expect("token is right");
    let fast = relay.connect(GOOD).expect("token is right");
    let lines: Vec<String> = (0..5).map(|n| line_of("a", &format!("m{}", n))).collect();
    for raw in &lines {
        assert!(relay.accept_line(raw.clone()));
        assert!(relay.relay_next());
        assert_eq!(relay.receive(fast), line(raw));
    }
    assert_eq!(relay.receive(fast), Delivery::Empty);

    assert_eq!(relay.receive(slow), Delivery::Lagged(3));
    assert_eq!(relay.receive(slow), line(&lines[3]));
    assert_eq!(relay.receive(slow), line(&lines[4]));
    assert_eq!(relay.receive(slow), Delivery::Empty);
}

#[test]
fn subscriber_that_left_is_gone_and_its_id_is_free() {
    let mut relay = Relay::new(4);
    let a = relay.connect(GOOD).expect("token is right");
    let b = relay.connect(GOOD).expect("token is right");
    let c = relay.connect(GOOD).expect("token is right");
    assert_eq!((a, b, c), (0, 1, 2));

    assert!(relay.accept_line(line_of("a", "one")));
    assert!(relay.relay_next());
    assert!(relay.leave(b));
    assert!(!relay.leave(b));
    assert!(!relay.leave(17));
    assert!(!relay.is_subscribed(b));
    assert_eq!(relay.receive(b), Delivery::Gone);
    assert_eq!(relay.receive(17), Delivery::Gone);

    let again = relay.connect(GOOD).expect("token is right");
    assert_eq!(again, b);
    assert_eq!(relay.receive(again), Delivery::Empty);
    assert_eq!(relay.receive(a), line(&line_of("a", "one")));
    assert_eq!(relay.receive(c), line(&line_of("a", "one")));
}

#[test]
fn broadcast_delivers_and_counts_what_is_missed() {
    let mut channel = Broadcast::new(1);
    assert_eq!(channel.capacity(), 1);
    let id = channel.subscribe();
    assert!(channel.is_subscribed(id));
    channel.publish("a");
    assert_eq!(channel.receive(id), line("a"));
    channel.publish("b");
    channel.publish("c");
    channel.publish("d");
    assert_eq!(channel.receive(id), Delivery::Lagged(2));
    assert_eq!(channel.receive(id), line("d"));
    assert_eq!(channel.receive(id), Delivery::Empty);
    assert!(channel.unsubscribe(id));
    assert!(!channel.unsubscribe(id));
    channel.publish("e");
    assert_eq!(channel.receive(id), Delivery::Gone);
}

#[test]
fn queue_gives_lines_back_in_the_order_they_came() {
    let mut queue = InboundQueue::new();
    assert!(queue.is_empty());
    assert_eq!(queue.pop(), None);
    queue.push("one".to_string());
    queue.push("two".to_string());
    queue.push("three".to_string());
    assert_eq!(queue.len(), 3);
    assert_eq!(queue.pop(), Some("one".to_string()));
    queue.push("four".to_string());
    assert_eq!(queue.pop(), Some("two".to_string()));
    assert_eq!(queue.pop(), Some("three".to_string()));
    assert_eq!(queue.pop(), Some("four".to_string()));
    assert_eq!(queue.pop(), None);
    assert!(queue.is_empty());
}

#[test]
fn writer_sends_a_line_with_its_line_feed() {
    assert_eq!(writer_step(line("abc")), WriterStep::Send(b"abc\n".to_vec()));
    assert_eq!(writer_step(line("")), WriterStep::Send(vec![10u8]));
}

#[test]
fn writer_skips_a_lag_waits_when_idle_and_stops_when_gone() {
    assert_eq!(writer_step(Delivery::Lagged(7)), WriterStep::Skip);
    assert_eq!(writer_step(Delivery::Empty), WriterStep::Wait);
    assert_eq!(writer_step(Delivery::Gone), WriterStep::Stop);
}

#[test]
fn writer_of_a_slow_subscriber_resumes_after_the_lag() {
    let mut relay = Relay::new(1);
    let id = relay.connect(GOOD).expect("token is right");
    let first = line_of("a", "one");
    let second = line_of("a", "two");
    assert!(relay.accept_line(first));
    assert!(relay.accept_line(second.clone()));
    assert_eq!(drain(&mut relay), 2);

    assert_eq!(relay.next_step(id), WriterStep::Skip);
    let mut framed = second.into_bytes();
    framed.push(b'\n');
    assert_eq!(relay.next_step(id), WriterStep::Send(framed));
    assert_eq!(relay.next_step(id), WriterStep::Wait);
    assert!(relay.leave(id));
    assert_eq!(relay.next_step(id), WriterStep::Stop);
}
