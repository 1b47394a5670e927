use tcp_chatroom::history::{colour_of, History, COLOURS, HISTORY_LIMIT, ROWS_PER_MESSAGE};
use tcp_chatroom::message::Message;

fn numbered(number: usize) -> Message {
    Message {
        sender: "s".to_string(),
        send_time: "t".to_string(),
        message: format!("{}", number),
    }
}

#[test]
fn history_keeps_what_came_in_order() {
    let mut history = History::new();
    assert!(history.is_empty());
    assert_eq!(history.len(), 0);
    assert_eq!(history.get(0), None);
    for number in 0..3 {
        history.push(numbered(number));
    }
    assert_eq!(history.len(), 3);
    assert!(!history.is_empty());
    assert_eq!(history.get(0), Some(&numbered(0)));
    assert_eq!(history.get(2), Some(&numbered(2)));
    assert_eq!(history.get(3), None);
}

#[test]
fn history_forgets_the_oldest_beyond_its_limit() {
    assert_eq!(HISTORY_LIMIT, 50);
    let mut history = History::new();
    for number in 0..50 {
        history.push(numbered(number));
    }
    assert_eq!(history.len(), 50);
    assert_eq!(history.get(0), Some(&numbered(0)));
    history.push(numbered(50));
    assert_eq!(history.len(), 50);
    assert_eq!(history.get(0), Some(&numbered(1)));
    assert_eq!(history.get(49), Some(&numbered(50)));
    for number in 51..120 {
        history.push(numbered(number));
    }
    assert_eq!(history.len(), 50);
    assert_eq!(history.get(0), Some(&numbered(70)));
    assert_eq!(history.get(49), Some(&numbered(119)));
}

#[test]
fn as_many_of_the_last_messages_are_shown_as_fit() {
    assert_eq!(ROWS_PER_MESSAGE, 4);
    let mut history = History::new();
    assert_eq!(history.first_shown(40), 0);
    for number in 0..10 {
        history.push(numbered(number));
    }
    assert_eq!(history.first_shown(0), 10);
    assert_eq!(history.first_shown(3), 10);
    assert_eq!(history.first_shown(4), 9);
    assert_eq!(history.first_shown(11), 8);
    assert_eq!(history.first_shown(39), 1);
    assert_eq!(history.first_shown(40), 0);
    assert_eq!(history.first_shown(u16::MAX), 0);
}

#[test]
fn colours_take_turns() {
    assert_eq!(COLOURS, 4);
    assert_eq!(colour_of(0), 0);
    assert_eq!(colour_of(1), 1);
    assert_eq!(colour_of(3), 3);
    assert_eq!(colour_of(4), 0);
    assert_eq!(colour_of(49), 1);
    assert_eq!(colour_of(usize::MAX), usize::MAX % 4);
}
