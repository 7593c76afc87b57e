use spamwatch::engine::{check_token_spam, Action, Notice, SpamTracker, FLOOD_TIMEOUT};

const SPAM: &str = ":joy: :joy: :joy: :joy: :joy: :joy: :joy:";

fn warning() -> Vec<Action> {
    vec![Action::DeleteMessage, Action::ChannelWarning]
}

#[test]
fn an_ordinary_message_leads_to_nothing() {
    let mut tracker = SpamTracker::new();
    assert!(!tracker.knows(7));
    assert!(tracker.user(7).is_none());
    assert_eq!(tracker.handle_message(7, "hello everyone", 100), vec![]);
    assert!(tracker.knows(7));
    let user = tracker.user(7).unwrap();
    assert_eq!(user.message_count(), 1);
    assert_eq!(user.last_message(), 100);
    assert_eq!(user.recent_messages(), vec!["hello everyone"]);
    assert_eq!(tracker.handle_message(7, "", 200), vec![]);
    assert_eq!(tracker.user(7).unwrap().message_count(), 2);
}

#[test]
fn token_spam_is_deleted_and_warned() {
    let mut tracker = SpamTracker::new();
    assert_eq!(tracker.handle_message(1, SPAM, 10), warning());
    let user = tracker.user(1).unwrap();
    assert_eq!(user.strike_count(), 1);
    assert_eq!(user.last_message(), 10);
    // The similarity window does not see a message that repeats a token.
    assert_eq!(user.message_count(), 0);
    assert!(user.recent_messages().is_empty());
}

#[test]
fn token_spam_never_counts_toward_a_flood() {
    let mut tracker = SpamTracker::new();
    for i in 0..5u64 {
        assert_eq!(tracker.handle_message(1, SPAM, i), warning());
    }
    assert_eq!(tracker.user(1).unwrap().strike_count(), 5);
    assert_eq!(tracker.user(1).unwrap().message_count(), 0);
}

#[test]
fn the_sixth_violation_is_punished() {
    let mut tracker = SpamTracker::new();
    for i in 0..5u64 {
        assert_eq!(tracker.handle_message(9, SPAM, i), warning());
    }
    assert_eq!(
        tracker.handle_message(9, SPAM, 5),
        vec![
            Action::DeleteMessage,
            Action::ChannelWarning,
            Action::DirectMessage(Notice::Strikes { strikes: 5, actioned: 1, seconds: 120 }),
            Action::TimeoutUser { seconds: 120 },
        ]
    );
    assert_eq!(tracker.user(9).unwrap().strike_count(), 0);
    assert_eq!(tracker.user(9).unwrap().actioned_strike_count(), 1);
    for i in 0..5u64 {
        assert_eq!(tracker.handle_message(9, SPAM, 6 + i), warning());
    }
    assert_eq!(
        tracker.handle_message(9, SPAM, 11),
        vec![
            Action::DeleteMessage,
            Action::ChannelWarning,
            Action::DirectMessage(Notice::Strikes { strikes: 5, actioned: 2, seconds: 180 }),
            Action::TimeoutUser { seconds: 180 },
        ]
    );
}

#[test]
fn a_flood_is_timed_out_and_the_window_cleared() {
    let mut tracker = SpamTracker::new();
    for i in 0..4u64 {
        assert_eq!(tracker.handle_message(3, "free nitro here", 1000 * i), vec![]);
    }
    assert_eq!(FLOOD_TIMEOUT, 5);
    assert_eq!(
        tracker.handle_message(3, "free nitro here", 4000),
        vec![Action::DirectMessage(Notice::Flood), Action::TimeoutUser { seconds: 5 }]
    );
    let user = tracker.user(3).unwrap();
    assert_eq!(user.message_count(), 0);
    assert!(user.recent_messages().is_empty());
    assert_eq!(user.last_message(), 4000);
    for i in 0..4u64 {
        assert_eq!(tracker.handle_message(3, "free nitro here", 5000 + i), vec![]);
    }
    assert_eq!(
        tracker.handle_message(3, "free nitro here", 5004),
        vec![Action::DirectMessage(Notice::Flood), Action::TimeoutUser { seconds: 5 }]
    );
}

#[test]
fn a_late_fifth_message_is_no_flood() {
    let mut tracker = SpamTracker::new();
    for i in 0..4u64 {
        assert_eq!(tracker.handle_message(3, "free nitro here", 1000 * i), vec![]);
    }
    assert_eq!(tracker.handle_message(3, "free nitro here", 3000 + 19_000), vec![]);
    assert_eq!(tracker.user(3).unwrap().message_count(), 1);
}

#[test]
fn users_are_tracked_apart() {
    let mut tracker = SpamTracker::new();
    for i in 0..4u64 {
        assert_eq!(tracker.handle_message(1, "same", i), vec![]);
        assert_eq!(tracker.handle_message(2, "same", i), vec![]);
        assert_eq!(tracker.handle_message(1, SPAM, i), warning());
    }
    assert_eq!(tracker.user(1).unwrap().message_count(), 4);
    assert_eq!(tracker.user(1).unwrap().strike_count(), 4);
    assert_eq!(tracker.user(2).unwrap().message_count(), 4);
    assert_eq!(tracker.user(2).unwrap().strike_count(), 0);
    assert_eq!(tracker.handle_message(2, "same", 9).len(), 2);
    assert_eq!(tracker.user(1).unwrap().message_count(), 4);
}

#[test]
fn check_token_spam_leaves_ordinary_messages_alone() {
    let mut tracker = SpamTracker::new();
    assert_eq!(check_token_spam(&mut tracker, 4, "just a message", 1), None);
    assert!(!tracker.knows(4));
    assert_eq!(check_token_spam(&mut tracker, 4, SPAM, 2), Some(warning()));
    assert!(tracker.knows(4));
    assert_eq!(tracker.user(4).unwrap().strike_count(), 1);
    assert_eq!(check_token_spam(&mut tracker, 4, "just a message", 3), None);
    assert_eq!(tracker.user(4).unwrap().strike_count(), 1);
}

fn replay(events: &[(u64, &str, u64)]) -> Vec<Vec<Action>> {
    let mut tracker = SpamTracker::new();
    events.iter().map(|(user, text, now)| tracker.handle_message(*user, text, *now)).collect()
}

#[test]
fn replaying_the_same_events_gives_the_same_actions() {
    let mut events: Vec<(u64, &str, u64)> = Vec::new();
    for i in 0..6u64 {
        events.push((1, SPAM, i));
        events.push((2, "hello hello", 100 * i));
        events.push((3, "a different text each time?", 30_000 * i));
    }
    events.push((1, "word word word word word word word", 7));
    let first = replay(&events);
    let second = replay(&events);
    assert_eq!(first, second);
    assert_eq!(first.len(), 19);
    assert_eq!(first[15].len(), 4);
    assert_eq!(first[13].len(), 2);
    assert!(first[17].is_empty());
}
