use spamwatch::record::{
    EscalationOutcome, SimilarityVerdict, UserSpam, ACTIVITY_TIMEOUT_MS, MAX_MESSAGE_COUNTER,
    MAX_STRIKE_COUNT,
};

#[test]
fn new_record_is_blank() {
    let user = UserSpam::new(1234);
    assert_eq!(user.last_message(), 1234);
    assert_eq!(user.message_count(), 0);
    assert_eq!(user.strike_count(), 0);
    assert_eq!(user.actioned_strike_count(), 0);
    assert!(user.recent_messages().is_empty());
    assert_eq!(ACTIVITY_TIMEOUT_MS, 18_000);
    assert_eq!(MAX_MESSAGE_COUNTER, 5);
    assert_eq!(MAX_STRIKE_COUNT, 5);
}

#[test]
fn five_identical_messages_flood() {
    let mut user = UserSpam::new(0);
    for i in 0..4u64 {
        assert_eq!(user.observe("buy cheap gold now", 1000 * i), None);
    }
    assert_eq!(user.observe("buy cheap gold now", 4000), Some(SimilarityVerdict::Flood));
    assert_eq!(user.message_count(), 5);
    assert_eq!(user.last_message(), 4000);
}

#[test]
fn five_unrelated_messages_do_not_flood() {
    let mut user = UserSpam::new(0);
    let texts = ["aaaa", "bbbbbb", "cc cc", "dddddddd", "eee"];
    for (i, text) in texts.iter().enumerate() {
        assert_eq!(user.observe(text, 500 * i as u64), None);
    }
    assert_eq!(user.message_count(), 5);
    assert_eq!(user.observe("ffff", 3000), None);
    assert_eq!(user.message_count(), 6);
}

#[test]
fn near_duplicates_flood() {
    let mut user = UserSpam::new(0);
    let texts = [
        "buy cheap gold now",
        "buy cheap gold now!",
        "buy cheap gold now!!",
        "buy cheep gold now",
    ];
    for text in texts {
        assert_eq!(user.observe(text, 10), None);
    }
    assert_eq!(user.observe("buy cheap gold noww", 20), Some(SimilarityVerdict::Flood));
}

#[test]
fn the_average_is_taken_over_the_four_comparisons() {
    let mut user = UserSpam::new(0);
    for text in ["aaaa", "aaaa", "aaaa", "bbbb"] {
        assert_eq!(user.observe(text, 0), None);
    }
    assert_eq!(user.observe("cccc", 0), Some(SimilarityVerdict::Flood));

    let mut other = UserSpam::new(0);
    for text in ["aaaa", "aaaa", "bbbb", "cccc"] {
        assert_eq!(other.observe(text, 0), None);
    }
    assert_eq!(other.observe("dddd", 0), None);
}

#[test]
fn the_oldest_message_is_the_anchor() {
    let mut user = UserSpam::new(0);
    for text in ["zzzz", "aaaa", "bbbb", "cccc", "dddd"] {
        assert_eq!(user.observe(text, 0), None);
    }
    // The window becomes aaaa bbbb cccc dddd aaaa: one match in four.
    assert_eq!(user.observe("aaaa", 0), None);
    assert_eq!(user.recent_messages(), vec!["aaaa", "bbbb", "cccc", "dddd", "aaaa"]);

    let mut other = UserSpam::new(0);
    for text in ["xxxx", "cccc", "dddd", "cccc", "cccc"] {
        assert_eq!(other.observe(text, 0), None);
    }
    // The window becomes cccc dddd cccc cccc eeee: two matches in four.
    assert_eq!(other.observe("eeee", 0), Some(SimilarityVerdict::Flood));
}

#[test]
fn a_long_pause_restarts_the_count() {
    let mut user = UserSpam::new(0);
    for i in 0..4u64 {
        assert_eq!(user.observe("same text", 1000 * i), None);
    }
    assert_eq!(user.message_count(), 4);
    assert_eq!(user.observe("same text", 3000 + 19_000), None);
    assert_eq!(user.message_count(), 1);
    assert_eq!(user.last_message(), 22_000);
    assert_eq!(user.recent_messages().len(), 5);
}

#[test]
fn a_pause_of_exactly_the_timeout_keeps_the_count() {
    let mut user = UserSpam::new(0);
    for i in 0..4u64 {
        assert_eq!(user.observe("same text", 1000 * i), None);
    }
    assert_eq!(user.observe("same text", 3000 + 18_000), Some(SimilarityVerdict::Flood));
    assert_eq!(user.message_count(), 5);

    let mut late = UserSpam::new(0);
    for i in 0..4u64 {
        assert_eq!(late.observe("same text", 1000 * i), None);
    }
    assert_eq!(late.observe("same text", 3000 + 18_001), None);
    assert_eq!(late.message_count(), 1);
}

#[test]
fn a_clock_that_steps_back_counts_as_no_pause() {
    let mut user = UserSpam::new(50_000);
    assert_eq!(user.observe("a", 10), None);
    assert_eq!(user.message_count(), 1);
    assert_eq!(user.last_message(), 10);
}

#[test]
fn the_window_keeps_the_last_five_messages() {
    let mut user = UserSpam::new(0);
    for text in ["m1", "m2", "m3"] {
        user.observe(text, 0);
    }
    assert_eq!(user.recent_messages(), vec!["m1", "m2", "m3"]);
    for text in ["m4", "m5", "m6", "m7"] {
        user.observe(text, 0);
    }
    assert_eq!(user.recent_messages(), vec!["m3", "m4", "m5", "m6", "m7"]);
    assert_eq!(user.message_count(), 7);
}

#[test]
fn reset_window_empties_the_window() {
    let mut user = UserSpam::new(0);
    for _ in 0..5 {
        user.observe("again", 7);
    }
    user.record_token_violation();
    user.reset_window();
    assert_eq!(user.message_count(), 0);
    assert!(user.recent_messages().is_empty());
    assert_eq!(user.last_message(), 7);
    assert_eq!(user.strike_count(), 1);
    for _ in 0..4 {
        assert_eq!(user.observe("again", 8), None);
    }
    assert_eq!(user.observe("again", 8), Some(SimilarityVerdict::Flood));
}

#[test]
fn strikes_escalate_with_longer_timeouts() {
    let mut user = UserSpam::new(0);
    for n in 1..=5u32 {
        assert_eq!(user.record_token_violation(), EscalationOutcome::Warned);
        assert_eq!(user.strike_count(), n);
        assert_eq!(user.actioned_strike_count(), 0);
    }
    assert_eq!(
        user.record_token_violation(),
        EscalationOutcome::Escalated { timeout_seconds: 120 }
    );
    assert_eq!(user.strike_count(), 0);
    assert_eq!(user.actioned_strike_count(), 1);
    for _ in 0..5 {
        assert_eq!(user.record_token_violation(), EscalationOutcome::Warned);
    }
    assert_eq!(
        user.record_token_violation(),
        EscalationOutcome::Escalated { timeout_seconds: 180 }
    );
    assert_eq!(user.actioned_strike_count(), 2);
    for _ in 0..5 {
        assert_eq!(user.record_token_violation(), EscalationOutcome::Warned);
    }
    assert_eq!(
        user.record_token_violation(),
        EscalationOutcome::Escalated { timeout_seconds: 240 }
    );
    assert_eq!(user.strike_count(), 0);
    assert_eq!(user.actioned_strike_count(), 3);
}

#[test]
fn violations_leave_the_window_alone() {
    let mut user = UserSpam::new(3);
    user.observe("one", 5);
    user.record_token_violation();
    assert_eq!(user.message_count(), 1);
    assert_eq!(user.last_message(), 5);
    assert_eq!(user.recent_messages(), vec!["one"]);
}
