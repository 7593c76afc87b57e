//! The decision engine: one record per user, and for each message the
//! moderation actions that follow from it.

use std::collections::HashMap;
use vstd::prelude::*;
use vstd::std_specs::hash::*;
use crate::record::{
    bumped, cleared, escalation, floods, fresh, observed, record_wf, struck, EscalationOutcome,
    Record, SimilarityVerdict, UserSpam,
};
use crate::tokens::{has_repeated_words, repeats_token};

verus! {

broadcast use vstd::std_specs::hash::group_hash_axioms;

/// Seconds of timeout after a flood of near-duplicate messages.
pub const FLOOD_TIMEOUT: u64 = 5;

/// Why a user is written to directly.
#[derive(Clone, Copy, Debug, PartialEq, Eq, Structural)]
pub enum Notice {
    /// Token repetition was punished: the strikes that led to it, the
    /// number of punishments so far, and the seconds of this timeout.
    Strikes { strikes: u32, actioned: u32, seconds: u64 },
    /// A flood of near-duplicate messages was punished.
    Flood,
}

/// Something for the chat platform to carry out.
#[derive(Clone, Copy, Debug, PartialEq, Eq, Structural)]
pub enum Action {
    /// Delete the message that was classified.
    DeleteMessage,
    /// Tell the channel that emote spam is to stop.
    ChannelWarning,
    /// Write to the user.
    DirectMessage(Notice),
    /// Restrict the user for this many seconds.
    TimeoutUser { seconds: u64 },
}

/// The record kept for a user, or that of a user first seen at `now`.
pub open spec fn record_of(records: Map<u64, Record>, user_id: u64, now: u64) -> Record {
    if records.contains_key(user_id) {
        records[user_id]
    } else {
        fresh(now)
    }
}

/// The actions that follow a message with a repeated token: it is deleted
/// and the channel warned; a punishment adds a notice and the timeout.
pub open spec fn token_actions(r: Record) -> Seq<Action> {
    match escalation(r) {
        EscalationOutcome::Escalated { timeout_seconds } => seq![
            Action::DeleteMessage,
            Action::ChannelWarning,
            Action::DirectMessage(
                Notice::Strikes {
                    strikes: r.strike_count,
                    actioned: bumped(r.actioned_strike_count),
                    seconds: timeout_seconds,
                },
            ),
            Action::TimeoutUser { seconds: timeout_seconds },
        ],
        EscalationOutcome::Warned => seq![Action::DeleteMessage, Action::ChannelWarning],
    }
}

/// The actions that follow a flood.
pub open spec fn flood_actions() -> Seq<Action> {
    seq![Action::DirectMessage(Notice::Flood), Action::TimeoutUser { seconds: FLOOD_TIMEOUT }]
}

/// The record of a user after one message. A message with a repeated token
/// is a violation and is not observed by the similarity window; any other
/// message is observed, and a flood empties the window.
pub open spec fn after_message(r: Record, text: Seq<char>, now: u64) -> Record {
    if repeats_token(text) {
        struck(r)
    } else if floods(observed(r, text, now)) {
        cleared(observed(r, text, now))
    } else {
        observed(r, text, now)
    }
}

/// The actions that one message of a user in state `r` leads to.
pub open spec fn message_actions(r: Record, text: Seq<char>, now: u64) -> Seq<Action> {
    if repeats_token(text) {
        token_actions(r)
    } else if floods(observed(r, text, now)) {
        flood_actions()
    } else {
        Seq::empty()
    }
}

/// The records of all users seen so far.
pub struct SpamTracker {
    users: HashMap<u64, UserSpam>,
}

impl View for SpamTracker {
    type V = Map<u64, Record>;

    closed spec fn view(&self) -> Map<u64, Record> {
        Map::new(|k: u64| self.users@.contains_key(k), |k: u64| self.users@[k]@)
    }
}

impl SpamTracker {
    /// Every record kept is well formed.
    pub open spec fn wf(&self) -> bool {
        forall|k: u64| #[trigger] self@.contains_key(k) ==> record_wf(self@[k])
    }

    /// A tracker that has seen no user.
    pub fn new() -> (tracker: SpamTracker)
        ensures
            tracker@ == Map::<u64, Record>::empty(),
            tracker.wf(),
    {
        let tracker = SpamTracker { users: HashMap::new() };
        assert(tracker@ =~= Map::<u64, Record>::empty());
        tracker
    }

    /// Takes the user's record out of the map, or makes a new one.
    fn take(&mut self, user_id: u64, now: u64) -> (user: UserSpam)
        requires
            old(self).wf(),
        ensures
            user@ == record_of(old(self)@, user_id, now),
            user.wf(),
            final(self)@ == old(self)@.remove(user_id),
            final(self).wf(),
    {
        assert(old(self)@.contains_key(user_id) ==> record_wf(old(self)@[user_id]));
        let user = match self.users.remove(&user_id) {
            Some(user) => user,
            None => UserSpam::new(now),
        };
        assert(self@ =~= old(self)@.remove(user_id));
        assert forall|k: u64| #[trigger] self@.contains_key(k) implies record_wf(self@[k]) by {
            assert(old(self)@.contains_key(k));
        }
        user
    }

    /// Puts a user's record into the map.
    fn put(&mut self, user_id: u64, user: UserSpam)
        requires
            old(self).wf(),
            user.wf(),
        ensures
            final(self)@ == old(self)@.insert(user_id, user@),
            final(self).wf(),
    {
        self.users.insert(user_id, user);
        assert(self@ =~= old(self)@.insert(user_id, user@));
        assert forall|k: u64| #[trigger] self@.contains_key(k) implies record_wf(self@[k]) by {
            if k != user_id {
                assert(old(self)@.contains_key(k));
            }
        }
    }

    /// Whether a record is kept for this user.
    pub fn knows(&self, user_id: u64) -> (known: bool)
        ensures
            known == self@.contains_key(user_id),
    {
        self.users.contains_key(&user_id)
    }

    /// The record kept for this user, if any.
    pub fn user(&self, user_id: u64) -> (user: Option<&UserSpam>)
        ensures
            user.is_some() == self@.contains_key(user_id),
            user.is_some() ==> user.unwrap()@ == self@[user_id],
    {
        self.users.get(&user_id)
    }

    /// Classifies one message of a user and returns the actions to carry
    /// out, in order. Both the actions and the user's new record are fixed
    /// by the user's record before, the text and the time: the same events
    /// on the same tracker always give the same actions.
    pub fn handle_message(&mut self, user_id: u64, text: &str, now: u64) -> (actions: Vec<Action>)
        requires
            old(self).wf(),
        ensures
            final(self).wf(),
            actions@ == message_actions(record_of(old(self)@, user_id, now), text@, now),
            final(self)@ == old(self)@.insert(
                user_id,
                after_message(record_of(old(self)@, user_id, now), text@, now),
            ),
    {
        match check_token_spam(self, user_id, text, now) {
            Some(actions) => {
                return actions;
            },
            None => {},
        }
        let mut actions: Vec<Action> = Vec::new();
        let mut user = self.take(user_id, now);
        match user.observe(text, now) {
            Some(SimilarityVerdict::Flood) => {
                actions.push(Action::DirectMessage(Notice::Flood));
                actions.push(Action::TimeoutUser { seconds: FLOOD_TIMEOUT });
                user.reset_window();
                assert(actions@ =~= flood_actions());
            },
            None => {},
        }
        self.put(user_id, user);
        assert(self@ =~= old(self)@.insert(
            user_id,
            after_message(record_of(old(self)@, user_id, now), text@, now),
        ));
        actions
    }
}

/// Classifies a message by token repetition alone. A message that
/// repeats a token is a violation: the result holds the actions it
/// leads to, and the user's record, made if there was none, takes the
/// strike. Any other message gives `None` and changes nothing.
pub fn check_token_spam(
    tracker: &mut SpamTracker,
    user_id: u64,
    text: &str,
    now: u64,
) -> (actions: Option<Vec<Action>>)
    requires
        old(tracker).wf(),
    ensures
        final(tracker).wf(),
        actions.is_some() == repeats_token(text@),
        repeats_token(text@) ==> actions.unwrap()@ == token_actions(
            record_of(old(tracker)@, user_id, now),
        ) && final(tracker)@ == old(tracker)@.insert(
            user_id,
            struck(record_of(old(tracker)@, user_id, now)),
        ),
        !repeats_token(text@) ==> final(tracker)@ == old(tracker)@,
{
    if !has_repeated_words(text) {
        return None;
    }
    let mut actions: Vec<Action> = Vec::new();
    actions.push(Action::DeleteMessage);
    actions.push(Action::ChannelWarning);
    let mut user = tracker.take(user_id, now);
    let strikes: u32 = user.strike_count();
    match user.record_token_violation() {
        EscalationOutcome::Escalated { timeout_seconds } => {
            actions.push(
                Action::DirectMessage(
                    Notice::Strikes {
                        strikes,
                        actioned: user.actioned_strike_count(),
                        seconds: timeout_seconds,
                    },
                ),
            );
            actions.push(Action::TimeoutUser { seconds: timeout_seconds });
        },
        EscalationOutcome::Warned => {},
    }
    tracker.put(user_id, user);
    assert(actions@ =~= token_actions(record_of(old(tracker)@, user_id, now)));
    assert(tracker@ =~= old(tracker)@.insert(
        user_id,
        struck(record_of(old(tracker)@, user_id, now)),
    ));
    Some(actions)
}

/// What a message leads to is fixed by the sender's own record, the text
/// and the time: trackers that agree on that user give the same actions and
/// the same next record, whatever they hold for other users, and the
/// records of other users stay as they are.
pub proof fn lemma_actions_depend_on_own_record(
    a: Map<u64, Record>,
    b: Map<u64, Record>,
    user_id: u64,
    other: u64,
    text: Seq<char>,
    now: u64,
)
    requires
        a.contains_key(user_id) == b.contains_key(user_id),
        a.contains_key(user_id) ==> a[user_id] == b[user_id],
        other != user_id,
    ensures
        message_actions(record_of(a, user_id, now), text, now) == message_actions(
            record_of(b, user_id, now),
            text,
            now,
        ),
        after_message(record_of(a, user_id, now), text, now) == after_message(
            record_of(b, user_id, now),
            text,
            now,
        ),
        a.insert(user_id, after_message(record_of(a, user_id, now), text, now)).contains_key(other)
            == a.contains_key(other),
        a.contains_key(other) ==> a.insert(
            user_id,
            after_message(record_of(a, user_id, now), text, now),
        )[other] == a[other],
{
}

/// A message that repeats a token is always deleted and warned about, and
/// the similarity window never sees it.
pub proof fn lemma_violation_skips_window(r: Record, text: Seq<char>, now: u64)
    requires
        repeats_token(text),
    ensures
        message_actions(r, text, now).len() >= 2,
        message_actions(r, text, now)[0] == Action::DeleteMessage,
        message_actions(r, text, now)[1] == Action::ChannelWarning,
        after_message(r, text, now).recent == r.recent,
        after_message(r, text, now).message_count == r.message_count,
        after_message(r, text, now).last_message == r.last_message,
{
}

/// A message that repeats no token leads to nothing unless it completes a
/// flood, and then to a notice and the flood timeout.
pub proof fn lemma_ordinary_message(r: Record, text: Seq<char>, now: u64)
    requires
        !repeats_token(text),
    ensures
        message_actions(r, text, now) == if floods(observed(r, text, now)) {
            flood_actions()
        } else {
            Seq::<Action>::empty()
        },
        after_message(r, text, now).strike_count == r.strike_count,
        after_message(r, text, now).actioned_strike_count == r.actioned_strike_count,
        floods(observed(r, text, now)) ==> after_message(r, text, now).message_count == 0
            && after_message(r, text, now).recent.len() == 0,
{
}

} // verus!
