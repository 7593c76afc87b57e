//! What is remembered of one user: when the last message came, how many
//! came within the activity window, the most recent texts, and the strikes.

use vstd::prelude::*;
use circular_buffer::CircularBuffer;
use crate::ring::{
    pushed, ring_clear, ring_contents, ring_get, ring_len, ring_new, ring_push_back, MAX_WINDOW,
};
use crate::similarity::{
    exceeds_threshold, flood_verdict, jaro_bits, jaro_score_bits, lemma_uniform_scores, score_of,
    scores_of, SCORE_ONE,
};

verus! {

/// A pause longer than this many milliseconds starts a new activity window.
pub const ACTIVITY_TIMEOUT_MS: u64 = 18_000;

/// The similarity of the window is scored once this many messages have come
/// within the activity window.
pub const MAX_MESSAGE_COUNTER: u32 = 5;

/// With this many strikes on record, the next violation is punished.
pub const MAX_STRIKE_COUNT: u32 = 5;

/// Seconds of timeout per step of the escalation.
pub const STRIKE_TIMEOUT_STEP: u64 = 60;

/// The state of one user as plain values.
pub struct Record {
    /// Time of the last message that was observed, in milliseconds.
    pub last_message: u64,
    /// Messages counted in the current activity window.
    pub message_count: u32,
    /// The most recent texts, oldest first.
    pub recent: Seq<Seq<char>>,
    /// Violations since the last punishment.
    pub strike_count: u32,
    /// Punishments so far.
    pub actioned_strike_count: u32,
}

/// The similarity window reported a flood of near-duplicate messages.
#[derive(Clone, Copy, Debug, PartialEq, Eq, Structural)]
pub enum SimilarityVerdict {
    Flood,
}

/// What a token-repetition violation led to.
#[derive(Clone, Copy, Debug, PartialEq, Eq, Structural)]
pub enum EscalationOutcome {
    /// The user is timed out for this many seconds.
    Escalated { timeout_seconds: u64 },
    /// One more strike was recorded.
    Warned,
}

/// Milliseconds from `last` to `now`; zero if `now` is not later.
pub open spec fn elapsed(last: u64, now: u64) -> int {
    if now >= last {
        now - last
    } else {
        0
    }
}

/// A counter one higher, held at the largest value it can take.
pub open spec fn bumped(n: u32) -> u32 {
    if n < u32::MAX {
        (n + 1) as u32
    } else {
        n
    }
}

/// The record of a user first seen at `now`.
pub open spec fn fresh(now: u64) -> Record {
    Record {
        last_message: now,
        message_count: 0,
        recent: Seq::empty(),
        strike_count: 0,
        actioned_strike_count: 0,
    }
}

/// The record after a message with this text was observed at `now`: a pause
/// beyond the activity timeout restarts the count before the message is
/// counted, and the text enters the window.
pub open spec fn observed(r: Record, text: Seq<char>, now: u64) -> Record {
    Record {
        last_message: now,
        message_count: bumped(
            if elapsed(r.last_message, now) > ACTIVITY_TIMEOUT_MS {
                0
            } else {
                r.message_count
            },
        ),
        recent: pushed(r.recent, text),
        ..r
    }
}

/// The bits of the Jaro scores of a window: its oldest text against each of
/// the others, in order.
pub open spec fn window_bits(window: Seq<Seq<char>>) -> Seq<u64> {
    Seq::new((window.len() - 1) as nat, |i: int| jaro_bits(window[0], window[i + 1]))
}

/// A record that has just observed a message shows a flood: enough messages
/// came within the activity window, and the average similarity of the oldest
/// text to the others exceeds the threshold. The message just observed is
/// itself always within the window, so no time enters here.
pub open spec fn floods(r: Record) -> bool {
    r.message_count >= MAX_MESSAGE_COUNTER && exceeds_threshold(scores_of(window_bits(r.recent)))
}

/// The record after a flood was acted on: the window is empty and the count
/// starts again.
pub open spec fn cleared(r: Record) -> Record {
    Record { message_count: 0, recent: Seq::empty(), ..r }
}

/// The timeout that follows the given number of punishments.
pub open spec fn strike_timeout(actioned: u32) -> int {
    (actioned + 1) * STRIKE_TIMEOUT_STEP
}

/// What a token-repetition violation leads to for a user in this state.
pub open spec fn escalation(r: Record) -> EscalationOutcome {
    if r.strike_count >= MAX_STRIKE_COUNT {
        EscalationOutcome::Escalated {
            timeout_seconds: strike_timeout(bumped(r.actioned_strike_count)) as u64,
        }
    } else {
        EscalationOutcome::Warned
    }
}

/// The record after a token-repetition violation.
pub open spec fn struck(r: Record) -> Record {
    if r.strike_count >= MAX_STRIKE_COUNT {
        Record {
            strike_count: 0,
            actioned_strike_count: bumped(r.actioned_strike_count),
            ..r
        }
    } else {
        Record { strike_count: (r.strike_count + 1) as u32, ..r }
    }
}

/// The state kept for one user.
pub struct UserSpam {
    last_message: u64,
    message_count: u32,
    buffer: CircularBuffer<MAX_WINDOW, String>,
    strike_count: u32,
    actioned_strike_count: u32,
}

impl View for UserSpam {
    type V = Record;

    closed spec fn view(&self) -> Record {
        Record {
            last_message: self.last_message,
            message_count: self.message_count,
            recent: ring_contents(self.buffer),
            strike_count: self.strike_count,
            actioned_strike_count: self.actioned_strike_count,
        }
    }
}

/// The window never holds more than its capacity, and holds at least as
/// many texts as were counted, up to that capacity.
pub open spec fn record_wf(r: Record) -> bool {
    &&& r.recent.len() <= MAX_WINDOW
    &&& r.message_count >= MAX_MESSAGE_COUNTER ==> r.recent.len() == MAX_WINDOW
    &&& r.message_count < MAX_MESSAGE_COUNTER ==> r.recent.len() >= r.message_count
}

impl UserSpam {
    /// The record is well formed.
    pub open spec fn wf(&self) -> bool {
        record_wf(self@)
    }

    /// The record of a user first seen at `now`.
    pub fn new(now: u64) -> (user: UserSpam)
        ensures
            user@ == fresh(now),
            user.wf(),
    {
        UserSpam {
            last_message: now,
            message_count: 0,
            buffer: ring_new(),
            strike_count: 0,
            actioned_strike_count: 0,
        }
    }

    /// Time of the last message that was observed, in milliseconds.
    pub fn last_message(&self) -> (t: u64)
        ensures
            t == self@.last_message,
    {
        self.last_message
    }

    /// Messages counted in the current activity window.
    pub fn message_count(&self) -> (n: u32)
        ensures
            n == self@.message_count,
    {
        self.message_count
    }

    /// Violations since the last punishment.
    pub fn strike_count(&self) -> (n: u32)
        ensures
            n == self@.strike_count,
    {
        self.strike_count
    }

    /// Punishments so far.
    pub fn actioned_strike_count(&self) -> (n: u32)
        ensures
            n == self@.actioned_strike_count,
    {
        self.actioned_strike_count
    }

    /// The texts in the window, oldest first.
    pub fn recent_messages(&self) -> (texts: Vec<String>)
        ensures
            texts@.len() == self@.recent.len(),
            forall|i: int| 0 <= i < texts@.len() ==> (#[trigger] texts@[i])@ == self@.recent[i],
    {
        let n: usize = ring_len(&self.buffer);
        let mut texts: Vec<String> = Vec::new();
        let mut i: usize = 0;
        while i < n
            invariant
                i <= n,
                n == ring_contents(self.buffer).len(),
                texts@.len() == i,
                forall|k: int| 0 <= k < i ==> (#[trigger] texts@[k])@ == ring_contents(self.buffer)[k],
            decreases n - i,
        {
            match ring_get(&self.buffer, i) {
                Some(text) => {
                    texts.push(text.clone());
                },
                None => {},
            }
            i += 1;
        }
        texts
    }

    /// Observes one message: counts it, remembers its text, and reports a
    /// flood when the window is due and its texts are too much alike.
    pub fn observe(&mut self, text: &str, now: u64) -> (verdict: Option<SimilarityVerdict>)
        requires
            old(self).wf(),
        ensures
            final(self)@ == observed(old(self)@, text@, now),
            final(self).wf(),
            verdict == (if floods(final(self)@) {
                Some(SimilarityVerdict::Flood)
            } else {
                None
            }),
    {
        let gap: u64 = if now >= self.last_message {
            now - self.last_message
        } else {
            0
        };
        if gap > ACTIVITY_TIMEOUT_MS {
            self.message_count = 0;
        }
        self.last_message = now;
        if self.message_count < u32::MAX {
            self.message_count = self.message_count + 1;
        }
        ring_push_back(&mut self.buffer, text.to_owned());
        if self.message_count >= MAX_MESSAGE_COUNTER {
            let ghost window = ring_contents(self.buffer);
            let mut bits: Vec<u64> = Vec::new();
            let mut i: usize = 1;
            while i < MAX_WINDOW
                invariant
                    1 <= i <= MAX_WINDOW,
                    window == ring_contents(self.buffer),
                    window.len() == MAX_WINDOW,
                    bits@.len() == i - 1,
                    forall|k: int| 0 <= k < i - 1 ==> #[trigger] bits@[k] == jaro_bits(window[0], window[k + 1]),
                decreases MAX_WINDOW - i,
            {
                match (ring_get(&self.buffer, 0), ring_get(&self.buffer, i)) {
                    (Some(anchor), Some(other)) => {
                        bits.push(jaro_score_bits(anchor.as_str(), other.as_str()));
                    },
                    _ => {},
                }
                i += 1;
            }
            assert(bits@ =~= window_bits(window));
            if flood_verdict(&bits) {
                return Some(SimilarityVerdict::Flood);
            }
        }
        None
    }

    /// Empties the window and restarts the count, as is due after a flood.
    pub fn reset_window(&mut self)
        ensures
            final(self)@ == cleared(old(self)@),
            final(self).wf(),
    {
        ring_clear(&mut self.buffer);
        self.message_count = 0;
    }

    /// Records one token-repetition violation: a strike, or, with the
    /// strikes already at their maximum, a punishment that is one step
    /// longer than the last and clears the strikes.
    pub fn record_token_violation(&mut self) -> (outcome: EscalationOutcome)
        ensures
            final(self)@ == struck(old(self)@),
            outcome == escalation(old(self)@),
            old(self).wf() ==> final(self).wf(),
    {
        if self.strike_count >= MAX_STRIKE_COUNT {
            if self.actioned_strike_count < u32::MAX {
                self.actioned_strike_count = self.actioned_strike_count + 1;
            }
            let timeout_seconds: u64 = (self.actioned_strike_count as u64 + 1) * STRIKE_TIMEOUT_STEP;
            self.strike_count = 0;
            EscalationOutcome::Escalated { timeout_seconds }
        } else {
            self.strike_count = self.strike_count + 1;
            EscalationOutcome::Warned
        }
    }
}

/// A message that comes after a pause beyond the activity timeout is the
/// first of a new window, so it cannot complete a flood, whatever the texts.
pub proof fn lemma_pause_restarts_window(r: Record, text: Seq<char>, now: u64)
    requires
        elapsed(r.last_message, now) > ACTIVITY_TIMEOUT_MS,
    ensures
        observed(r, text, now).message_count == 1,
        !floods(observed(r, text, now)),
{
}

/// The strikes are back at zero exactly when a violation was punished.
pub proof fn lemma_strikes_reset_on_escalation(r: Record)
    ensures
        struck(r).strike_count == 0 <==> escalation(r) is Escalated,
{
}

/// A violation never lowers the number of punishments, and observing a
/// message or clearing the window leaves it and the strikes as they were.
pub proof fn lemma_actioned_never_falls(r: Record, text: Seq<char>, now: u64)
    ensures
        struck(r).actioned_strike_count >= r.actioned_strike_count,
        observed(r, text, now).actioned_strike_count == r.actioned_strike_count,
        observed(r, text, now).strike_count == r.strike_count,
        cleared(r).actioned_strike_count == r.actioned_strike_count,
        cleared(r).strike_count == r.strike_count,
{
}

/// The first punishment of a user lasts two steps, and each punishment
/// lasts one step longer than the one before it, as long as their number
/// can still be counted.
pub proof fn lemma_escalation_grows(earlier: Record, later: Record)
    requires
        earlier.strike_count >= MAX_STRIKE_COUNT,
        later.strike_count >= MAX_STRIKE_COUNT,
        later.actioned_strike_count == struck(earlier).actioned_strike_count,
        later.actioned_strike_count < u32::MAX,
    ensures
        earlier.actioned_strike_count == 0 ==> escalation(earlier) == (EscalationOutcome::Escalated {
            timeout_seconds: 120,
        }),
        escalation(later)->timeout_seconds == escalation(earlier)->timeout_seconds
            + STRIKE_TIMEOUT_STEP,
{
}

/// Observing a message keeps a well-formed record well formed, and so do
/// a violation and clearing the window.
pub proof fn lemma_wf_preserved(r: Record, text: Seq<char>, now: u64)
    requires
        record_wf(r),
    ensures
        record_wf(fresh(now)),
        record_wf(observed(r, text, now)),
        record_wf(struck(r)),
        record_wf(cleared(r)),
{
}

/// A full window in which the oldest text scores one against each of the
/// others is a flood once enough messages were counted; one in which it
/// scores zero against each is none.
pub proof fn lemma_uniform_window(r: Record, v: u64)
    requires
        r.recent.len() == MAX_WINDOW,
        r.message_count >= MAX_MESSAGE_COUNTER,
        forall|i: int| 1 <= i < MAX_WINDOW ==> score_of(jaro_bits(r.recent[0], r.recent[i])) == v,
    ensures
        v == SCORE_ONE ==> floods(r),
        v == 0 ==> !floods(r),
{
    let scores = scores_of(window_bits(r.recent));
    assert forall|i: int| 0 <= i < scores.len() implies scores[i] == v by {
        assert(window_bits(r.recent)[i] == jaro_bits(r.recent[0], r.recent[i + 1]));
    }
    lemma_uniform_scores(scores, v);
}

} // verus!
