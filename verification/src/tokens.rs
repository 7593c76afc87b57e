//! Token repetition: a message is spam on its own when one word, or one
//! emote, occurs in it more often than the threshold allows.

use vstd::prelude::*;
use vstd::string::*;

verus! {

/// A token may occur this many times in one message; one more is spam.
pub const TOKEN_REPEAT_THRESHOLD: usize = 6;

/// The code points with the Unicode property `White_Space`.
pub open spec fn is_whitespace(c: char) -> bool {
    let n = c as u32;
    ||| 0x09 <= n <= 0x0D
    ||| n == 0x20
    ||| n == 0x85
    ||| n == 0xA0
    ||| n == 0x1680
    ||| 0x2000 <= n <= 0x200A
    ||| n == 0x2028
    ||| n == 0x2029
    ||| n == 0x202F
    ||| n == 0x205F
    ||| n == 0x3000
}

/// Tokens are separated by whitespace and by the angle brackets that
/// surround a rich-text emote tag.
pub open spec fn is_separator(c: char) -> bool {
    is_whitespace(c) || c == '<' || c == '>'
}

/// The tokens closed so far, with the run of characters still open added
/// as a token unless it is empty.
pub open spec fn close(closed: Seq<Seq<char>>, open: Seq<char>) -> Seq<Seq<char>> {
    if open.len() > 0 {
        closed.push(open)
    } else {
        closed
    }
}

/// Reading `s` from the left: the tokens that a separator has closed, and
/// the run of non-separator characters after the last separator.
pub open spec fn scan(s: Seq<char>) -> (Seq<Seq<char>>, Seq<char>)
    decreases s.len(),
{
    if s.len() == 0 {
        (Seq::empty(), Seq::empty())
    } else {
        let before = scan(s.drop_last());
        if is_separator(s.last()) {
            (close(before.0, before.1), Seq::empty())
        } else {
            (before.0, before.1.push(s.last()))
        }
    }
}

/// The tokens of a message: its maximal runs of non-separator characters,
/// in order.
pub open spec fn tokens(s: Seq<char>) -> Seq<Seq<char>> {
    close(scan(s).0, scan(s).1)
}

/// An emote token starts and ends with a colon; any other token is a word.
pub open spec fn is_emote(token: Seq<char>) -> bool {
    token.len() > 0 && token.first() == ':' && token.last() == ':'
}

/// How often `token` occurs in `toks`, compared character by character.
pub open spec fn occurrences(toks: Seq<Seq<char>>, token: Seq<char>) -> nat
    decreases toks.len(),
{
    if toks.len() == 0 {
        0
    } else {
        occurrences(toks.drop_last(), token) + if toks.last() == token {
            1nat
        } else {
            0nat
        }
    }
}

/// Some token of the message occurs more often than the threshold. Whether
/// a token is an emote or a word is decided by its characters alone, so the
/// emote tally and the word tally never count the same token: a word
/// repeated up to the threshold and an emote repeated up to the threshold
/// cross it neither alone nor together.
pub open spec fn repeats_token(s: Seq<char>) -> bool {
    exists|token: Seq<char>| occurrences(tokens(s), token) > TOKEN_REPEAT_THRESHOLD
}

/// The character sequences held by a vector of tokens.
pub open spec fn views(toks: Seq<Vec<char>>) -> Seq<Seq<char>> {
    Seq::new(toks.len(), |i: int| toks[i]@)
}

/// Whether a character separates tokens.
pub fn separates(c: char) -> (r: bool)
    ensures
        r == is_separator(c),
{
    let n: u32 = c as u32;
    (0x09 <= n && n <= 0x0D) || n == 0x20 || n == 0x85 || n == 0xA0 || n == 0x1680 || (0x2000 <= n
        && n <= 0x200A) || n == 0x2028 || n == 0x2029 || n == 0x202F || n == 0x205F || n == 0x3000
        || c == '<' || c == '>'
}

/// Splits a message into its tokens.
pub fn split_tokens(text: &str) -> (toks: Vec<Vec<char>>)
    ensures
        views(toks@) == tokens(text@),
{
    let n: usize = text.unicode_len();
    let mut toks: Vec<Vec<char>> = Vec::new();
    let mut cur: Vec<char> = Vec::new();
    let mut i: usize = 0;
    assert(views(toks@) =~= scan(text@.take(0)).0);
    while i < n
        invariant
            i <= n,
            n == text@.len(),
            views(toks@) == scan(text@.take(i as int)).0,
            cur@ == scan(text@.take(i as int)).1,
        decreases n - i,
    {
        let c = text.get_char(i);
        proof {
            assert(text@.take(i + 1).drop_last() =~= text@.take(i as int));
        }
        if separates(c) {
            if cur.len() > 0 {
                let ghost before = views(toks@);
                let ghost run = cur@;
                toks.push(cur);
                cur = Vec::new();
                assert(views(toks@) =~= before.push(run));
            }
            assert(cur@ =~= Seq::<char>::empty());
        } else {
            cur.push(c);
        }
        i += 1;
    }
    assert(text@.take(n as int) =~= text@);
    if cur.len() > 0 {
        let ghost before = views(toks@);
        let ghost run = cur@;
        toks.push(cur);
        assert(views(toks@) =~= before.push(run));
    }
    toks
}

/// Whether two tokens hold the same characters.
pub fn same_token(a: &Vec<char>, b: &Vec<char>) -> (r: bool)
    ensures
        r == (a@ == b@),
{
    if a.len() != b.len() {
        return false;
    }
    let mut i: usize = 0;
    while i < a.len()
        invariant
            i <= a.len(),
            a.len() == b.len(),
            forall|k: int| 0 <= k < i ==> a@[k] == b@[k],
        decreases a.len() - i,
    {
        if a[i] != b[i] {
            return false;
        }
        i += 1;
    }
    assert(a@ =~= b@);
    true
}

/// Whether a token is an emote.
pub fn emote_token(token: &Vec<char>) -> (r: bool)
    ensures
        r == is_emote(token@),
{
    token.len() > 0 && token[0] == ':' && token[token.len() - 1] == ':'
}

fn copy_token(token: &Vec<char>) -> (copy: Vec<char>)
    ensures
        copy@ == token@,
{
    let mut copy: Vec<char> = Vec::new();
    let mut i: usize = 0;
    while i < token.len()
        invariant
            i <= token.len(),
            copy@ == token@.take(i as int),
        decreases token.len() - i,
    {
        copy.push(token[i]);
        assert(token@.take(i + 1) =~= token@.take(i as int).push(token@[i as int]));
        i += 1;
    }
    assert(token@.take(token.len() as int) =~= token@);
    copy
}

/// A frequency tally of the tokens of one class seen so far in a message.
pub struct Tally {
    seen: Vec<Vec<char>>,
}

impl Tally {
    /// The tokens counted so far, in the order in which they came.
    pub closed spec fn counted(&self) -> Seq<Seq<char>> {
        views(self.seen@)
    }

    /// How often `token` has been counted.
    pub open spec fn count(&self, token: Seq<char>) -> nat {
        occurrences(self.counted(), token)
    }

    /// A tally that has counted nothing.
    pub fn new() -> (tally: Tally)
        ensures
            tally.counted() == Seq::<Seq<char>>::empty(),
    {
        let tally = Tally { seen: Vec::new() };
        assert(tally.counted() =~= Seq::<Seq<char>>::empty());
        tally
    }

    /// Counts one more occurrence of `token` and returns how often it has
    /// now been counted.
    pub fn bump(&mut self, token: &Vec<char>) -> (n: usize)
        ensures
            final(self).counted() == old(self).counted().push(token@),
            n == final(self).count(token@),
            n >= 1,
    {
        let ghost before = views(self.seen@);
        self.seen.push(copy_token(token));
        assert(views(self.seen@) =~= before.push(token@));
        let mut n: usize = 0;
        let mut i: usize = 0;
        while i < self.seen.len()
            invariant
                i <= self.seen.len(),
                n <= i,
                n == occurrences(views(self.seen@).take(i as int), token@),
                i == self.seen.len() ==> n >= 1,
                views(self.seen@).last() == token@,
                self.seen.len() >= 1,
            decreases self.seen.len() - i,
        {
            assert(views(self.seen@).take(i + 1).drop_last() =~= views(self.seen@).take(i as int));
            if same_token(&self.seen[i], token) {
                n += 1;
            }
            i += 1;
        }
        assert(views(self.seen@).take(self.seen.len() as int) =~= views(self.seen@));
        n
    }
}

/// A token that occurs nowhere is counted zero times.
pub proof fn lemma_absent_token(toks: Seq<Seq<char>>, token: Seq<char>)
    requires
        forall|k: int| 0 <= k < toks.len() ==> toks[k] != token,
    ensures
        occurrences(toks, token) == 0,
    decreases toks.len(),
{
    if toks.len() > 0 {
        lemma_absent_token(toks.drop_last(), token);
    }
}

/// Decides whether one token of `text` occurs more often than the threshold.
pub fn has_repeated_words(text: &str) -> (spam: bool)
    ensures
        spam == repeats_token(text@),
{
    let toks = split_tokens(text);
    let mut emotes = Tally::new();
    let mut words = Tally::new();
    let ghost all = tokens(text@);
    let mut i: usize = 0;
    assert(all.take(0) =~= Seq::<Seq<char>>::empty());
    while i < toks.len()
        invariant
            i <= toks.len(),
            views(toks@) == all,
            all == tokens(text@),
            forall|k: int| 0 <= k < emotes.counted().len() ==> is_emote(#[trigger] emotes.counted()[k]),
            forall|k: int| 0 <= k < words.counted().len() ==> !is_emote(#[trigger] words.counted()[k]),
            forall|t: Seq<char>|
                emotes.count(t) + words.count(t) == #[trigger] occurrences(all.take(i as int), t),
            forall|t: Seq<char>| #[trigger]
                occurrences(all.take(i as int), t) <= TOKEN_REPEAT_THRESHOLD,
        decreases toks.len() - i,
    {
        let token = &toks[i];
        let ghost t0 = token@;
        let ghost emotes_before = emotes.counted();
        let ghost words_before = words.counted();
        assert(all[i as int] == t0);
        assert(all.take(i + 1).drop_last() =~= all.take(i as int));
        assert(all.take(i + 1).last() == t0);
        let n: usize;
        if emote_token(token) {
            n = emotes.bump(token);
            proof {
                assert(emotes.counted().drop_last() =~= emotes_before);
                lemma_absent_token(words.counted(), t0);
            }
        } else {
            n = words.bump(token);
            proof {
                assert(words.counted().drop_last() =~= words_before);
                lemma_absent_token(emotes.counted(), t0);
            }
        }
        assert forall|t: Seq<char>|
            emotes.count(t) + words.count(t) == #[trigger] occurrences(all.take(i + 1), t) by {
            assert(occurrences(emotes_before, t) + occurrences(words_before, t) == occurrences(
                all.take(i as int),
                t,
            ));
        }
        assert(n == occurrences(all.take(i + 1), t0));
        if n > TOKEN_REPEAT_THRESHOLD {
            proof {
                lemma_prefix_count(all, i + 1, t0);
            }
            return true;
        }
        assert forall|t: Seq<char>| #[trigger]
            occurrences(all.take(i + 1), t) <= TOKEN_REPEAT_THRESHOLD by {
            assert(occurrences(all.take(i as int), t) <= TOKEN_REPEAT_THRESHOLD);
        }
        i += 1;
    }
    assert(all.take(toks.len() as int) =~= all);
    false
}

/// A prefix holds a token no more often than the whole sequence does.
pub proof fn lemma_prefix_count(toks: Seq<Seq<char>>, len: int, token: Seq<char>)
    requires
        0 <= len <= toks.len(),
    ensures
        occurrences(toks.take(len), token) <= occurrences(toks, token),
    decreases toks.len(),
{
    if len == toks.len() {
        assert(toks.take(len) =~= toks);
    } else {
        lemma_prefix_count(toks.drop_last(), len, token);
        assert(toks.drop_last().take(len) =~= toks.take(len));
    }
}

/// A word: at least one character, none of them a separator.
pub open spec fn is_word(word: Seq<char>) -> bool {
    word.len() > 0 && forall|i: int| 0 <= i < word.len() ==> !is_separator(#[trigger] word[i])
}

/// The text that holds `word` `n` times, with one space between neighbours.
pub open spec fn repeated(word: Seq<char>, n: nat) -> Seq<char>
    decreases n,
{
    if n == 0 {
        Seq::empty()
    } else if n == 1 {
        word
    } else {
        repeated(word, (n - 1) as nat).push(' ') + word
    }
}

/// The sequence that holds `token` `n` times.
pub open spec fn copies(token: Seq<char>, n: nat) -> Seq<Seq<char>> {
    Seq::new(n, |i: int| token)
}

/// Characters that are no separators extend the open run and close nothing.
pub proof fn lemma_scan_run(s: Seq<char>, run: Seq<char>)
    requires
        forall|i: int| 0 <= i < run.len() ==> !is_separator(#[trigger] run[i]),
    ensures
        scan(s + run).0 == scan(s).0,
        scan(s + run).1 == scan(s).1 + run,
    decreases run.len(),
{
    if run.len() == 0 {
        assert(s + run =~= s);
        assert(scan(s).1 + run =~= scan(s).1);
    } else {
        lemma_scan_run(s, run.drop_last());
        assert((s + run).drop_last() =~= s + run.drop_last());
        assert((s + run).last() == run[run.len() - 1]);
        assert((scan(s).1 + run.drop_last()).push(run.last()) =~= scan(s).1 + run);
    }
}

/// Scanning `n` copies of a word leaves the last copy open behind the others.
pub proof fn lemma_scan_repeated(word: Seq<char>, n: nat)
    requires
        is_word(word),
        n >= 1,
    ensures
        scan(repeated(word, n)).0 == copies(word, (n - 1) as nat),
        scan(repeated(word, n)).1 == word,
    decreases n,
{
    let nothing = Seq::<char>::empty();
    if n == 1 {
        lemma_scan_run(nothing, word);
        assert(nothing + word =~= word);
        assert(copies(word, 0) =~= Seq::<Seq<char>>::empty());
    } else {
        let head = repeated(word, (n - 1) as nat);
        lemma_scan_repeated(word, (n - 1) as nat);
        assert(head.push(' ').drop_last() =~= head);
        assert(is_separator(' '));
        assert(scan(head.push(' ')).0 == copies(word, (n - 2) as nat).push(word));
        assert(copies(word, (n - 2) as nat).push(word) =~= copies(word, (n - 1) as nat));
        lemma_scan_run(head.push(' '), word);
        assert(nothing + word =~= word);
    }
}

/// Among copies of one token, that token occurs as often as there are
/// copies, and no other token occurs.
pub proof fn lemma_count_copies(token: Seq<char>, n: nat, other: Seq<char>)
    ensures
        occurrences(copies(token, n), other) == if other == token {
            n
        } else {
            0
        },
    decreases n,
{
    if n > 0 {
        lemma_count_copies(token, (n - 1) as nat, other);
        assert(copies(token, n).drop_last() =~= copies(token, (n - 1) as nat));
    }
}

/// The tokens of a word repeated `n` times are `n` copies of the word.
pub proof fn lemma_tokens_repeated(word: Seq<char>, n: nat)
    requires
        is_word(word),
    ensures
        tokens(repeated(word, n)) == copies(word, n),
{
    if n == 0 {
        assert(copies(word, 0) =~= Seq::<Seq<char>>::empty());
    } else {
        lemma_scan_repeated(word, n);
        assert(copies(word, (n - 1) as nat).push(word) =~= copies(word, n));
    }
}

/// A text that holds nothing but one word, `n` times with single spaces
/// between, repeats a token exactly if `n` is above the threshold: seven
/// copies are spam and six are not. This holds of an emote as of any word.
pub proof fn lemma_repeated_word(word: Seq<char>, n: nat)
    requires
        is_word(word),
    ensures
        repeats_token(repeated(word, n)) <==> n > TOKEN_REPEAT_THRESHOLD,
{
    lemma_tokens_repeated(word, n);
    lemma_count_copies(word, n, word);
    assert forall|other: Seq<char>| occurrences(copies(word, n), other) <= n by {
        lemma_count_copies(word, n, other);
    }
}

/// While a text is read, every closed token is a word and the open run
/// holds no separator.
pub proof fn lemma_scan_words(s: Seq<char>)
    ensures
        forall|i: int| 0 <= i < scan(s).0.len() ==> is_word(#[trigger] scan(s).0[i]),
        forall|j: int| 0 <= j < scan(s).1.len() ==> !is_separator(#[trigger] scan(s).1[j]),
    decreases s.len(),
{
    if s.len() > 0 {
        let before = scan(s.drop_last());
        lemma_scan_words(s.drop_last());
        if is_separator(s.last()) {
            assert forall|i: int| 0 <= i < scan(s).0.len() implies is_word(
                #[trigger] scan(s).0[i],
            ) by {
                if i < before.0.len() {
                    assert(scan(s).0[i] == before.0[i]);
                } else {
                    assert(scan(s).0[i] == before.1);
                }
            }
        } else {
            assert forall|j: int| 0 <= j < scan(s).1.len() implies !is_separator(
                #[trigger] scan(s).1[j],
            ) by {
                if j < before.1.len() {
                    assert(scan(s).1[j] == before.1[j]);
                }
            }
        }
    }
}

/// Every token is a word: it is not empty and holds no separator.
pub proof fn lemma_tokens_are_words(s: Seq<char>)
    ensures
        forall|i: int| 0 <= i < tokens(s).len() ==> is_word(#[trigger] tokens(s)[i]),
{
    lemma_scan_words(s);
    assert forall|i: int| 0 <= i < tokens(s).len() implies is_word(#[trigger] tokens(s)[i]) by {
        if i < scan(s).0.len() {
            assert(tokens(s)[i] == scan(s).0[i]);
        } else {
            assert(tokens(s)[i] == scan(s).1);
        }
    }
}

/// A text of separators alone, the empty text among them, has no tokens and
/// so repeats none.
pub proof fn lemma_blank_text(s: Seq<char>)
    requires
        forall|i: int| 0 <= i < s.len() ==> is_separator(#[trigger] s[i]),
    ensures
        tokens(s) == Seq::<Seq<char>>::empty(),
        !repeats_token(s),
    decreases s.len(),
{
    if s.len() > 0 {
        lemma_blank_text(s.drop_last());
    }
}

/// A space between two texts keeps their tokens apart: the tokens of the
/// whole are those of the first text followed by those of the second.
pub proof fn lemma_tokens_joined(a: Seq<char>, b: Seq<char>)
    ensures
        scan(a.push(' ') + b).0 == tokens(a) + scan(b).0,
        scan(a.push(' ') + b).1 == scan(b).1,
        tokens(a.push(' ') + b) == tokens(a) + tokens(b),
    decreases b.len(),
{
    let whole = a.push(' ') + b;
    if b.len() == 0 {
        assert(whole =~= a.push(' '));
        assert(whole.drop_last() =~= a);
        assert(is_separator(' '));
        assert(tokens(a) + scan(b).0 =~= tokens(a));
    } else {
        lemma_tokens_joined(a, b.drop_last());
        assert(whole.drop_last() =~= a.push(' ') + b.drop_last());
        assert(whole.last() == b.last());
        let before = scan(b.drop_last());
        if is_separator(b.last()) {
            assert(close(tokens(a) + before.0, before.1) =~= tokens(a) + close(
                before.0,
                before.1,
            ));
        }
    }
    assert(close(tokens(a) + scan(b).0, scan(b).1) =~= tokens(a) + close(scan(b).0, scan(b).1));
}

/// A token occurs in two sequences put together as often as in both.
pub proof fn lemma_count_joined(x: Seq<Seq<char>>, y: Seq<Seq<char>>, token: Seq<char>)
    ensures
        occurrences(x + y, token) == occurrences(x, token) + occurrences(y, token),
    decreases y.len(),
{
    if y.len() == 0 {
        assert(x + y =~= x);
    } else {
        lemma_count_joined(x, y.drop_last(), token);
        assert((x + y).drop_last() =~= x + y.drop_last());
    }
}

/// The tallies of different tokens do not add up: a text of one word `m`
/// times followed by another `n` times repeats a token exactly if `m` or `n`
/// alone is above the threshold. Six copies of a word beside six copies of
/// an emote are no spam.
pub proof fn lemma_two_repeated_words(first: Seq<char>, m: nat, second: Seq<char>, n: nat)
    requires
        is_word(first),
        is_word(second),
        first != second,
    ensures
        repeats_token(repeated(first, m).push(' ') + repeated(second, n)) <==> (m
            > TOKEN_REPEAT_THRESHOLD || n > TOKEN_REPEAT_THRESHOLD),
{
    let text = repeated(first, m).push(' ') + repeated(second, n);
    lemma_tokens_joined(repeated(first, m), repeated(second, n));
    lemma_tokens_repeated(first, m);
    lemma_tokens_repeated(second, n);
    assert forall|token: Seq<char>|
        occurrences(tokens(text), token) == if token == first {
            m
        } else if token == second {
            n
        } else {
            0
        } by {
        lemma_count_joined(copies(first, m), copies(second, n), token);
        lemma_count_copies(first, m, token);
        lemma_count_copies(second, n, token);
    }
    if m > TOKEN_REPEAT_THRESHOLD {
        assert(occurrences(tokens(text), first) > TOKEN_REPEAT_THRESHOLD);
    }
    if n > TOKEN_REPEAT_THRESHOLD {
        assert(occurrences(tokens(text), second) > TOKEN_REPEAT_THRESHOLD);
    }
}

} // verus!
