//! Identifiers, timestamps and the text statistics of the editor (word and
//! character counts, truncation for prompt contexts).

use vstd::prelude::*;
use crate::text::{char_is_alphanumeric, is_alnum, is_whitespace, is_ws, string_from, string_of, to_chars};

verus! {

// ---------------------------------------------------------------------------
// Identifiers and time
// ---------------------------------------------------------------------------

/// A lowercase hexadecimal digit.
pub open spec fn is_lower_hex(c: char) -> bool {
    ('0' <= c && c <= '9') || ('a' <= c && c <= 'f')
}

/// The shape of the identifiers made by [`new_id`]: 32 lowercase hexadecimal digits.
pub open spec fn id_shaped(s: Seq<char>) -> bool {
    s.len() == 32 && forall|i: int| 0 <= i < 32 ==> is_lower_hex(#[trigger] s[i])
}

/// A fresh random identifier: `uuid::Uuid::new_v4()` in its `simple` form.
/// Claimed of it: 32 lowercase hexadecimal characters (the `simple` format);
/// which ones is left open, as they are random.
#[verifier::external_body]
pub fn new_id() -> (id: String)
    ensures
        id@.len() == 32,
        forall|i: int| 0 <= i < 32 ==> is_lower_hex(#[trigger] id@[i]),
        id_shaped(id@),
{
    uuid::Uuid::new_v4().simple().to_string()
}

/// The current time in seconds since the Unix epoch: `chrono::Local::now().timestamp()`.
/// Nothing is claimed of the value, which depends on the clock.
#[verifier::external_body]
pub fn now_ts() -> (ts: i64) {
    chrono::Local::now().timestamp()
}

/// The text `YYYY-MM-DD HH:MM` (UTC) of the timestamp `ts`, in seconds since
/// the Unix epoch; `None` when the timestamp is out of chrono's range.
pub uninterp spec fn utc_minute_of(ts: i64) -> Option<Seq<char>>;

/// `chrono::DateTime::from_timestamp(ts, 0)` then `format("%Y-%m-%d %H:%M")`.
/// Claimed of it: the result (a function of `ts` alone, as the time is taken
/// in UTC) is named `utc_minute_of`.
#[verifier::external_body]
fn utc_minute_text(ts: i64) -> (r: Option<String>)
    ensures
        match r {
            Some(t) => utc_minute_of(ts) == Some(t@),
            None => utc_minute_of(ts) is None,
        },
{
    match chrono::DateTime::from_timestamp(ts, 0) {
        Some(dt) => Some(dt.format("%Y-%m-%d %H:%M").to_string()),
        None => None,
    }
}

/// Shown for a timestamp that cannot be formatted.
pub const NO_TIME: &'static str = "-";

/// A timestamp as `YYYY-MM-DD HH:MM` (UTC), or [`NO_TIME`] when it is out of range.
pub fn format_ts(ts: i64) -> (r: String)
    ensures
        r@ == match utc_minute_of(ts) {
            Some(t) => t,
            None => NO_TIME@,
        },
{
    match utc_minute_text(ts) {
        Some(t) => t,
        None => NO_TIME.to_owned(),
    }
}

// ---------------------------------------------------------------------------
// Word counting
// ---------------------------------------------------------------------------

/// CJK ideographs, CJK punctuation, full-width forms and kana: each counts as
/// one word. The ideographic space U+3000 is blank and is left out.
pub open spec fn cjk(c: char) -> bool {
    let u = c as u32;
    ||| 0x4E00 <= u <= 0x9FFF
    ||| 0x3400 <= u <= 0x4DBF
    ||| 0x20000 <= u <= 0x2A6DF
    ||| 0xF900 <= u <= 0xFAFF
    ||| 0x3001 <= u <= 0x303F
    ||| 0xFF00 <= u <= 0xFFEF
    ||| 0x3040 <= u <= 0x30FF
    ||| 0x31F0 <= u <= 0x31FF
}

/// Whether `c` is a CJK character in the sense of [`cjk`].
pub fn is_cjk(c: char) -> (r: bool)
    ensures
        r == cjk(c),
{
    let u = c as u32;
    (0x4E00 <= u && u <= 0x9FFF) || (0x3400 <= u && u <= 0x4DBF) || (0x20000 <= u && u
        <= 0x2A6DF) || (0xF900 <= u && u <= 0xFAFF) || (0x3001 <= u && u <= 0x303F) || (0xFF00
        <= u && u <= 0xFFEF) || (0x3040 <= u && u <= 0x30FF) || (0x31F0 <= u && u <= 0x31FF)
}

/// The word count after reading `s`, and whether `s` ends inside a Latin word
/// or number.
pub open spec fn word_state(s: Seq<char>) -> (nat, bool)
    decreases s.len(),
{
    if s.len() == 0 {
        (0, false)
    } else {
        let (n, in_word) = word_state(s.drop_last());
        let c = s.last();
        if cjk(c) {
            (n + 1, false)
        } else if is_alnum(c) {
            if in_word {
                (n, true)
            } else {
                (n + 1, true)
            }
        } else {
            (n, false)
        }
    }
}

/// The word count of `s`: every CJK character counts one, every maximal run of
/// other alphanumeric characters counts one.
pub open spec fn words(s: Seq<char>) -> nat {
    word_state(s).0
}

pub proof fn lemma_words_bound(s: Seq<char>)
    ensures
        words(s) <= s.len(),
    decreases s.len(),
{
    if s.len() > 0 {
        lemma_words_bound(s.drop_last());
    }
}

proof fn lemma_word_state_concat(x: Seq<char>, y: Seq<char>)
    requires
        !word_state(x).1,
    ensures
        word_state(x + y) == (word_state(x).0 + word_state(y).0, word_state(y).1),
    decreases y.len(),
{
    if y.len() == 0 {
        assert(x + y =~= x);
    } else {
        lemma_word_state_concat(x, y.drop_last());
        assert((x + y).drop_last() =~= x + y.drop_last());
        assert((x + y).last() == y.last());
    }
}

/// A character that is neither CJK nor alphanumeric (punctuation, a space, a
/// line break, ...) separates words: the words on both sides of it are
/// counted apart, and it adds none of its own.
pub proof fn law_separator_splits_words(a: Seq<char>, c: char, b: Seq<char>)
    requires
        !cjk(c),
        !is_alnum(c),
    ensures
        words(a + seq![c] + b) == words(a) + words(b),
{
    let x = a + seq![c];
    assert(x.drop_last() =~= a);
    assert(x.last() == c);
    lemma_word_state_concat(x, b);
}

/// CJK characters count one word each, wherever they stand: one more CJK
/// character at the end is one more word.
pub proof fn law_cjk_counts_one_each(a: Seq<char>, c: char)
    requires
        cjk(c),
    ensures
        words(a.push(c)) == words(a) + 1,
{
    assert(a.push(c).drop_last() =~= a);
}

/// Word count: CJK characters and CJK punctuation count one each, a run of
/// Latin letters or digits counts as one word.
pub fn count_words(s: &str) -> (n: u64)
    ensures
        n == words(s@),
        (forall|i: int| 0 <= i < s@.len() ==> is_ws(#[trigger] s@[i])) ==> n == 0,
{
    let v = to_chars(s);
    let mut n: u64 = 0;
    let mut in_word = false;
    let mut i: usize = 0;
    assert(v@.take(0) =~= Seq::<char>::empty());
    while i < v.len()
        invariant
            i <= v.len(),
            v@ == s@,
            word_state(v@.take(i as int)) == (n as nat, in_word),
            n <= i,
            (forall|j: int| 0 <= j < i ==> is_ws(#[trigger] v@[j])) ==> n == 0,
        decreases v.len() - i,
    {
        let ch = v[i];
        assert(v@.take(i + 1).drop_last() =~= v@.take(i as int));
        if is_cjk(ch) {
            n = n + 1;
            in_word = false;
        } else if char_is_alphanumeric(ch) {
            if !in_word {
                n = n + 1;
                in_word = true;
            }
        } else {
            in_word = false;
        }
        i = i + 1;
    }
    assert(v@.take(v.len() as int) =~= v@);
    n
}

/// The number of characters of `s` that are not whitespace.
pub open spec fn non_ws_count(s: Seq<char>) -> nat
    decreases s.len(),
{
    if s.len() == 0 {
        0
    } else {
        non_ws_count(s.drop_last()) + if is_ws(s.last()) { 0nat } else { 1nat }
    }
}

/// Character count, whitespace excluded.
pub fn count_chars(s: &str) -> (n: u64)
    ensures
        n == non_ws_count(s@),
{
    let v = to_chars(s);
    let mut n: u64 = 0;
    let mut i: usize = 0;
    assert(v@.take(0) =~= Seq::<char>::empty());
    while i < v.len()
        invariant
            i <= v.len(),
            v@ == s@,
            non_ws_count(v@.take(i as int)) == n,
            n <= i,
        decreases v.len() - i,
    {
        assert(v@.take(i + 1).drop_last() =~= v@.take(i as int));
        if !is_whitespace(v[i]) {
            n = n + 1;
        }
        i = i + 1;
    }
    assert(v@.take(v.len() as int) =~= v@);
    n
}

// ---------------------------------------------------------------------------
// Cutting text for prompt contexts
// ---------------------------------------------------------------------------

/// The marker appended to a truncated text.
pub const TRUNCATED_MARK: &'static str = "\n\n……（已截断）";

/// `s` cut to its first `max` characters, with [`TRUNCATED_MARK`] appended when
/// something was cut.
pub open spec fn truncated(s: Seq<char>, max: nat) -> Seq<char> {
    if s.len() <= max {
        s
    } else {
        s.take(max as int) + TRUNCATED_MARK@
    }
}

/// The first `max` characters of `s` (all of `s` when it is shorter).
pub open spec fn head(s: Seq<char>, max: nat) -> Seq<char> {
    if s.len() <= max {
        s
    } else {
        s.take(max as int)
    }
}

/// The first `max` characters of `s` (`s.chars().take(max)`).
pub fn head_chars(s: &str, max: usize) -> (r: String)
    ensures
        r@ == head(s@, max as nat),
{
    let v = to_chars(s);
    if v.len() <= max {
        string_from(&v)
    } else {
        let out = string_of(&v, 0, max);
        assert(v@.subrange(0, max as int) =~= v@.take(max as int));
        out
    }
}

/// The last `max` characters of `s` (all of `s` when it is shorter).
pub open spec fn tail(s: Seq<char>, max: nat) -> Seq<char> {
    if s.len() <= max {
        s
    } else {
        s.skip(s.len() - max)
    }
}

/// Truncates `s` to `max` characters, marking the cut (used to bound AI context).
pub fn truncate_chars(s: &str, max: usize) -> (r: String)
    ensures
        r@ == truncated(s@, max as nat),
{
    let v = to_chars(s);
    if v.len() <= max {
        string_from(&v)
    } else {
        let mut out = string_of(&v, 0, max);
        out.append(TRUNCATED_MARK);
        assert(v@.subrange(0, max as int) =~= v@.take(max as int));
        out
    }
}

/// The last `max` characters of `s`.
pub fn tail_chars(s: &str, max: usize) -> (r: String)
    ensures
        r@ == tail(s@, max as nat),
{
    let v = to_chars(s);
    if v.len() <= max {
        string_from(&v)
    } else {
        let out = string_of(&v, v.len() - max, v.len());
        assert(v@.subrange(v.len() - max, v.len() as int) =~= v@.skip(v.len() - max));
        out
    }
}

/// The two full-width spaces of a first-line indent.
pub const INDENT: &'static str = "　　";

/// `s` with a first-line indent of two full-width spaces (Chinese typesetting).
pub fn indent_two(s: &str) -> (r: String)
    ensures
        r@ == INDENT@ + s@,
{
    let mut r = String::new();
    r.append(INDENT);
    r.append(s);
    r
}

} // verus!
