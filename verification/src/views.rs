//! What the side views compute besides drawing: the icon of a kind of
//! location and the current writing streak.

use vstd::prelude::*;
use crate::assistant::{lookup, table_get};
use crate::model::{all_chapters, chapter_words, words_on, ChapterMeta, Novel, Volume};
use crate::outline::{char_views, lines_of, split_lines};
use crate::text::{contains_chars, has_sub, string_from, to_chars, trim, trim_chars, trim_string};

verus! {

/// The icon of a location of kind `kind`.
pub open spec fn kind_icon(kind: Seq<char>) -> &'static str {
    if kind == "国家"@ {
        "🏳️"
    } else if kind == "城市"@ {
        "🏙️"
    } else if kind == "地区"@ {
        "🏞️"
    } else if kind == "建筑"@ {
        "🏛️"
    } else if kind == "异界"@ {
        "🌌"
    } else {
        "📍"
    }
}

/// The icon shown for a location of kind `kind`: a flag for a country, a
/// skyline for a city, and so on, with a pin for any other kind.
pub fn loc_kind_icon(kind: &str) -> (r: &'static str)
    ensures
        r == kind_icon(kind@),
{
    if crate::text::str_eq(kind, "国家") {
        "🏳️"
    } else if crate::text::str_eq(kind, "城市") {
        "🏙️"
    } else if crate::text::str_eq(kind, "地区") {
        "🏞️"
    } else if crate::text::str_eq(kind, "建筑") {
        "🏛️"
    } else if crate::text::str_eq(kind, "异界") {
        "🌌"
    } else {
        "📍"
    }
}

/// A streak stops counting past this many days.
pub const STREAK_CAP: u32 = 2000;

/// The run of days with writing in `stats`, among `days` from `start + n` on,
/// when `n` days have been counted already; the count stops above [`STREAK_CAP`].
pub open spec fn run_from(stats: Seq<(String, u64)>, days: Seq<Seq<char>>, start: int, n: int) -> int
    decreases STREAK_CAP + 1 - n,
{
    if n < 0 || n > STREAK_CAP || start + n >= days.len() || words_on(stats, days[start + n]) <= 0 {
        n
    } else if n + 1 > STREAK_CAP {
        n + 1
    } else {
        run_from(stats, days, start, n + 1)
    }
}

/// The streak of `stats`, where `days[k]` is the day `k` days before today:
/// the run of consecutive days with words written, counted back from today,
/// or from yesterday when no words have been written today.
pub open spec fn streak(stats: Seq<(String, u64)>, days: Seq<Seq<char>>) -> int {
    let start = if words_on(stats, days[0]) <= 0 { 1int } else { 0int };
    run_from(stats, days, start, 0)
}

/// The number of consecutive days, up to today, on which words were written.
/// Not having written yet today (no entry, or an entry of no words) does not
/// break the streak: counting then starts from yesterday. `days` holds the days as written in the statistics,
/// from today backwards, enough of them to cover the longest streak counted.
pub fn calc_streak(novel: &Novel, days: &[String]) -> (r: u32)
    requires
        days@.len() > STREAK_CAP + 2,
    ensures
        r as int == streak(novel.stats@, Seq::new(days@.len(), |k: int| days@[k]@)),
{
    let ghost ds = Seq::new(days@.len(), |k: int| days@[k]@);
    let start: usize = if novel.words_on_day(days[0].as_str()) > 0 { 0 } else { 1 };
    assert(ds[0] == days@[0]@);
    let mut n: u32 = 0;
    while n <= STREAK_CAP
        invariant
            days@.len() > STREAK_CAP + 2,
            ds == Seq::new(days@.len(), |k: int| days@[k]@),
            start <= 1,
            start == (if words_on(novel.stats@, ds[0]) <= 0 { 1usize } else { 0usize }),
            n <= STREAK_CAP + 1,
            run_from(novel.stats@, ds, start as int, n as int) == run_from(novel.stats@, ds, start as int, 0),
        decreases STREAK_CAP + 1 - n,
    {
        let day = &days[start + n as usize];
        assert(ds[start + n as int] == day@);
        if novel.words_on_day(day.as_str()) > 0 {
            n = n + 1;
        } else {
            assert(run_from(novel.stats@, ds, start as int, n as int) == n as int);
            assert(streak(novel.stats@, ds) == run_from(novel.stats@, ds, start as int, 0));
            return n;
        }
    }
    n
}


// ---------------------------------------------------------------------------
// Searching all chapters
// ---------------------------------------------------------------------------

/// The first of `ls` that contains `q`.
pub open spec fn first_line_with(ls: Seq<Seq<char>>, q: Seq<char>) -> Option<Seq<char>>
    decreases ls.len(),
{
    if ls.len() == 0 {
        None
    } else if has_sub(ls[0], q) {
        Some(ls[0])
    } else {
        first_line_with(ls.drop_first(), q)
    }
}

/// The hit of a search for `q` in chapter `c`: its id, title and the first
/// line of its text (from `texts`, by chapter id) that contains `q`, trimmed.
pub open spec fn search_hit(c: ChapterMeta, texts: Seq<(String, String)>, q: Seq<char>) -> Option<(Seq<char>, Seq<char>, Seq<char>)> {
    match lookup(texts, c.id@) {
        Some(t) => match first_line_with(lines_of(t), q) {
            Some(l) => Some((c.id@, c.title@, trim(l))),
            None => None,
        },
        None => None,
    }
}

/// The hits of a search for `q` in chapters `cs`, in order.
pub open spec fn search_hits(cs: Seq<ChapterMeta>, texts: Seq<(String, String)>, q: Seq<char>) -> Seq<(Seq<char>, Seq<char>, Seq<char>)>
    decreases cs.len(),
{
    if cs.len() == 0 {
        Seq::empty()
    } else {
        match search_hit(cs.last(), texts, q) {
            Some(h) => search_hits(cs.drop_last(), texts, q).push(h),
            None => search_hits(cs.drop_last(), texts, q),
        }
    }
}

/// The views of a sequence of string triples.
pub open spec fn triple_views(v: Seq<(String, String, String)>) -> Seq<(Seq<char>, Seq<char>, Seq<char>)> {
    Seq::new(v.len(), |i: int| (v[i].0@, v[i].1@, v[i].2@))
}

fn first_line_containing(text: &str, q: &Vec<char>) -> (r: Option<String>)
    ensures
        match first_line_with(lines_of(text@), q@) {
            Some(l) => r matches Some(s) && s@ == trim(l),
            None => r is None,
        },
{
    let cs = to_chars(text);
    let ls = split_lines(&cs);
    let ghost lv = char_views(ls@);
    let mut j: usize = 0;
    assert(lv.skip(0) =~= lv);
    while j < ls.len()
        invariant
            j <= ls@.len(),
            lv == char_views(ls@),
            lv == lines_of(text@),
            first_line_with(lv, q@) == first_line_with(lv.skip(j as int), q@),
        decreases ls.len() - j,
    {
        assert(lv.skip(j as int)[0] == ls@[j as int]@);
        assert(lv.skip(j as int).drop_first() =~= lv.skip(j + 1));
        if contains_chars(&ls[j], q) {
            let t = trim_chars(&ls[j]);
            return Some(string_from(&t));
        }
        j = j + 1;
    }
    assert(lv.skip(j as int).len() == 0);
    None
}

/// A search through all chapters: for each chapter in reading order whose
/// text (from `texts`, by chapter id) has a line containing the trimmed
/// `query`, its id, its title and the first such line, trimmed. A blank query
/// finds nothing.
pub fn search_chapters(novel: &Novel, texts: &[(String, String)], query: &str) -> (r: Vec<(String, String, String)>)
    ensures
        triple_views(r@) == if trim(query@).len() == 0 {
            Seq::empty()
        } else {
            search_hits(all_chapters(novel.volumes@), texts@, trim(query@))
        },
{
    let mut out: Vec<(String, String, String)> = Vec::new();
    let qs = trim_string(query);
    if qs.as_str().is_empty() {
        assert(triple_views(out@) =~= Seq::empty());
        return out;
    }
    let q = to_chars(qs.as_str());
    let cs = novel.chapters_all();
    let ghost all = all_chapters(novel.volumes@);
    let mut i: usize = 0;
    assert(triple_views(out@) =~= search_hits(all.take(0), texts@, q@));
    while i < cs.len()
        invariant
            cs@.len() == all.len(),
            forall|k: int| 0 <= k < cs@.len() ==> *cs@[k] == all[k],
            i <= cs@.len(),
            q@ == trim(query@),
            triple_views(out@) == search_hits(all.take(i as int), texts@, q@),
        decreases cs.len() - i,
    {
        let c = cs[i];
        proof {
            assert(all.take(i + 1).drop_last() =~= all.take(i as int));
            assert(all.take(i + 1).last() == *c);
        }
        let ghost before = triple_views(out@);
        if let Some(t) = table_get(texts, c.id.as_str()) {
            if let Some(line) = first_line_containing(t.as_str(), &q) {
                out.push((c.id.clone(), c.title.clone(), line));
                assert(triple_views(out@) =~= before.push((c.id@, c.title@, out@.last().2@)));
            }
        }
        i = i + 1;
    }
    assert(all.take(cs@.len() as int) =~= all);
    out
}

// ---------------------------------------------------------------------------
// Writing statistics
// ---------------------------------------------------------------------------

/// The words recorded in a statistics table, all days together.
pub open spec fn stats_sum(stats: Seq<(String, u64)>) -> int
    decreases stats.len(),
{
    if stats.len() == 0 {
        0
    } else {
        stats_sum(stats.drop_last()) + stats.last().1
    }
}

proof fn lemma_stats_sum_prefix(stats: Seq<(String, u64)>, k: int)
    requires
        0 <= k <= stats.len(),
    ensures
        0 <= stats_sum(stats.take(k)) <= stats_sum(stats),
    decreases stats.len() - k,
{
    if k < stats.len() {
        lemma_stats_sum_prefix(stats, k + 1);
        assert(stats.take(k + 1).drop_last() =~= stats.take(k));
        lemma_stats_sum_nonneg(stats.take(k));
    } else {
        assert(stats.take(k) =~= stats);
        lemma_stats_sum_nonneg(stats);
    }
}

proof fn lemma_stats_sum_nonneg(stats: Seq<(String, u64)>)
    ensures
        stats_sum(stats) >= 0,
    decreases stats.len(),
{
    if stats.len() > 0 {
        lemma_stats_sum_nonneg(stats.drop_last());
    }
}

/// The words written on all recorded days together.
pub fn words_written(novel: &Novel) -> (n: u64)
    requires
        stats_sum(novel.stats@) <= u64::MAX,
    ensures
        n == stats_sum(novel.stats@),
{
    let mut n: u64 = 0;
    let mut k: usize = 0;
    while k < novel.stats.len()
        invariant
            k <= novel.stats@.len(),
            stats_sum(novel.stats@) <= u64::MAX,
            n == stats_sum(novel.stats@.take(k as int)),
        decreases novel.stats.len() - k,
    {
        proof {
            assert(novel.stats@.take(k + 1).drop_last() =~= novel.stats@.take(k as int));
            lemma_stats_sum_prefix(novel.stats@, k + 1);
        }
        n = n + novel.stats[k].1;
        k = k + 1;
    }
    assert(novel.stats@.take(novel.stats@.len() as int) =~= novel.stats@);
    n
}

/// The words of each volume, in order.
pub fn volume_totals(novel: &Novel) -> (r: Vec<u64>)
    requires
        forall|i: int| 0 <= i < novel.volumes@.len() ==> chapter_words(#[trigger] novel.volumes@[i].chapters@) <= u64::MAX,
    ensures
        r@.len() == novel.volumes@.len(),
        forall|i: int| 0 <= i < r@.len() ==> r@[i] == chapter_words(#[trigger] novel.volumes@[i].chapters@),
{
    let mut r: Vec<u64> = Vec::new();
    let mut i: usize = 0;
    while i < novel.volumes.len()
        invariant
            i <= novel.volumes@.len(),
            forall|j: int| 0 <= j < novel.volumes@.len() ==> chapter_words(#[trigger] novel.volumes@[j].chapters@) <= u64::MAX,
            r@.len() == i,
            forall|j: int| 0 <= j < i ==> r@[j] == chapter_words(#[trigger] novel.volumes@[j].chapters@),
        decreases novel.volumes.len() - i,
    {
        let cs = &novel.volumes[i].chapters;
        let mut n: u64 = 0;
        let mut k: usize = 0;
        assert(novel.volumes@[i as int].chapters@ == cs@);
        while k < cs.len()
            invariant
                k <= cs@.len(),
                chapter_words(cs@) <= u64::MAX,
                n == chapter_words(cs@.take(k as int)),
            decreases cs.len() - k,
        {
            proof {
                assert(cs@.take(k + 1).drop_last() =~= cs@.take(k as int));
                crate::model::lemma_chapter_words_concat(cs@.take(k + 1), cs@.skip(k + 1));
                assert(cs@.take(k + 1) + cs@.skip(k + 1) =~= cs@);
                crate::model::lemma_chapter_words_nonneg(cs@.skip(k + 1));
            }
            n = n + cs[k].words;
            k = k + 1;
        }
        assert(cs@.take(cs@.len() as int) =~= cs@);
        r.push(n);
        i = i + 1;
    }
    r
}

/// The words written on each of `days`, as the chart of recent days shows them.
pub fn day_entries(novel: &Novel, days: &[String]) -> (r: Vec<(String, u64)>)
    ensures
        r@.len() == days@.len(),
        forall|i: int| 0 <= i < r@.len() ==> (#[trigger] r@[i]).0@ == days@[i]@ && r@[i].1 == words_on(novel.stats@, days@[i]@),
{
    let mut r: Vec<(String, u64)> = Vec::new();
    let mut i: usize = 0;
    while i < days.len()
        invariant
            i <= days@.len(),
            r@.len() == i,
            forall|j: int| 0 <= j < i ==> (#[trigger] r@[j]).0@ == days@[j]@ && r@[j].1 == words_on(novel.stats@, days@[j]@),
        decreases days.len() - i,
    {
        let w = novel.words_on_day(days[i].as_str());
        r.push((days[i].clone(), w));
        i = i + 1;
    }
    r
}

} // verus!
