//! The outline tree: parsing an AI-written outline into volumes and chapters,
//! and finding, deleting and moving nodes.

use vstd::prelude::*;
use crate::model::OutlineNode;
use crate::text::{
    before_char, before_char_chars, first_of, has_char, push_chars, str_eq, string_from, sub_chars, to_chars,
    trim, trim_chars, trim_range,
};
use crate::util::{id_shaped, new_id};

verus! {

/// The kind of a volume node.
pub const KIND_VOLUME: &'static str = "卷";
/// The kind of a chapter node.
pub const KIND_CHAPTER: &'static str = "章";
/// The title of the volume opened for chapters listed before any volume heading.
pub const FIRST_VOLUME: &'static str = "第一卷";
/// A volume heading starts with this bracket.
pub const OPEN_BRACKET: char = '【';
/// and ends with this one.
pub const CLOSE_BRACKET: char = '】';
/// The full-width colon.
pub const WIDE_COLON: char = '：';
/// A heading without brackets is accepted up to this many characters.
pub const MAX_BARE_HEADING: usize = 12;

// ---------------------------------------------------------------------------
// Lines
// ---------------------------------------------------------------------------

/// A line without its final carriage return.
pub open spec fn strip_cr(l: Seq<char>) -> Seq<char> {
    if l.len() > 0 && l.last() == '\r' {
        l.drop_last()
    } else {
        l
    }
}

/// The finished lines and the current line after reading `s`.
pub open spec fn line_state(s: Seq<char>) -> (Seq<Seq<char>>, Seq<char>)
    decreases s.len(),
{
    if s.len() == 0 {
        (Seq::empty(), Seq::empty())
    } else {
        let (done, cur) = line_state(s.drop_last());
        if s.last() == '\n' {
            (done.push(strip_cr(cur)), Seq::empty())
        } else {
            (done, cur.push(s.last()))
        }
    }
}

/// The lines of `s` (`str::lines`): split at `\n`, a `\r` before it removed, and
/// no empty line after a final `\n`.
pub open spec fn lines_of(s: Seq<char>) -> Seq<Seq<char>> {
    let (done, cur) = line_state(s);
    if cur.len() > 0 {
        done.push(cur)
    } else {
        done
    }
}

/// The views of a sequence of character vectors.
pub open spec fn char_views(v: Seq<Vec<char>>) -> Seq<Seq<char>> {
    Seq::new(v.len(), |i: int| v[i]@)
}

fn line_without_cr(cur: Vec<char>) -> (r: Vec<char>)
    ensures
        r@ == strip_cr(cur@),
{
    let mut cur = cur;
    if cur.len() > 0 && cur[cur.len() - 1] == '\r' {
        cur.pop();
    }
    cur
}

/// Splits `s` into its lines.
pub fn split_lines(s: &Vec<char>) -> (r: Vec<Vec<char>>)
    ensures
        char_views(r@) == lines_of(s@),
{
    let mut done: Vec<Vec<char>> = Vec::new();
    let mut cur: Vec<char> = Vec::new();
    let mut i: usize = 0;
    assert(s@.take(0) =~= Seq::<char>::empty());
    assert(char_views(done@) =~= Seq::<Seq<char>>::empty());
    while i < s.len()
        invariant
            i <= s.len(),
            (char_views(done@), cur@) == line_state(s@.take(i as int)),
        decreases s.len() - i,
    {
        assert(s@.take(i + 1).drop_last() =~= s@.take(i as int));
        assert(s@.take(i + 1).last() == s@[i as int]);
        if s[i] == '\n' {
            let line = line_without_cr(cur);
            let ghost before = done@;
            done.push(line);
            assert(char_views(done@) =~= char_views(before).push(line@));
            cur = Vec::new();
            assert(cur@ =~= Seq::<char>::empty());
        } else {
            cur.push(s[i]);
        }
        i = i + 1;
    }
    assert(s@.take(s.len() as int) =~= s@);
    if cur.len() > 0 {
        let ghost before = done@;
        done.push(cur);
        assert(char_views(done@) =~= char_views(before).push(cur@));
    }
    done
}

// ---------------------------------------------------------------------------
// Pieces of a line
// ---------------------------------------------------------------------------

/// `s` without its leading copies of `c` (`trim_start_matches(c)`).
pub open spec fn strip_lead(s: Seq<char>, c: char) -> Seq<char>
    decreases s.len(),
{
    if s.len() > 0 && s[0] == c {
        strip_lead(s.drop_first(), c)
    } else {
        s
    }
}

/// A bullet mark: `-`, `*` or a space.
pub open spec fn is_mark(c: char) -> bool {
    c == '-' || c == '*' || c == ' '
}

/// `s` without its leading bullet marks.
pub open spec fn strip_marks(s: Seq<char>) -> Seq<char>
    decreases s.len(),
{
    if s.len() > 0 && is_mark(s[0]) {
        strip_marks(s.drop_first())
    } else {
        s
    }
}

/// The position of the first colon, full-width or ASCII.
pub open spec fn first_colon(s: Seq<char>) -> Option<nat>
    decreases s.len(),
{
    if s.len() == 0 {
        None
    } else if s[0] == WIDE_COLON || s[0] == ':' {
        Some(0)
    } else {
        match first_colon(s.drop_first()) {
            Some(k) => Some(k + 1),
            None => None,
        }
    }
}

/// A bullet line's body split at its first colon into (title, content), both
/// trimmed; without a colon, the body is the title and the content is empty.
pub open spec fn split_item(body: Seq<char>) -> (Seq<char>, Seq<char>) {
    match first_colon(body) {
        Some(k) => (trim(body.take(k as int)), trim(body.skip(k + 1 as int))),
        None => (body, Seq::empty()),
    }
}

fn strip_lead_vec(v: &Vec<char>, c: char) -> (r: Vec<char>)
    ensures
        r@ == strip_lead(v@, c),
{
    let mut i: usize = 0;
    assert(v@.skip(0) =~= v@);
    while i < v.len() && v[i] == c
        invariant
            i <= v.len(),
            strip_lead(v@, c) == strip_lead(v@.skip(i as int), c),
        decreases v.len() - i,
    {
        assert(v@.skip(i as int).drop_first() =~= v@.skip(i + 1));
        i = i + 1;
    }
    let r = sub_chars(v, i, v.len());
    assert(r@ =~= v@.skip(i as int));
    r
}

fn strip_marks_vec(v: &Vec<char>) -> (r: Vec<char>)
    ensures
        r@ == strip_marks(v@),
{
    let mut i: usize = 0;
    assert(v@.skip(0) =~= v@);
    while i < v.len() && (v[i] == '-' || v[i] == '*' || v[i] == ' ')
        invariant
            i <= v.len(),
            strip_marks(v@) == strip_marks(v@.skip(i as int)),
        decreases v.len() - i,
    {
        assert(v@.skip(i as int).drop_first() =~= v@.skip(i + 1));
        i = i + 1;
    }
    let r = sub_chars(v, i, v.len());
    assert(r@ =~= v@.skip(i as int));
    r
}

fn find_colon(v: &Vec<char>) -> (r: Option<usize>)
    ensures
        match first_colon(v@) {
            Some(k) => r == Some(k as usize) && k < v.len(),
            None => r is None,
        },
{
    let mut i: usize = 0;
    assert(v@.skip(0) =~= v@);
    while i < v.len()
        invariant
            i <= v.len(),
            first_colon(v@) == match first_colon(v@.skip(i as int)) {
                Some(k) => Some((k + i) as nat),
                None => None,
            },
            forall|j: int| 0 <= j < i ==> v@[j] != WIDE_COLON && v@[j] != ':',
        decreases v.len() - i,
    {
        assert(v@.skip(i as int)[0] == v@[i as int]);
        assert(v@.skip(i as int).drop_first() =~= v@.skip(i + 1));
        if v[i] == WIDE_COLON || v[i] == ':' {
            return Some(i);
        }
        i = i + 1;
    }
    None
}

fn split_item_vec(body: &Vec<char>) -> (r: (Vec<char>, Vec<char>))
    ensures
        (r.0@, r.1@) == split_item(body@),
{
    match find_colon(body) {
        Some(k) => {
            let t = trim_range(body, 0, k);
            let c = trim_range(body, k + 1, body.len());
            assert(body@.subrange(0, k as int) =~= body@.take(k as int));
            assert(body@.subrange(k + 1, body.len() as int) =~= body@.skip(k + 1));
            (t, c)
        },
        None => {
            let t = sub_chars(body, 0, body.len());
            assert(t@ =~= body@);
            let c: Vec<char> = Vec::new();
            assert(c@ =~= Seq::<char>::empty());
            (t, c)
        },
    }
}

// ---------------------------------------------------------------------------
// The parse, as a fold over lines
// ---------------------------------------------------------------------------

/// A parsed volume: its title and its chapters as (title, content).
pub type VolPlan = (Seq<char>, Seq<(Seq<char>, Seq<char>)>);

/// The parse state: the volumes so far and the volume receiving chapters.
pub type ParseState = (Seq<VolPlan>, Option<nat>);

/// A new volume `title` that becomes the current one.
pub open spec fn open_volume(st: ParseState, title: Seq<char>) -> ParseState {
    (st.0.push((title, Seq::empty())), Some(st.0.len()))
}

/// Reads one line of an outline.
pub open spec fn parse_step(st: ParseState, raw: Seq<char>) -> ParseState {
    let line = trim(raw);
    let (vols, cur) = st;
    if line.len() == 0 {
        st
    } else if line[0] == OPEN_BRACKET {
        let title = trim(before_char(strip_lead(line, OPEN_BRACKET), CLOSE_BRACKET));
        if title.len() > 0 {
            open_volume(st, title)
        } else {
            st
        }
    } else if line[0] == '-' || line[0] == '*' {
        let (title, content) = split_item(trim(strip_marks(line)));
        if title.len() == 0 {
            st
        } else {
            match cur {
                Some(vi) => (
                    vols.update(vi as int, (vols[vi as int].0, vols[vi as int].1.push((title, content)))),
                    cur,
                ),
                None => (vols.push((FIRST_VOLUME@, seq![(title, content)])), Some(vols.len())),
            }
        }
    } else if first_of(line, WIDE_COLON) is Some || first_of(line, ':') is Some {
        let title = trim(before_char(line, WIDE_COLON));
        if title.len() > 0 && title.len() <= MAX_BARE_HEADING {
            open_volume(st, title)
        } else {
            st
        }
    } else {
        match cur {
            Some(vi) => if vols[vi as int].1.len() > 0 {
                let items = vols[vi as int].1;
                let last = items.last();
                (
                    vols.update(
                        vi as int,
                        (vols[vi as int].0, items.update(items.len() - 1, (last.0, last.1 + seq![' '] + line))),
                    ),
                    cur,
                )
            } else {
                st
            },
            None => st,
        }
    }
}

/// The state after reading `ls`.
pub open spec fn parse_lines(ls: Seq<Seq<char>>) -> ParseState
    decreases ls.len(),
{
    if ls.len() == 0 {
        (Seq::empty(), None)
    } else {
        parse_step(parse_lines(ls.drop_last()), ls.last())
    }
}

/// The volumes and chapters that an outline text describes.
pub open spec fn outline_plan(text: Seq<char>) -> Seq<VolPlan> {
    parse_lines(lines_of(text)).0
}

/// The number of chapters in a plan.
pub open spec fn plan_chapters(plan: Seq<VolPlan>) -> nat
    decreases plan.len(),
{
    if plan.len() == 0 {
        0
    } else {
        plan_chapters(plan.drop_last()) + plan.last().1.len()
    }
}

/// A chapter line: once trimmed it starts with `-` or `*`, and its body (the
/// marks taken off) has a non-empty title before any colon.
pub open spec fn is_chapter_line(raw: Seq<char>) -> bool {
    let line = trim(raw);
    &&& line.len() > 0
    &&& (line[0] == '-' || line[0] == '*')
    &&& split_item(trim(strip_marks(line))).0.len() > 0
}

/// How many of `ls` are chapter lines.
pub open spec fn chapter_lines(ls: Seq<Seq<char>>) -> nat
    decreases ls.len(),
{
    if ls.len() == 0 {
        0
    } else {
        chapter_lines(ls.drop_last()) + if is_chapter_line(ls.last()) { 1nat } else { 0nat }
    }
}

proof fn lemma_plan_chapters_update(plan: Seq<VolPlan>, vi: int, v: VolPlan)
    requires
        0 <= vi < plan.len(),
    ensures
        plan_chapters(plan.update(vi, v)) == plan_chapters(plan) - plan[vi].1.len() + v.1.len(),
    decreases plan.len(),
{
    let np = plan.update(vi, v);
    if vi == plan.len() - 1 {
        assert(np.drop_last() =~= plan.drop_last());
    } else {
        lemma_plan_chapters_update(plan.drop_last(), vi, v);
        assert(np.drop_last() =~= plan.drop_last().update(vi, v));
    }
}

proof fn lemma_parse_counts(ls: Seq<Seq<char>>)
    ensures
        plan_chapters(parse_lines(ls).0) == chapter_lines(ls),
        parse_lines(ls).1 matches Some(vi) ==> vi < parse_lines(ls).0.len(),
    decreases ls.len(),
{
    if ls.len() > 0 {
        lemma_parse_counts(ls.drop_last());
        let st = parse_lines(ls.drop_last());
        let raw = ls.last();
        let line = trim(raw);
        let (vols, cur) = st;
        if line.len() == 0 {
        } else if line[0] == OPEN_BRACKET {
            let title = trim(before_char(strip_lead(line, OPEN_BRACKET), CLOSE_BRACKET));
            if title.len() > 0 {
                assert(vols.push((title, Seq::empty())).drop_last() =~= vols);
            }
        } else if line[0] == '-' || line[0] == '*' {
            let (title, content) = split_item(trim(strip_marks(line)));
            if title.len() > 0 {
                match cur {
                    Some(vi) => {
                        lemma_plan_chapters_update(
                            vols,
                            vi as int,
                            (vols[vi as int].0, vols[vi as int].1.push((title, content))),
                        );
                    },
                    None => {
                        assert(vols.push((FIRST_VOLUME@, seq![(title, content)])).drop_last() =~= vols);
                    },
                }
            }
        } else if first_of(line, WIDE_COLON) is Some || first_of(line, ':') is Some {
            let title = trim(before_char(line, WIDE_COLON));
            if title.len() > 0 && title.len() <= MAX_BARE_HEADING {
                assert(vols.push((title, Seq::empty())).drop_last() =~= vols);
            }
        } else {
            match cur {
                Some(vi) => if vols[vi as int].1.len() > 0 {
                    let items = vols[vi as int].1;
                    let last = items.last();
                    lemma_plan_chapters_update(
                        vols,
                        vi as int,
                        (vols[vi as int].0, items.update(items.len() - 1, (last.0, last.1 + seq![' '] + line))),
                    );
                },
                None => {},
            }
        }
    }
}

/// Every chapter line of an outline becomes a chapter, whether or not a
/// volume heading came before it (the first ones then go into a
/// [`FIRST_VOLUME`]), and no other line makes one: the parsed plan holds as
/// many chapters as the text has chapter lines.
pub proof fn law_every_chapter_line_is_kept(text: Seq<char>)
    ensures
        plan_chapters(outline_plan(text)) == chapter_lines(lines_of(text)),
{
    lemma_parse_counts(lines_of(text));
}

/// A chapter line read while no volume is open opens a [`FIRST_VOLUME`]
/// holding that chapter.
pub proof fn law_chapter_before_any_volume(raw: Seq<char>)
    requires
        is_chapter_line(raw),
    ensures
        parse_step((Seq::empty(), None), raw).0 == seq![
            (FIRST_VOLUME@, seq![split_item(trim(strip_marks(trim(raw))))]),
        ],
{
    assert(trim(raw)[0] != OPEN_BRACKET);
    assert(Seq::<VolPlan>::empty().push((FIRST_VOLUME@, seq![split_item(trim(strip_marks(trim(raw))))])) =~= seq![
        (FIRST_VOLUME@, seq![split_item(trim(strip_marks(trim(raw))))]),
    ]);
}

/// `nodes` are the volume nodes of `plan`, each holding its chapter nodes.
pub open spec fn nodes_follow_plan(nodes: Seq<OutlineNode>, plan: Seq<VolPlan>) -> bool {
    &&& nodes.len() == plan.len()
    &&& forall|i: int|
        0 <= i < plan.len() ==> {
            let n = #[trigger] nodes[i];
            &&& n.title@ == plan[i].0
            &&& n.kind@ == KIND_VOLUME@
            &&& n.content@.len() == 0
            &&& id_shaped(n.id@)
            &&& n.children@.len() == plan[i].1.len()
            &&& forall|j: int|
                0 <= j < plan[i].1.len() ==> {
                    let c = #[trigger] n.children@[j];
                    &&& c.title@ == plan[i].1[j].0
                    &&& c.content@ == plan[i].1[j].1
                    &&& c.kind@ == KIND_CHAPTER@
                    &&& id_shaped(c.id@)
                    &&& c.children@.len() == 0
                }
        }
}

struct ItemDraft {
    title: Vec<char>,
    content: Vec<char>,
}

struct VolDraft {
    title: Vec<char>,
    items: Vec<ItemDraft>,
}

spec fn draft_items(v: Seq<ItemDraft>) -> Seq<(Seq<char>, Seq<char>)> {
    Seq::new(v.len(), |i: int| (v[i].title@, v[i].content@))
}

spec fn draft_plan(v: Seq<VolDraft>) -> Seq<VolPlan> {
    Seq::new(v.len(), |i: int| (v[i].title@, draft_items(v[i].items@)))
}

proof fn lemma_parse_cur(ls: Seq<Seq<char>>)
    ensures
        parse_lines(ls).1 matches Some(vi) ==> vi < parse_lines(ls).0.len(),
    decreases ls.len(),
{
    if ls.len() > 0 {
        lemma_parse_cur(ls.drop_last());
    }
}

fn chars_of_str(s: &str) -> (v: Vec<char>)
    ensures
        v@ == s@,
{
    to_chars(s)
}

fn parse_line(vols: &mut Vec<VolDraft>, cur: &mut Option<usize>, raw: &Vec<char>)
    requires
        *old(cur) matches Some(vi) ==> vi < old(vols).len(),
    ensures
        *final(cur) matches Some(vi) ==> vi < final(vols).len(),
        (draft_plan(final(vols)@), match *final(cur) {
            Some(v) => Some(v as nat),
            None => None,
        }) == parse_step(
            (draft_plan(old(vols)@), match *old(cur) {
                Some(v) => Some(v as nat),
                None => None,
            }),
            raw@,
        ),
{
    let ghost st: ParseState = (draft_plan(vols@), match *cur {
        Some(v) => Some(v as nat),
        None => None,
    });
    let line = trim_chars(raw);
    if line.len() == 0 {
        return;
    }
    if line[0] == OPEN_BRACKET {
        let stripped = strip_lead_vec(&line, OPEN_BRACKET);
        let inner = before_char_chars(&stripped, CLOSE_BRACKET);
        let title = trim_chars(&inner);
        if title.len() > 0 {
            let ghost before = vols@;
            vols.push(VolDraft { title, items: Vec::new() });
            *cur = Some(vols.len() - 1);
            assert(draft_items(Seq::<ItemDraft>::empty()) =~= Seq::empty());
            assert(draft_plan(vols@) =~= draft_plan(before).push((title@, Seq::empty())));
        }
    } else if line[0] == '-' || line[0] == '*' {
        let marks = strip_marks_vec(&line);
        let body = trim_chars(&marks);
        let (title, content) = split_item_vec(&body);
        if title.len() == 0 {
            return;
        }
        let ghost item = (title@, content@);
        match *cur {
            Some(vi) => {
                let ghost before = vols@;
                let ghost before_items = vols@[vi as int].items@;
                vols[vi].items.push(ItemDraft { title, content });
                assert(draft_items(vols@[vi as int].items@) =~= draft_items(before_items).push(item));
                assert(draft_plan(vols@) =~= draft_plan(before).update(
                    vi as int,
                    (draft_plan(before)[vi as int].0, draft_plan(before)[vi as int].1.push(item)),
                ));
            },
            None => {
                let ghost before = vols@;
                let mut items: Vec<ItemDraft> = Vec::new();
                items.push(ItemDraft { title, content });
                let name = chars_of_str(FIRST_VOLUME);
                vols.push(VolDraft { title: name, items });
                *cur = Some(vols.len() - 1);
                assert(draft_items(items@) =~= seq![item]);
                assert(draft_plan(vols@) =~= draft_plan(before).push((FIRST_VOLUME@, seq![item])));
            },
        }
    } else if has_char(&line, WIDE_COLON) || has_char(&line, ':') {
        let head = before_char_chars(&line, WIDE_COLON);
        let title = trim_chars(&head);
        if title.len() > 0 && title.len() <= MAX_BARE_HEADING {
            let ghost before = vols@;
            vols.push(VolDraft { title, items: Vec::new() });
            *cur = Some(vols.len() - 1);
            assert(draft_items(Seq::<ItemDraft>::empty()) =~= Seq::empty());
            assert(draft_plan(vols@) =~= draft_plan(before).push((title@, Seq::empty())));
        }
    } else {
        match *cur {
            Some(vi) => {
                if vols[vi].items.len() > 0 {
                    let ghost before = vols@;
                    let ghost before_items = vols@[vi as int].items@;
                    let li = vols[vi].items.len() - 1;
                    let ghost old_content = vols@[vi as int].items@[li as int].content@;
                    vols[vi].items[li].content.push(' ');
                    push_chars(&mut vols[vi].items[li].content, &line);
                    let ghost items = draft_items(before_items);
                    assert(vols@[vi as int].items@[li as int].content@ =~= old_content + seq![' '] + line@);
                    assert(draft_items(vols@[vi as int].items@) =~= items.update(
                        li as int,
                        (items.last().0, items.last().1 + seq![' '] + line@),
                    ));
                    assert(draft_plan(vols@) =~= draft_plan(before).update(
                        vi as int,
                        (draft_plan(before)[vi as int].0, draft_plan(vols@)[vi as int].1),
                    ));
                }
            },
            None => {},
        }
    }
}

fn node_of(title: &Vec<char>, kind: &str, content: &Vec<char>, children: Vec<OutlineNode>) -> (n: OutlineNode)
    ensures
        n.title@ == title@,
        n.kind@ == kind@,
        n.content@ == content@,
        n.children == children,
        id_shaped(n.id@),
{
    OutlineNode {
        id: new_id(),
        title: string_from(title),
        kind: kind.to_owned(),
        content: string_from(content),
        children,
    }
}

/// Parses an AI-written outline into a tree of volumes and chapters.
///
/// Lines are trimmed and blank ones skipped. `【title】` opens a volume; a line
/// starting with `-` or `*` is a chapter `title：content` (full-width or ASCII
/// colon) of the current volume, opening a [`FIRST_VOLUME`] when there is none;
/// another line with a colon opens a volume named by what precedes its
/// full-width colon, when that is 1 to [`MAX_BARE_HEADING`] characters long; any
/// other line is appended, after a space, to the content of the current
/// volume's last chapter.
pub fn parse_outline(text: &str) -> (r: Vec<OutlineNode>)
    ensures
        nodes_follow_plan(r@, outline_plan(text@)),
{
    let chars = to_chars(text);
    let lines = split_lines(&chars);
    let mut vols: Vec<VolDraft> = Vec::new();
    let mut cur: Option<usize> = None;
    let ghost ls = char_views(lines@);
    let mut i: usize = 0;
    assert(ls.take(0) =~= Seq::<Seq<char>>::empty());
    assert(draft_plan(vols@) =~= Seq::<VolPlan>::empty());
    while i < lines.len()
        invariant
            i <= lines.len(),
            ls == char_views(lines@),
            cur matches Some(vi) ==> vi < vols.len(),
            (draft_plan(vols@), match cur {
                Some(v) => Some(v as nat),
                None => None,
            }) == parse_lines(ls.take(i as int)),
        decreases lines.len() - i,
    {
        assert(ls.take(i + 1).drop_last() =~= ls.take(i as int));
        assert(ls.take(i + 1).last() == lines@[i as int]@);
        parse_line(&mut vols, &mut cur, &lines[i]);
        i = i + 1;
    }
    assert(ls.take(lines.len() as int) =~= ls);
    let ghost plan = draft_plan(vols@);
    let mut out: Vec<OutlineNode> = Vec::new();
    let mut k: usize = 0;
    while k < vols.len()
        invariant
            k <= vols.len(),
            plan == draft_plan(vols@),
            out@.len() == k,
            forall|i: int| 0 <= i < k ==> {
                let n = #[trigger] out@[i];
                &&& n.title@ == plan[i].0
                &&& n.kind@ == KIND_VOLUME@
                &&& n.content@.len() == 0
                &&& id_shaped(n.id@)
                &&& n.children@.len() == plan[i].1.len()
                &&& forall|j: int|
                    0 <= j < plan[i].1.len() ==> {
                        let c = #[trigger] n.children@[j];
                        &&& c.title@ == plan[i].1[j].0
                        &&& c.content@ == plan[i].1[j].1
                        &&& c.kind@ == KIND_CHAPTER@
                        &&& id_shaped(c.id@)
                        &&& c.children@.len() == 0
                    }
            },
        decreases vols.len() - k,
    {
        let v = &vols[k];
        let mut children: Vec<OutlineNode> = Vec::new();
        let mut j: usize = 0;
        while j < v.items.len()
            invariant
                j <= v.items.len(),
                children@.len() == j,
                forall|m: int| 0 <= m < j ==> {
                    let c = #[trigger] children@[m];
                    &&& c.title@ == v.items@[m].title@
                    &&& c.content@ == v.items@[m].content@
                    &&& c.kind@ == KIND_CHAPTER@
                    &&& id_shaped(c.id@)
                    &&& c.children@.len() == 0
                },
            decreases v.items.len() - j,
        {
            let item = &v.items[j];
            let c = node_of(&item.title, KIND_CHAPTER, &item.content, Vec::new());
            children.push(c);
            j = j + 1;
        }
        let empty: Vec<char> = Vec::new();
        let node = node_of(&v.title, KIND_VOLUME, &empty, children);
        out.push(node);
        k = k + 1;
    }
    out
}

} // verus!

verus! {

// ---------------------------------------------------------------------------
// Tree views
// ---------------------------------------------------------------------------

/// The value of an outline node: its texts and the values of its children.
pub struct NodeView {
    pub id: Seq<char>,
    pub title: Seq<char>,
    pub kind: Seq<char>,
    pub content: Seq<char>,
    pub children: Seq<NodeView>,
}

/// The value of node `n`.
pub open spec fn node_view(n: OutlineNode) -> NodeView
    decreases n,
{
    NodeView {
        id: n.id@,
        title: n.title@,
        kind: n.kind@,
        content: n.content@,
        children: nodes_view(n.children@),
    }
}

/// The values of nodes `ns`.
pub open spec fn nodes_view(ns: Seq<OutlineNode>) -> Seq<NodeView>
    decreases ns,
{
    if ns.len() == 0 {
        Seq::empty()
    } else {
        nodes_view(ns.drop_last()).push(node_view(ns.last()))
    }
}

pub proof fn lemma_nodes_view(ns: Seq<OutlineNode>)
    ensures
        nodes_view(ns).len() == ns.len(),
        forall|i: int| 0 <= i < ns.len() ==> #[trigger] nodes_view(ns)[i] == node_view(ns[i]),
    decreases ns.len(),
{
    if ns.len() > 0 {
        lemma_nodes_view(ns.drop_last());
        assert forall|i: int| 0 <= i < ns.len() implies #[trigger] nodes_view(ns)[i] == node_view(ns[i]) by {
            if i < ns.len() - 1 {
                assert(ns.drop_last()[i] == ns[i]);
            }
        }
    }
}

/// Replacing one node replaces its value.
pub proof fn lemma_nodes_view_update(s: Seq<OutlineNode>)
    ensures
        forall|i: int, y: OutlineNode|
            0 <= i < s.len() ==> #[trigger] nodes_view(s.update(i, y)) == nodes_view(s).update(i, node_view(y)),
{
    assert forall|i: int, y: OutlineNode|
        0 <= i < s.len() implies #[trigger] nodes_view(s.update(i, y)) == nodes_view(s).update(i, node_view(y)) by {
        lemma_nodes_view(s);
        lemma_nodes_view(s.update(i, y));
        assert(nodes_view(s.update(i, y)) =~= nodes_view(s).update(i, node_view(y)));
    }
}

/// `v` with children `c`.
pub open spec fn with_children(v: NodeView, c: Seq<NodeView>) -> NodeView {
    NodeView { id: v.id, title: v.title, kind: v.kind, content: v.content, children: c }
}

/// The ids of a sequence of node values.
pub open spec fn view_ids(ns: Seq<NodeView>) -> Seq<Seq<char>> {
    Seq::new(ns.len(), |i: int| ns[i].id)
}

// ---------------------------------------------------------------------------
// Finding a node (pre-order)
// ---------------------------------------------------------------------------

/// The first node with id `id` in pre-order.
pub open spec fn find_v(ns: Seq<NodeView>, id: Seq<char>) -> Option<NodeView>
    decreases ns,
{
    if ns.len() == 0 {
        None
    } else if ns[0].id == id {
        Some(ns[0])
    } else {
        match find_v(ns[0].children, id) {
            Some(x) => Some(x),
            None => find_v(ns.drop_first(), id),
        }
    }
}

/// `ns` with the first node with id `id` (in pre-order) replaced by `new`.
pub open spec fn edit_v(ns: Seq<NodeView>, id: Seq<char>, new: NodeView) -> Seq<NodeView>
    decreases ns,
{
    if ns.len() == 0 {
        ns
    } else if ns[0].id == id {
        ns.update(0, new)
    } else if find_v(ns[0].children, id) is Some {
        ns.update(0, with_children(ns[0], edit_v(ns[0].children, id, new)))
    } else {
        seq![ns[0]] + edit_v(ns.drop_first(), id, new)
    }
}

/// Node `v` and its subtree do not hold `id`.
pub open spec fn misses(v: NodeView, id: Seq<char>) -> bool {
    v.id != id && find_v(v.children, id) is None
}

proof fn lemma_find_skip(ns: Seq<NodeView>, id: Seq<char>, i: int)
    requires
        0 <= i <= ns.len(),
        forall|j: int| 0 <= j < i ==> misses(#[trigger] ns[j], id),
    ensures
        find_v(ns, id) == find_v(ns.skip(i), id),
        forall|new: NodeView| #[trigger] edit_v(ns, id, new) == ns.take(i) + edit_v(ns.skip(i), id, new),
    decreases i,
{
    if i == 0 {
        assert(ns.skip(0) =~= ns);
        assert forall|new: NodeView| #[trigger] edit_v(ns, id, new) == ns.take(0) + edit_v(ns.skip(0), id, new) by {
            assert(ns.take(0) + edit_v(ns, id, new) =~= edit_v(ns, id, new));
        }
    } else {
        let rest = ns.drop_first();
        assert forall|j: int| 0 <= j < i - 1 implies misses(#[trigger] rest[j], id) by {
            assert(rest[j] == ns[j + 1]);
        }
        lemma_find_skip(rest, id, i - 1);
        assert(misses(ns[0], id));
        assert(rest.skip(i - 1) =~= ns.skip(i));
        assert forall|new: NodeView| #[trigger] edit_v(ns, id, new) == ns.take(i) + edit_v(ns.skip(i), id, new) by {
            assert(edit_v(rest, id, new) == rest.take(i - 1) + edit_v(rest.skip(i - 1), id, new));
            assert(seq![ns[0]] + rest.take(i - 1) =~= ns.take(i));
            assert(edit_v(ns, id, new) == seq![ns[0]] + edit_v(rest, id, new));
            assert(seq![ns[0]] + (rest.take(i - 1) + edit_v(ns.skip(i), id, new)) =~= ns.take(i) + edit_v(ns.skip(i), id, new));
        }
    }
}

/// Whether some node of `nodes` or of their subtrees has id `id`, in pre-order:
/// the node itself.
pub fn find_outline<'a>(nodes: &'a [OutlineNode], id: &str) -> (r: Option<&'a OutlineNode>)
    ensures
        match find_v(nodes_view(nodes@), id@) {
            Some(v) => r matches Some(x) && node_view(*x) == v,
            None => r is None,
        },
    decreases nodes@,
{
    let ghost ns = nodes_view(nodes@);
    proof {
        lemma_nodes_view(nodes@);
    }
    let mut i: usize = 0;
    while i < nodes.len()
        invariant
            i <= nodes.len(),
            ns == nodes_view(nodes@),
            ns.len() == nodes@.len(),
            forall|j: int| 0 <= j < ns.len() ==> #[trigger] ns[j] == node_view(nodes@[j]),
            forall|j: int| 0 <= j < i ==> misses(#[trigger] ns[j], id@),
        decreases nodes.len() - i,
    {
        let n = &nodes[i];
        proof {
            lemma_find_skip(ns, id@, i as int);
            assert(ns.skip(i as int)[0] == ns[i as int]);
            assert(ns.skip(i as int).drop_first() =~= ns.skip(i + 1));
        }
        if str_eq_node(n, id) {
            return Some(n);
        }
        assert(decreases_to!(nodes@ => nodes@[i as int]));
        let found = find_outline(n.children.as_slice(), id);
        if found.is_some() {
            return found;
        }
        i = i + 1;
    }
    proof {
        lemma_find_skip(ns, id@, i as int);
        assert(ns.skip(i as int) =~= Seq::<NodeView>::empty());
    }
    None
}

fn str_eq_node(n: &OutlineNode, id: &str) -> (r: bool)
    ensures
        r == (n.id@ == id@),
{
    crate::text::str_eq(n.id.as_str(), id)
}

/// The first node with id `id` (in pre-order), for editing in place.
pub fn find_outline_mut<'a>(nodes: &'a mut Vec<OutlineNode>, id: &str) -> (r: Option<&'a mut OutlineNode>)
    ensures
        match find_v(nodes_view(old(nodes)@), id@) {
            Some(v) => r matches Some(x) && node_view(*x) == v && nodes_view(final(nodes)@) == edit_v(
                nodes_view(old(nodes)@),
                id@,
                node_view(*final(x)),
            ),
            None => r is None && *final(nodes) == *old(nodes),
        },
    decreases old(nodes)@,
{
    let ghost ns = nodes_view(nodes@);
    proof {
        lemma_nodes_view(nodes@);
    }
    let mut i: usize = 0;
    while i < nodes.len()
        invariant
            i <= nodes.len(),
            *nodes == *old(nodes),
            ns == nodes_view(nodes@),
            ns.len() == nodes@.len(),
            forall|j: int| 0 <= j < ns.len() ==> #[trigger] ns[j] == node_view(nodes@[j]),
            forall|j: int| 0 <= j < i ==> misses(#[trigger] ns[j], id@),
        decreases nodes.len() - i,
    {
        proof {
            lemma_find_skip(ns, id@, i as int);
            assert(ns.skip(i as int)[0] == ns[i as int]);
            assert(ns.skip(i as int).drop_first() =~= ns.skip(i + 1));
        }
        if str_eq_node(&nodes[i], id) {
            let ghost pre = nodes@;
            proof {
                lemma_nodes_view_update(nodes@);
            }
            let r = &mut nodes[i];
            proof {
                assert forall|new: NodeView| #[trigger] edit_v(ns, id@, new) == ns.update(i as int, new) by {
                    let t = ns.skip(i as int);
                    assert(edit_v(t, id@, new) == t.update(0, new));
                    assert(ns.take(i as int) + t.update(0, new) =~= ns.update(i as int, new));
                }
            }
            return Some(r);
        }
        let hit = find_outline(nodes[i].children.as_slice(), id).is_some();
        if hit {
            assert(decreases_to!(old(nodes)@ => old(nodes)@[i as int]));
            proof {
                lemma_nodes_view_update(nodes@);
                let t = ns.skip(i as int);
                assert(t[0] == ns[i as int]);
                assert(ns[i as int].children == nodes_view(old(nodes)@[i as int].children@));
                assert forall|new: NodeView| #[trigger] edit_v(ns, id@, new) == ns.update(
                    i as int,
                    with_children(ns[i as int], edit_v(ns[i as int].children, id@, new)),
                ) by {
                    assert(edit_v(t, id@, new) == t.update(0, with_children(t[0], edit_v(t[0].children, id@, new))));
                    assert(ns.take(i as int) + t.update(0, with_children(t[0], edit_v(t[0].children, id@, new)))
                        =~= ns.update(i as int, with_children(ns[i as int], edit_v(ns[i as int].children, id@, new))));
                }
            }
            let r = find_outline_mut(&mut nodes[i].children, id);
            return r;
        }
        i = i + 1;
    }
    proof {
        lemma_find_skip(ns, id@, i as int);
        assert(ns.skip(i as int) =~= Seq::<NodeView>::empty());
    }
    None
}

} // verus!

verus! {

// ---------------------------------------------------------------------------
// Deleting and moving nodes
// ---------------------------------------------------------------------------

/// Deletes the node with id `id`: at this level the first such node, else the
/// first deletion that succeeds in the subtrees, in order. `None` when no node
/// has that id.
pub open spec fn del_v(ns: Seq<NodeView>, id: Seq<char>) -> Option<Seq<NodeView>>
    decreases ns, 1nat,
{
    match first_key_v(view_ids(ns), id) {
        Some(k) => Some(ns.remove(k as int)),
        None => del_kids(ns, id),
    }
}

/// Deletes `id` in the subtrees of `ns`, trying them in order.
pub open spec fn del_kids(ns: Seq<NodeView>, id: Seq<char>) -> Option<Seq<NodeView>>
    decreases ns, 0nat,
{
    if ns.len() == 0 {
        None
    } else {
        match del_v(ns[0].children, id) {
            Some(c) => Some(ns.update(0, with_children(ns[0], c))),
            None => match del_kids(ns.drop_first(), id) {
                Some(rest) => Some(seq![ns[0]] + rest),
                None => None,
            },
        }
    }
}

/// The position of the first key equal to `id`.
pub open spec fn first_key_v(keys: Seq<Seq<char>>, id: Seq<char>) -> Option<nat> {
    crate::model::first_key(keys, id)
}

/// Moves the node with id `id` by `delta` places among its siblings: at this
/// level the first such node when its new place is within bounds, else the first
/// move that succeeds in the subtrees, in order. `None` when nothing moved.
pub open spec fn move_v(ns: Seq<NodeView>, id: Seq<char>, delta: int) -> Option<Seq<NodeView>>
    decreases ns, 1nat,
{
    match first_key_v(view_ids(ns), id) {
        Some(k) => if 0 <= k + delta < ns.len() {
            Some(ns.remove(k as int).insert(k + delta, ns[k as int]))
        } else {
            move_kids(ns, id, delta)
        },
        None => move_kids(ns, id, delta),
    }
}

/// Moves `id` in the subtrees of `ns`, trying them in order.
pub open spec fn move_kids(ns: Seq<NodeView>, id: Seq<char>, delta: int) -> Option<Seq<NodeView>>
    decreases ns, 0nat,
{
    if ns.len() == 0 {
        None
    } else {
        match move_v(ns[0].children, id, delta) {
            Some(c) => Some(ns.update(0, with_children(ns[0], c))),
            None => match move_kids(ns.drop_first(), id, delta) {
                Some(rest) => Some(seq![ns[0]] + rest),
                None => None,
            },
        }
    }
}

fn node_position(nodes: &Vec<OutlineNode>, id: &str) -> (r: Option<usize>)
    ensures
        match r {
            Some(k) => k < nodes.len() && first_key_v(view_ids(nodes_view(nodes@)), id@) == Some(k as nat),
            None => first_key_v(view_ids(nodes_view(nodes@)), id@) is None,
        },
{
    proof {
        lemma_nodes_view(nodes@);
    }
    let ghost keys = view_ids(nodes_view(nodes@));
    let mut i: usize = 0;
    while i < nodes.len()
        invariant
            i <= nodes.len(),
            keys == view_ids(nodes_view(nodes@)),
            keys.len() == nodes@.len(),
            forall|j: int| 0 <= j < nodes@.len() ==> #[trigger] keys[j] == nodes@[j].id@,
            forall|j: int| 0 <= j < i ==> keys[j] != id@,
        decreases nodes.len() - i,
    {
        if str_eq_node(&nodes[i], id) {
            proof {
                crate::model::lemma_first_key_is(keys, id@, i as int);
            }
            return Some(i);
        }
        i = i + 1;
    }
    proof {
        crate::model::lemma_first_key(keys, id@);
    }
    None
}

proof fn lemma_kids_skip(ns: Seq<NodeView>, id: Seq<char>, i: int)
    requires
        0 <= i <= ns.len(),
        forall|j: int| 0 <= j < i ==> del_v(#[trigger] ns[j].children, id) is None,
    ensures
        del_kids(ns, id) == match del_kids(ns.skip(i), id) {
            Some(rest) => Some(ns.take(i) + rest),
            None => None::<Seq<NodeView>>,
        },
    decreases i,
{
    if i == 0 {
        assert(ns.skip(0) =~= ns);
        if let Some(rest) = del_kids(ns, id) {
            assert(ns.take(0) + rest =~= rest);
        }
    } else {
        let t = ns.drop_first();
        assert forall|j: int| 0 <= j < i - 1 implies del_v(#[trigger] t[j].children, id) is None by {
            assert(t[j] == ns[j + 1]);
        }
        lemma_kids_skip(t, id, i - 1);
        assert(t.skip(i - 1) =~= ns.skip(i));
        if let Some(rest) = del_kids(ns.skip(i), id) {
            assert(seq![ns[0]] + (t.take(i - 1) + rest) =~= ns.take(i) + rest);
        }
    }
}

proof fn lemma_move_kids_skip(ns: Seq<NodeView>, id: Seq<char>, delta: int, i: int)
    requires
        0 <= i <= ns.len(),
        forall|j: int| 0 <= j < i ==> move_v(#[trigger] ns[j].children, id, delta) is None,
    ensures
        move_kids(ns, id, delta) == match move_kids(ns.skip(i), id, delta) {
            Some(rest) => Some(ns.take(i) + rest),
            None => None::<Seq<NodeView>>,
        },
    decreases i,
{
    if i == 0 {
        assert(ns.skip(0) =~= ns);
        if let Some(rest) = move_kids(ns, id, delta) {
            assert(ns.take(0) + rest =~= rest);
        }
    } else {
        let t = ns.drop_first();
        assert forall|j: int| 0 <= j < i - 1 implies move_v(#[trigger] t[j].children, id, delta) is None by {
            assert(t[j] == ns[j + 1]);
        }
        lemma_move_kids_skip(t, id, delta, i - 1);
        assert(t.skip(i - 1) =~= ns.skip(i));
        if let Some(rest) = move_kids(ns.skip(i), id, delta) {
            assert(seq![ns[0]] + (t.take(i - 1) + rest) =~= ns.take(i) + rest);
        }
    }
}

/// Deletes the node with id `id` from the outline (see [`del_v`]); returns
/// whether a node was deleted.
pub fn delete_outline_node(nodes: &mut Vec<OutlineNode>, id: &str) -> (r: bool)
    ensures
        match del_v(nodes_view(old(nodes)@), id@) {
            Some(v) => r && nodes_view(final(nodes)@) == v,
            None => !r && nodes_view(final(nodes)@) == nodes_view(old(nodes)@),
        },
    decreases nodes_view(old(nodes)@),
{
    let ghost ns = nodes_view(nodes@);
    proof {
        lemma_nodes_view(nodes@);
        lemma_nodes_view_update(nodes@);
    }
    match node_position(nodes, id) {
        Some(pos) => {
            nodes.remove(pos);
            proof {
                lemma_nodes_view(nodes@);
                assert(nodes_view(nodes@) =~= ns.remove(pos as int));
            }
            return true;
        },
        None => {},
    }
    let mut i: usize = 0;
    while i < nodes.len()
        invariant
            i <= nodes.len(),
            ns == nodes_view(old(nodes)@),
            ns == nodes_view(nodes@),
            ns.len() == nodes@.len(),
            forall|j: int| 0 <= j < ns.len() ==> #[trigger] ns[j] == node_view(nodes@[j]),
            forall|j: int| 0 <= j < i ==> del_v(#[trigger] ns[j].children, id@) is None,
            del_v(ns, id@) == del_kids(ns, id@),
        decreases nodes.len() - i,
    {
        proof {
            lemma_kids_skip(ns, id@, i as int);
            let t = ns.skip(i as int);
            assert(t[0] == ns[i as int]);
            assert(t.drop_first() =~= ns.skip(i + 1));
            assert(ns[i as int].children == nodes_view(nodes@[i as int].children@));
        }
        let ghost prev = nodes@;
        proof {
            lemma_nodes_view_update(prev);
        }
        assert(decreases_to!(ns => ns[i as int].children));
        let done = delete_outline_node(&mut nodes[i].children, id);
        if done {
            proof {
                let c = del_v(ns[i as int].children, id@)->0;
                let t = ns.skip(i as int);
                assert(del_kids(t, id@) == Some(t.update(0, with_children(t[0], c))));
                assert(ns.take(i as int) + t.update(0, with_children(t[0], c)) =~= ns.update(
                    i as int,
                    with_children(ns[i as int], c),
                ));
                assert(node_view(nodes@[i as int]) == with_children(ns[i as int], c));
            }
            return true;
        }
        proof {
            assert(node_view(nodes@[i as int]) == ns[i as int]);
            assert(ns.update(i as int, ns[i as int]) =~= ns);
            lemma_nodes_view(nodes@);
        }
        i = i + 1;
    }
    proof {
        lemma_kids_skip(ns, id@, i as int);
        assert(ns.skip(i as int) =~= Seq::<NodeView>::empty());
    }
    false
}

/// Moves the node with id `id` by `delta` places among its siblings (see
/// [`move_v`]); returns whether a node moved.
pub fn move_outline(nodes: &mut Vec<OutlineNode>, id: &str, delta: i32) -> (r: bool)
    ensures
        match move_v(nodes_view(old(nodes)@), id@, delta as int) {
            Some(v) => r && nodes_view(final(nodes)@) == v,
            None => !r && nodes_view(final(nodes)@) == nodes_view(old(nodes)@),
        },
    decreases nodes_view(old(nodes)@),
{
    let ghost ns = nodes_view(nodes@);
    proof {
        lemma_nodes_view(nodes@);
        lemma_nodes_view_update(nodes@);
    }
    match node_position(nodes, id) {
        Some(pos) => {
            let new_pos = pos as i128 + delta as i128;
            if new_pos >= 0 && new_pos < nodes.len() as i128 {
                let n = nodes.remove(pos);
                nodes.insert(new_pos as usize, n);
                proof {
                    lemma_nodes_view(nodes@);
                    assert(nodes_view(nodes@) =~= ns.remove(pos as int).insert(new_pos as int, ns[pos as int]));
                }
                return true;
            }
        },
        None => {},
    }
    let mut i: usize = 0;
    while i < nodes.len()
        invariant
            i <= nodes.len(),
            ns == nodes_view(old(nodes)@),
            ns == nodes_view(nodes@),
            ns.len() == nodes@.len(),
            forall|j: int| 0 <= j < ns.len() ==> #[trigger] ns[j] == node_view(nodes@[j]),
            forall|j: int| 0 <= j < i ==> move_v(#[trigger] ns[j].children, id@, delta as int) is None,
            move_v(ns, id@, delta as int) == move_kids(ns, id@, delta as int),
        decreases nodes.len() - i,
    {
        proof {
            lemma_move_kids_skip(ns, id@, delta as int, i as int);
            let t = ns.skip(i as int);
            assert(t[0] == ns[i as int]);
            assert(t.drop_first() =~= ns.skip(i + 1));
            assert(ns[i as int].children == nodes_view(nodes@[i as int].children@));
        }
        let ghost prev = nodes@;
        proof {
            lemma_nodes_view_update(prev);
        }
        assert(decreases_to!(ns => ns[i as int].children));
        let done = move_outline(&mut nodes[i].children, id, delta);
        if done {
            proof {
                let c = move_v(ns[i as int].children, id@, delta as int)->0;
                let t = ns.skip(i as int);
                assert(move_kids(t, id@, delta as int) == Some(t.update(0, with_children(t[0], c))));
                assert(ns.take(i as int) + t.update(0, with_children(t[0], c)) =~= ns.update(
                    i as int,
                    with_children(ns[i as int], c),
                ));
                assert(node_view(nodes@[i as int]) == with_children(ns[i as int], c));
            }
            return true;
        }
        proof {
            assert(node_view(nodes@[i as int]) == ns[i as int]);
            assert(ns.update(i as int, ns[i as int]) =~= ns);
            lemma_nodes_view(nodes@);
        }
        i = i + 1;
    }
    proof {
        lemma_move_kids_skip(ns, id@, delta as int, i as int);
        assert(ns.skip(i as int) =~= Seq::<NodeView>::empty());
    }
    false
}

} // verus!
