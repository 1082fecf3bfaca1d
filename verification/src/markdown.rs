//! Markdown highlighting of the editor: the text is cut into styled pieces,
//! from left to right, each piece decided by the characters at its start.
//! Highlighting only chooses styles: the pieces, joined in order, give back
//! the text exactly, so that positions in the laid-out text are positions in
//! the buffer.

use vstd::prelude::*;
use crate::text::{find_char, first_of, string_from, sub_chars, to_chars, trim, trim_chars};

verus! {

/// The style of a piece of highlighted text.
#[derive(Clone, Copy, PartialEq, Eq, Structural)]
pub enum MdStyle {
    Plain,
    Heading,
    Quote,
    Code,
    Link,
    Strong,
}

/// A piece of highlighted text.
pub struct MdSpan {
    pub text: String,
    pub style: MdStyle,
}

/// Character `i` of `cs` starts a line.
pub open spec fn line_start(cs: Seq<char>, i: int) -> bool {
    i == 0 || cs[i - 1] == '\n'
}

/// The number of `#` at `i + n` and after, counted up to six in all.
pub open spec fn hash_run(cs: Seq<char>, i: int, n: int) -> int
    decreases 6 - n,
{
    if n < 6 && i + n < cs.len() && cs[i + n] == '#' {
        hash_run(cs, i, n + 1)
    } else {
        n
    }
}

/// A heading marker at `i`: one to six `#` then a space or tab; the marker
/// piece ends after that space or tab.
pub open spec fn heading_end(cs: Seq<char>, i: int) -> Option<int> {
    let h = hash_run(cs, i, 0);
    if h >= 1 && i + h < cs.len() && (cs[i + h] == ' ' || cs[i + h] == '\t') {
        Some(i + h + 1)
    } else {
        None
    }
}

/// The line starting at `i`, without its line break.
pub open spec fn line_at(cs: Seq<char>, i: int) -> Seq<char> {
    match first_of(cs.skip(i), '\n') {
        Some(k) => cs.subrange(i, i + k),
        None => cs.skip(i),
    }
}

/// `s` is made of `-` and `*` only.
pub open spec fn rule_chars(s: Seq<char>) -> bool {
    forall|j: int| 0 <= j < s.len() ==> s[j] == '-' || s[j] == '*'
}

/// A rule at `i`: a line of at least three `-` or `*` once trimmed; the
/// piece is the whole line.
pub open spec fn rule_end(cs: Seq<char>, i: int) -> Option<int> {
    let line = line_at(cs, i);
    if rule_chars(trim(line)) && trim(line).len() >= 3 {
        Some(i + line.len())
    } else {
        None
    }
}

/// A code span at `i`: a backtick, the text up to the next backtick, and it.
pub open spec fn code_end(cs: Seq<char>, i: int) -> Option<int> {
    match first_of(cs.skip(i + 1), '`') {
        Some(k) => Some(i + k + 2),
        None => None,
    }
}

/// A link at `i`: `[label](target)`, up to the closing parenthesis.
pub open spec fn link_end(cs: Seq<char>, i: int) -> Option<int> {
    match first_of(cs.skip(i), ']') {
        Some(k) => if i + k + 1 < cs.len() && cs[i + k + 1] == '(' {
            match first_of(cs.skip(i + k + 2), ')') {
                Some(m) => Some(i + k + 2 + m + 1),
                None => None,
            }
        } else {
            None
        },
        None => None,
    }
}

/// The first position in `s` where two `*` follow each other.
pub open spec fn first_double_star(s: Seq<char>) -> Option<nat>
    decreases s.len(),
{
    if s.len() < 2 {
        None
    } else if s[0] == '*' && s[1] == '*' {
        Some(0)
    } else {
        match first_double_star(s.drop_first()) {
            Some(k) => Some(k + 1),
            None => None,
        }
    }
}

/// An emphasis at `i`: `*text*`, or `**text**` (strong), markers included.
pub open spec fn emphasis_at(cs: Seq<char>, i: int) -> Option<(MdStyle, int)> {
    let doubled = i + 1 < cs.len() && cs[i + 1] == '*';
    let ml: int = if doubled { 2 } else { 1 };
    let found = if doubled {
        first_double_star(cs.skip(i + 2))
    } else {
        first_of(cs.skip(i + 1), '*')
    };
    match found {
        Some(m) => Some((if doubled { MdStyle::Strong } else { MdStyle::Quote }, i + ml + m + ml)),
        None => None,
    }
}

/// The style of the piece that starts at `i` (within the text) and the
/// position where it ends.
pub open spec fn md_piece(cs: Seq<char>, i: int) -> (MdStyle, int) {
    if cs[i] == '\n' {
        (MdStyle::Plain, i + 1)
    } else if line_start(cs, i) && heading_end(cs, i) is Some {
        (MdStyle::Heading, heading_end(cs, i)->0)
    } else if line_start(cs, i) && cs[i] == '>' {
        (MdStyle::Quote, i + 1)
    } else if line_start(cs, i) && rule_end(cs, i) is Some {
        (MdStyle::Quote, rule_end(cs, i)->0)
    } else if cs[i] == '`' && code_end(cs, i) is Some {
        (MdStyle::Code, code_end(cs, i)->0)
    } else if cs[i] == '[' && link_end(cs, i) is Some {
        (MdStyle::Link, link_end(cs, i)->0)
    } else if cs[i] == '*' && emphasis_at(cs, i) is Some {
        emphasis_at(cs, i)->0
    } else {
        (MdStyle::Plain, i + 1)
    }
}

/// The pieces of `cs` from position `i` on: each is the text from its start
/// to its end, with its style.
pub open spec fn md_pieces_from(cs: Seq<char>, i: int) -> Seq<(Seq<char>, MdStyle)>
    decreases cs.len() - i,
{
    if i < 0 || i >= cs.len() {
        Seq::empty()
    } else {
        let p = md_piece(cs, i);
        if p.1 <= i || p.1 > cs.len() {
            Seq::empty()
        } else {
            seq![(cs.subrange(i, p.1), p.0)] + md_pieces_from(cs, p.1)
        }
    }
}

/// The highlighted pieces of a whole text.
pub open spec fn md_pieces(cs: Seq<char>) -> Seq<(Seq<char>, MdStyle)> {
    md_pieces_from(cs, 0)
}

/// The texts of pieces, joined in order.
pub open spec fn pieces_text(ps: Seq<(Seq<char>, MdStyle)>) -> Seq<char>
    decreases ps.len(),
{
    if ps.len() == 0 {
        Seq::empty()
    } else {
        ps[0].0 + pieces_text(ps.drop_first())
    }
}

/// The view of a sequence of pieces.
pub open spec fn spans_view(v: Seq<MdSpan>) -> Seq<(Seq<char>, MdStyle)> {
    Seq::new(v.len(), |i: int| (v[i].text@, v[i].style))
}

proof fn lemma_piece_advances(cs: Seq<char>, i: int)
    requires
        0 <= i < cs.len(),
    ensures
        i < md_piece(cs, i).1 <= cs.len(),
{
    crate::text::lemma_first_of(cs.skip(i), '\n');
    crate::text::lemma_first_of(cs.skip(i + 1), '`');
    crate::text::lemma_first_of(cs.skip(i), ']');
    lemma_first_double_star(cs.skip(i + 2));
    crate::text::lemma_first_of(cs.skip(i + 1), '*');
    if let Some(k) = first_of(cs.skip(i), ']') {
        crate::text::lemma_first_of(cs.skip(i + k + 2), ')');
    }
    lemma_hash_run(cs, i, 0);
    crate::text::lemma_lead_ws_bound(line_at(cs, i));
    crate::text::lemma_trail_ws_bound(crate::text::trim_start(line_at(cs, i)));
}

/// Joined in order, the pieces of the text from `i` on give back the text
/// from `i` on.
pub proof fn lemma_pieces_rebuild_text(cs: Seq<char>, i: int)
    requires
        0 <= i <= cs.len(),
    ensures
        pieces_text(md_pieces_from(cs, i)) == cs.skip(i),
    decreases cs.len() - i,
{
    if i == cs.len() {
        assert(cs.skip(i) =~= Seq::<char>::empty());
    } else {
        lemma_piece_advances(cs, i);
        let e = md_piece(cs, i).1;
        lemma_pieces_rebuild_text(cs, e);
        let ps = md_pieces_from(cs, i);
        assert(ps.drop_first() =~= md_pieces_from(cs, e));
        assert(cs.skip(i) =~= cs.subrange(i, e) + cs.skip(e));
    }
}

proof fn lemma_hash_run_is(cs: Seq<char>, i: int, k: int, n: int)
    requires
        0 <= n <= k <= 6,
        0 <= i,
        i + k < cs.len(),
        forall|j: int| i <= j < i + k ==> cs[j] == '#',
        cs[i + k] != '#',
    ensures
        hash_run(cs, i, n) == k,
    decreases k - n,
{
    if n < k {
        lemma_hash_run_is(cs, i, k, n + 1);
    }
}

/// At the start of a line, one to six `#` followed by a space or a tab make
/// one heading piece that runs through that space or tab.
pub proof fn law_heading_marker(cs: Seq<char>, i: int, k: int)
    requires
        0 <= i,
        line_start(cs, i),
        1 <= k <= 6,
        i + k < cs.len(),
        forall|j: int| i <= j < i + k ==> cs[j] == '#',
        cs[i + k] == ' ' || cs[i + k] == '\t',
    ensures
        md_piece(cs, i) == (MdStyle::Heading, i + k + 1),
        md_pieces_from(cs, i)[0] == (cs.subrange(i, i + k + 1), MdStyle::Heading),
{
    lemma_hash_run_is(cs, i, k, 0);
    assert(cs[i] == '#');
}

/// The highlighter reproduces its text: the pieces of any text, joined in
/// order, are that text.
pub proof fn law_highlighting_keeps_the_text(cs: Seq<char>)
    ensures
        pieces_text(md_pieces(cs)) == cs,
{
    lemma_pieces_rebuild_text(cs, 0);
    assert(cs.skip(0) =~= cs);
}

proof fn lemma_hash_run(cs: Seq<char>, i: int, n: int)
    requires
        0 <= n <= 6,
    ensures
        n <= hash_run(cs, i, n) <= 6,
    decreases 6 - n,
{
    if n < 6 && i + n < cs.len() && cs[i + n] == '#' {
        lemma_hash_run(cs, i, n + 1);
    }
}

pub proof fn lemma_first_double_star(s: Seq<char>)
    ensures
        match first_double_star(s) {
            Some(k) => k + 1 < s.len() && s[k as int] == '*' && s[k as int + 1] == '*' && forall|j: int|
                0 <= j < k ==> !(#[trigger] s[j] == '*' && s[j + 1] == '*'),
            None => forall|j: int| 0 <= j && j + 1 < s.len() ==> !(#[trigger] s[j] == '*' && s[j + 1] == '*'),
        },
    decreases s.len(),
{
    if s.len() >= 2 && !(s[0] == '*' && s[1] == '*') {
        lemma_first_double_star(s.drop_first());
        assert forall|j: int| 1 <= j && j + 1 < s.len() implies #[trigger] s[j] == s.drop_first()[j - 1] && s[j + 1]
            == s.drop_first()[j] by {}
    }
}

fn hashes_at(cs: &Vec<char>, i: usize) -> (h: usize)
    requires
        i < cs@.len(),
        cs@.len() + 8 < usize::MAX,
    ensures
        h as int == hash_run(cs@, i as int, 0),
        h <= 6,
{
    let mut n: usize = 0;
    proof {
        lemma_hash_run(cs@, i as int, 0);
    }
    while n < 6 && i + n < cs.len() && cs[i + n] == '#'
        invariant
            n <= 6,
            i < cs@.len(),
            cs@.len() + 8 < usize::MAX,
            hash_run(cs@, i as int, n as int) == hash_run(cs@, i as int, 0),
        decreases 6 - n,
    {
        n = n + 1;
    }
    n
}

fn first_double_star_from(cs: &Vec<char>, from: usize) -> (r: Option<usize>)
    requires
        from <= cs@.len(),
        cs@.len() + 8 < usize::MAX,
    ensures
        match first_double_star(cs@.skip(from as int)) {
            Some(k) => r == Some((from + k) as usize),
            None => r is None,
        },
{
    let ghost s = cs@.skip(from as int);
    proof {
        lemma_first_double_star(s);
    }
    let mut j = from;
    while j + 1 < cs.len()
        invariant
            from <= j <= cs@.len(),
            cs@.len() + 8 < usize::MAX,
            s == cs@.skip(from as int),
            forall|t: int| from <= t < j && t + 1 < cs@.len() ==> !(#[trigger] cs@[t] == '*' && cs@[t + 1] == '*'),
        decreases cs.len() - j,
    {
        if cs[j] == '*' && cs[j + 1] == '*' {
            proof {
                lemma_first_double_star(s);
                match first_double_star(s) {
                    Some(k) => {
                        assert(s[k as int] == cs@[from + k]);
                        assert(s[k as int + 1] == cs@[from + k + 1]);
                        if from + k < j {
                        } else if from + k > j {
                            assert(s[j - from] == cs@[j as int]);
                            assert(s[j - from + 1] == cs@[j + 1]);
                        }
                    },
                    None => {
                        assert(s[j - from] == cs@[j as int]);
                        assert(s[j - from + 1] == cs@[j + 1]);
                    },
                }
            }
            return Some(j);
        }
        j = j + 1;
    }
    proof {
        lemma_first_double_star(s);
        match first_double_star(s) {
            Some(k) => {
                assert(s[k as int] == cs@[from + k]);
                assert(s[k as int + 1] == cs@[from + k + 1]);
            },
            None => {},
        }
    }
    None
}


fn heading_piece(cs: &Vec<char>, i: usize) -> (r: Option<usize>)
    requires
        i < cs@.len(),
        cs@.len() + 8 < usize::MAX,
    ensures
        match heading_end(cs@, i as int) {
            Some(e) => r == Some(e as usize),
            None => r is None,
        },
{
    let h = hashes_at(cs, i);
    if h >= 1 && i + h < cs.len() && (cs[i + h] == ' ' || cs[i + h] == '\t') {
        Some(i + h + 1)
    } else {
        None
    }
}

fn rule_piece(cs: &Vec<char>, i: usize) -> (r: Option<usize>)
    requires
        i < cs@.len(),
        cs@.len() + 8 < usize::MAX,
    ensures
        match rule_end(cs@, i as int) {
            Some(e) => r == Some(e as usize),
            None => r is None,
        },
{
    let end = match find_char(cs, i, '\n') {
        Some(e) => e,
        None => cs.len(),
    };
    let line = sub_chars(cs, i, end);
    proof {
        crate::text::lemma_first_of(cs@.skip(i as int), '\n');
        assert(line@ =~= line_at(cs@, i as int));
    }
    let t = trim_chars(&line);
    let mut all = true;
    let mut j: usize = 0;
    while j < t.len()
        invariant
            j <= t@.len(),
            all == (forall|q: int| 0 <= q < j ==> t@[q] == '-' || t@[q] == '*'),
        decreases t.len() - j,
    {
        if !(t[j] == '-' || t[j] == '*') {
            all = false;
        }
        j = j + 1;
    }
    if all && t.len() >= 3 {
        Some(end)
    } else {
        None
    }
}

fn code_piece(cs: &Vec<char>, i: usize) -> (r: Option<usize>)
    requires
        i < cs@.len(),
        cs@.len() + 8 < usize::MAX,
    ensures
        match code_end(cs@, i as int) {
            Some(e) => r == Some(e as usize),
            None => r is None,
        },
{
    match find_char(cs, i + 1, '`') {
        Some(e) => Some(e + 1),
        None => None,
    }
}

fn link_piece(cs: &Vec<char>, i: usize) -> (r: Option<usize>)
    requires
        i < cs@.len(),
        cs@.len() + 8 < usize::MAX,
    ensures
        match link_end(cs@, i as int) {
            Some(e) => r == Some(e as usize),
            None => r is None,
        },
{
    match find_char(cs, i, ']') {
        Some(e) => {
            if e + 1 < cs.len() && cs[e + 1] == '(' {
                match find_char(cs, e + 2, ')') {
                    Some(u) => Some(u + 1),
                    None => None,
                }
            } else {
                None
            }
        },
        None => None,
    }
}

fn emphasis_piece(cs: &Vec<char>, i: usize) -> (r: Option<(MdStyle, usize)>)
    requires
        i < cs@.len(),
        cs@.len() + 8 < usize::MAX,
    ensures
        match emphasis_at(cs@, i as int) {
            Some(p) => r matches Some(x) && x.0 == p.0 && x.1 as int == p.1,
            None => r is None,
        },
{
    let doubled = i + 1 < cs.len() && cs[i + 1] == '*';
    let ml: usize = if doubled { 2 } else { 1 };
    let found = if doubled {
        first_double_star_from(cs, i + 2)
    } else {
        find_char(cs, i + 1, '*')
    };
    proof {
        lemma_first_double_star(cs@.skip(i + 2));
        crate::text::lemma_first_of(cs@.skip(i + 1), '*');
    }
    match found {
        Some(e) => {
            let style = if doubled { MdStyle::Strong } else { MdStyle::Quote };
            Some((style, e + ml))
        },
        None => None,
    }
}

/// The highlighted pieces of `text`, in order. A line break is a piece of
/// its own. At the start of a line: `#` to `######` followed by a space or tab
/// is a heading marker; `>` is a quote marker; a line of at least three `-` or
/// `*` (once trimmed) is a rule. Anywhere: a code span between backticks, a
/// link `[label](target)`, `*text*` and `**text**` as emphasis and strong
/// text. Every other character is plain. The pieces joined are the text.
pub fn layout_markdown(text: &str) -> (r: Vec<MdSpan>)
    requires
        text@.len() + 8 < usize::MAX,
    ensures
        spans_view(r@) == md_pieces(text@),
        pieces_text(spans_view(r@)) == text@,
{
    let cs = to_chars(text);
    let mut out: Vec<MdSpan> = Vec::new();
    let mut i: usize = 0;
    while i < cs.len()
        invariant
            cs@ == text@,
            cs@.len() + 8 < usize::MAX,
            i <= cs@.len(),
            spans_view(out@) + md_pieces_from(cs@, i as int) == md_pieces(cs@),
        decreases cs@.len() - i,
    {
        proof {
            lemma_piece_advances(cs@, i as int);
        }
        let ghost p = md_piece(cs@, i as int);
        let line_begins = i == 0 || cs[i - 1] == '\n';
        let (style, next): (MdStyle, usize) = if cs[i] == '\n' {
            (MdStyle::Plain, i + 1)
        } else {
            let heading = if line_begins { heading_piece(&cs, i) } else { None };
            match heading {
                Some(e) => (MdStyle::Heading, e),
                None => {
                    if line_begins && cs[i] == '>' {
                        (MdStyle::Quote, i + 1)
                    } else {
                        let rule = if line_begins { rule_piece(&cs, i) } else { None };
                        match rule {
                            Some(e) => (MdStyle::Quote, e),
                            None => {
                                let code = if cs[i] == '`' { code_piece(&cs, i) } else { None };
                                match code {
                                    Some(e) => (MdStyle::Code, e),
                                    None => {
                                        let link = if cs[i] == '[' { link_piece(&cs, i) } else { None };
                                        match link {
                                            Some(e) => (MdStyle::Link, e),
                                            None => {
                                                let emph = if cs[i] == '*' { emphasis_piece(&cs, i) } else { None };
                                                match emph {
                                                    Some(x) => x,
                                                    None => (MdStyle::Plain, i + 1),
                                                }
                                            },
                                        }
                                    },
                                }
                            },
                        }
                    }
                },
            }
        };
        assert(style == p.0 && next as int == p.1);
        let piece = sub_chars(&cs, i, next);
        let ghost before = spans_view(out@);
        out.push(MdSpan { text: string_from(&piece), style });
        assert(spans_view(out@) =~= before.push((cs@.subrange(i as int, p.1), p.0)));
        assert(md_pieces_from(cs@, i as int) == seq![(cs@.subrange(i as int, p.1), p.0)] + md_pieces_from(cs@, p.1));
        assert(spans_view(out@) + md_pieces_from(cs@, next as int) =~= before + md_pieces_from(cs@, i as int));
        i = next;
    }
    assert(md_pieces_from(cs@, i as int) =~= Seq::empty());
    assert(spans_view(out@) =~= spans_view(out@) + md_pieces_from(cs@, i as int));
    proof {
        law_highlighting_keeps_the_text(text@);
    }
    out
}

} // verus!
