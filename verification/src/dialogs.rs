//! Naming exported files after a novel's title.

use vstd::prelude::*;
use crate::text::{char_is_alphanumeric, is_alnum, is_whitespace, is_ws, string_push, to_chars, trim, trim_string};

verus! {

/// The name used when nothing of the title is left.
pub const UNNAMED: &'static str = "未命名";

/// The punctuation kept in file names.
pub open spec fn name_punct(c: char) -> bool {
    c == '_' || c == '-' || c == '（' || c == '）' || c == '(' || c == ')' || c == '·' || c == '.'
}

/// A character kept in a file name: alphanumeric, whitespace or [`name_punct`].
pub open spec fn name_char(c: char) -> bool {
    is_alnum(c) || is_ws(c) || name_punct(c)
}

/// `s` with every character that is not kept replaced by `_`.
pub open spec fn cleaned(s: Seq<char>) -> Seq<char> {
    Seq::new(s.len(), |i: int| if name_char(s[i]) { s[i] } else { '_' })
}

/// The file name made from `s`: [`cleaned`] and trimmed, or [`UNNAMED`] when
/// that leaves nothing.
pub open spec fn safe_name_of(s: Seq<char>) -> Seq<char> {
    if trim(cleaned(s)).len() == 0 {
        UNNAMED@
    } else {
        trim(cleaned(s))
    }
}

/// A file name made from a title: characters other than letters, digits,
/// whitespace and `_-（）()·.` become `_`, surrounding whitespace is removed,
/// and an empty result becomes `未命名`.
pub fn safe_name(s: &str) -> (r: String)
    ensures
        r@ == safe_name_of(s@),
{
    let cs = to_chars(s);
    let mut out = String::new();
    let mut i: usize = 0;
    while i < cs.len()
        invariant
            i <= cs@.len(),
            out@ == cleaned(cs@).take(i as int),
        decreases cs.len() - i,
    {
        let c = cs[i];
        let keep = char_is_alphanumeric(c) || is_whitespace(c) || c == '_' || c == '-' || c == '（' || c == '）'
            || c == '(' || c == ')' || c == '·' || c == '.';
        if keep {
            string_push(&mut out, c);
        } else {
            string_push(&mut out, '_');
        }
        assert(cleaned(cs@).take(i + 1) =~= cleaned(cs@).take(i as int).push(cleaned(cs@)[i as int]));
        i = i + 1;
    }
    assert(cleaned(cs@).take(cs@.len() as int) =~= cleaned(cs@));
    let t = trim_string(out.as_str());
    if t.as_str().is_empty() {
        UNNAMED.to_owned()
    } else {
        t
    }
}


/// The file name an export of the novel titled `title` is offered under:
/// the [`safe_name`] of the title with the format's extension.
pub fn export_file_name(title: &str, ext: &str) -> (r: String)
    ensures
        r@ == safe_name_of(title@) + seq!['.'] + ext@,
{
    let mut r = safe_name(title);
    string_push(&mut r, '.');
    r.append(ext);
    r
}

/// A file name made from a title is never empty; unless it is the fallback
/// name, each of its characters is a kept one or `_`.
pub proof fn law_safe_name_is_clean(s: Seq<char>)
    ensures
        safe_name_of(s).len() > 0,
        trim(cleaned(s)).len() > 0 ==> forall|i: int|
            0 <= i < safe_name_of(s).len() ==> name_char(#[trigger] safe_name_of(s)[i]) || safe_name_of(s)[i] == '_',
{
    reveal_strlit("未命名");
    let c = cleaned(s);
    crate::text::lemma_lead_ws_bound(c);
    let a = crate::text::lead_ws(c) as int;
    let st = c.skip(a);
    crate::text::lemma_trail_ws_bound(st);
    assert forall|i: int| 0 <= i < trim(c).len() implies name_char(#[trigger] trim(c)[i]) || trim(c)[i] == '_' by {
        assert(trim(c)[i] == st[i]);
        assert(st[i] == c[i + a]);
    }
}

} // verus!
