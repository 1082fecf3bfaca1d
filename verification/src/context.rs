//! The textual context handed to the AI assistant: the outline as indented
//! text, character cards, world settings, and the "lorebook" hits (characters
//! and places named in the recent text).

use vstd::prelude::*;
use crate::model::{Character, Location, Novel, OutlineNode};
use crate::text::{has_sub, is_blank, str_contains, str_eq, string_push, to_chars, trim};
use crate::util::{tail, tail_chars};

verus! {

pub const NO_OUTLINE: &'static str = "（暂无大纲）";
pub const NO_WORLD: &'static str = "（暂无世界观设定）";
pub const INDENT_STEP: &'static str = "  ";
pub const COLON: &'static str = "：";
pub const NEWLINE: &'static str = "\n";
pub const CARD_OPEN: &'static str = "【";
pub const CARD_ROLE: &'static str = "】（";
pub const CARD_LOOK: &'static str = "）：外貌=";
pub const CARD_TEMPER: &'static str = "；性格=";
pub const CARD_PAST: &'static str = "；背景=";
pub const CARD_GOAL: &'static str = "；目标=";
pub const CAST_LIST: &'static str = "人物列表：";
pub const LIST_SEP: &'static str = "、";
pub const PLACE_KIND: &'static str = "）";
/// How many trailing characters of the chapter are scanned for lorebook hits.
pub const LORE_WINDOW: usize = 3000;

// ---------------------------------------------------------------------------
// Outline as text
// ---------------------------------------------------------------------------

/// One outline node and its subtree, each line indented by `prefix` plus two
/// spaces per level: `title`, then `：content` when there is content.
pub open spec fn node_text(n: OutlineNode, prefix: Seq<char>) -> Seq<char>
    decreases n,
{
    prefix + n.title@ + (if n.content@.len() > 0 {
        COLON@ + n.content@
    } else {
        Seq::empty()
    }) + NEWLINE@ + nodes_text(n.children@, prefix + INDENT_STEP@)
}

/// A sequence of outline nodes as text, see [`node_text`].
pub open spec fn nodes_text(ns: Seq<OutlineNode>, prefix: Seq<char>) -> Seq<char>
    decreases ns,
{
    if ns.len() == 0 {
        Seq::empty()
    } else {
        nodes_text(ns.drop_last(), prefix) + node_text(ns.last(), prefix)
    }
}

/// The outline of a novel as indented text, or [`NO_OUTLINE`] when it has none.
pub open spec fn outline_text(outline: Seq<OutlineNode>) -> Seq<char> {
    if outline.len() == 0 {
        NO_OUTLINE@
    } else {
        nodes_text(outline, Seq::empty())
    }
}

fn walk_outline(nodes: &Vec<OutlineNode>, prefix: &String, out: &mut String)
    ensures
        final(out)@ == old(out)@ + nodes_text(nodes@, prefix@),
    decreases nodes@,
{
    let mut i: usize = 0;
    assert(nodes@.take(0) =~= Seq::<OutlineNode>::empty());
    while i < nodes.len()
        invariant
            i <= nodes.len(),
            out@ == old(out)@ + nodes_text(nodes@.take(i as int), prefix@),
        decreases nodes.len() - i,
    {
        let n = &nodes[i];
        let ghost before = out@;
        out.append(prefix.as_str());
        out.append(n.title.as_str());
        if !n.content.as_str().is_empty() {
            out.append(COLON);
            out.append(n.content.as_str());
        }
        out.append(NEWLINE);
        let mut child_prefix = prefix.clone();
        child_prefix.append(INDENT_STEP);
        assert(decreases_to!(nodes@ => nodes@[i as int]));
        walk_outline(&n.children, &child_prefix, out);
        proof {
            assert(nodes@.take(i + 1).drop_last() =~= nodes@.take(i as int));
            assert(nodes@.take(i + 1).last() == nodes@[i as int]);
            let head = prefix@ + n.title@ + (if n.content@.len() > 0 {
                COLON@ + n.content@
            } else {
                Seq::empty()
            }) + NEWLINE@;
            assert(out@ =~= before + head + nodes_text(n.children@, prefix@ + INDENT_STEP@));
            assert(node_text(*n, prefix@) =~= head + nodes_text(n.children@, prefix@ + INDENT_STEP@));
            assert(out@ =~= old(out)@ + nodes_text(nodes@.take(i + 1), prefix@));
        }
        i = i + 1;
    }
    assert(nodes@.take(nodes.len() as int) =~= nodes@);
}

/// The outline as indented text (used as AI context).
pub fn outline_to_text(novel: &Novel) -> (r: String)
    ensures
        r@ == outline_text(novel.outline@),
{
    if novel.outline.len() == 0 {
        return NO_OUTLINE.to_owned();
    }
    let mut s = String::new();
    let prefix = String::new();
    walk_outline(&novel.outline, &prefix, &mut s);
    s
}

// ---------------------------------------------------------------------------
// Character cards
// ---------------------------------------------------------------------------

/// The card line of one character.
pub open spec fn card_text(c: Character) -> Seq<char> {
    CARD_OPEN@ + c.name@ + CARD_ROLE@ + c.role@ + CARD_LOOK@ + c.appearance@ + CARD_TEMPER@
        + c.personality@ + CARD_PAST@ + c.background@ + CARD_GOAL@ + c.goals@ + NEWLINE@
}

/// Character `c` answers to `name`: its name is `name` or contains it.
pub open spec fn answers_to(c: Character, name: Seq<char>) -> bool {
    c.name@ == name || has_sub(c.name@, name)
}

/// The position of the first character answering to `name`.
pub open spec fn first_answering(cs: Seq<Character>, name: Seq<char>) -> Option<nat>
    decreases cs.len(),
{
    if cs.len() == 0 {
        None
    } else if answers_to(cs[0], name) {
        Some(0)
    } else {
        match first_answering(cs.drop_first(), name) {
            Some(k) => Some(k + 1),
            None => None,
        }
    }
}

proof fn lemma_first_answering(cs: Seq<Character>, name: Seq<char>)
    ensures
        match first_answering(cs, name) {
            Some(k) => k < cs.len() && answers_to(cs[k as int], name) && forall|j: int|
                0 <= j < k ==> !answers_to(#[trigger] cs[j], name),
            None => forall|j: int| 0 <= j < cs.len() ==> !answers_to(#[trigger] cs[j], name),
        },
    decreases cs.len(),
{
    if cs.len() > 0 && !answers_to(cs[0], name) {
        lemma_first_answering(cs.drop_first(), name);
        assert forall|j: int| 0 < j < cs.len() implies cs[j] == cs.drop_first()[j - 1] by {}
    }
}

proof fn lemma_first_answering_is(cs: Seq<Character>, name: Seq<char>, k: int)
    requires
        0 <= k < cs.len(),
        answers_to(cs[k], name),
        forall|j: int| 0 <= j < k ==> !answers_to(#[trigger] cs[j], name),
    ensures
        first_answering(cs, name) == Some(k as nat),
{
    lemma_first_answering(cs, name);
    match first_answering(cs, name) {
        Some(m) => {
            if (m as int) > k {
                assert(!answers_to(cs[k], name));
            }
        },
        None => {
            assert(!answers_to(cs[k], name));
        },
    }
}

/// The cards of the characters answering to each of `names`, in the order of `names`.
pub open spec fn cards_for(cs: Seq<Character>, names: Seq<Seq<char>>) -> Seq<char>
    decreases names.len(),
{
    if names.len() == 0 {
        Seq::empty()
    } else {
        cards_for(cs, names.drop_last()) + match first_answering(cs, names.last()) {
            Some(k) => card_text(cs[k as int]),
            None => Seq::empty(),
        }
    }
}

/// `parts` joined by `sep`.
pub open spec fn joined(parts: Seq<Seq<char>>, sep: Seq<char>) -> Seq<char>
    decreases parts.len(),
{
    if parts.len() == 0 {
        Seq::empty()
    } else if parts.len() == 1 {
        parts[0]
    } else {
        joined(parts.drop_last(), sep) + sep + parts.last()
    }
}

/// The views of a sequence of strings.
pub open spec fn string_views(v: Seq<String>) -> Seq<Seq<char>> {
    Seq::new(v.len(), |i: int| v[i]@)
}

/// The names of a sequence of characters.
pub open spec fn character_names(cs: Seq<Character>) -> Seq<Seq<char>> {
    Seq::new(cs.len(), |i: int| cs[i].name@)
}

/// The character context: the cards of the characters named in `names`; when
/// none is found, the list of all character names (empty without characters).
pub open spec fn characters_text(cs: Seq<Character>, names: Seq<Seq<char>>) -> Seq<char> {
    let cards = cards_for(cs, names);
    if cards.len() > 0 {
        cards
    } else if cs.len() > 0 {
        CAST_LIST@ + joined(character_names(cs), LIST_SEP@)
    } else {
        Seq::empty()
    }
}

fn first_answering_pos(cs: &Vec<Character>, name: &str) -> (r: Option<usize>)
    ensures
        match r {
            Some(k) => k < cs.len() && first_answering(cs@, name@) == Some(k as nat),
            None => first_answering(cs@, name@) is None,
        },
{
    let mut i: usize = 0;
    while i < cs.len()
        invariant
            i <= cs.len(),
            forall|j: int| 0 <= j < i ==> !answers_to(#[trigger] cs@[j], name@),
        decreases cs.len() - i,
    {
        let c = &cs[i];
        if str_eq(c.name.as_str(), name) || str_contains(c.name.as_str(), name) {
            proof {
                lemma_first_answering_is(cs@, name@, i as int);
            }
            return Some(i);
        }
        i = i + 1;
    }
    proof {
        lemma_first_answering(cs@, name@);
    }
    None
}

/// Character cards for the given names (lorebook-style injection).
pub fn characters_to_text(novel: &Novel, names: &[String]) -> (r: String)
    ensures
        r@ == characters_text(novel.characters@, string_views(names@)),
{
    let mut out = String::new();
    let ghost nv = string_views(names@);
    let mut i: usize = 0;
    assert(nv.take(0) =~= Seq::<Seq<char>>::empty());
    while i < names.len()
        invariant
            i <= names.len(),
            nv == string_views(names@),
            out@ == cards_for(novel.characters@, nv.take(i as int)),
        decreases names.len() - i,
    {
        proof {
            assert(nv.take(i + 1).drop_last() =~= nv.take(i as int));
            assert(nv.take(i + 1).last() == names@[i as int]@);
        }
        match first_answering_pos(&novel.characters, names[i].as_str()) {
            Some(k) => {
                let c = &novel.characters[k];
                out.append(CARD_OPEN);
                out.append(c.name.as_str());
                out.append(CARD_ROLE);
                out.append(c.role.as_str());
                out.append(CARD_LOOK);
                out.append(c.appearance.as_str());
                out.append(CARD_TEMPER);
                out.append(c.personality.as_str());
                out.append(CARD_PAST);
                out.append(c.background.as_str());
                out.append(CARD_GOAL);
                out.append(c.goals.as_str());
                out.append(NEWLINE);
                assert(out@ =~= cards_for(novel.characters@, nv.take(i + 1)));
            },
            None => {
                assert(out@ =~= cards_for(novel.characters@, nv.take(i + 1)));
            },
        }
        i = i + 1;
    }
    assert(nv.take(names.len() as int) =~= nv);
    if out.as_str().is_empty() && novel.characters.len() > 0 {
        out.append(CAST_LIST);
        let ghost cn = character_names(novel.characters@);
        let mut k: usize = 0;
        while k < novel.characters.len()
            invariant
                k <= novel.characters.len(),
                cn == character_names(novel.characters@),
                k == 0 ==> out@ == CAST_LIST@,
                k > 0 ==> out@ == CAST_LIST@ + joined(cn.take(k as int), LIST_SEP@),
            decreases novel.characters.len() - k,
        {
            let ghost before = out@;
            if k > 0 {
                out.append(LIST_SEP);
            }
            out.append(novel.characters[k].name.as_str());
            proof {
                let t = cn.take(k + 1);
                assert(t.drop_last() =~= cn.take(k as int));
                assert(t.last() == novel.characters@[k as int].name@);
                if k == 0 {
                    assert(t.len() == 1);
                    assert(joined(t, LIST_SEP@) == t[0]);
                    assert(out@ =~= CAST_LIST@ + joined(t, LIST_SEP@));
                } else {
                    assert(out@ =~= CAST_LIST@ + joined(t, LIST_SEP@));
                }
            }
            k = k + 1;
        }
        assert(cn.take(novel.characters.len() as int) =~= cn);
    }
    out
}

// ---------------------------------------------------------------------------
// World settings
// ---------------------------------------------------------------------------

/// The world lines of the locations that have a (non-blank) description.
pub open spec fn places_text(ls: Seq<Location>) -> Seq<char>
    decreases ls.len(),
{
    if ls.len() == 0 {
        Seq::empty()
    } else {
        let l = ls.last();
        places_text(ls.drop_last()) + if trim(l.description@).len() > 0 {
            CARD_OPEN@ + l.name@ + CARD_ROLE@ + l.kind@ + PLACE_KIND@ + l.description@ + NEWLINE@
        } else {
            Seq::empty()
        }
    }
}

/// The world context, or [`NO_WORLD`] when no location is described.
pub open spec fn world_text(ls: Seq<Location>) -> Seq<char> {
    if places_text(ls).len() == 0 {
        NO_WORLD@
    } else {
        places_text(ls)
    }
}

/// The world-building context.
pub fn world_to_text(novel: &Novel) -> (r: String)
    ensures
        r@ == world_text(novel.locations@),
{
    let mut out = String::new();
    let mut i: usize = 0;
    assert(novel.locations@.take(0) =~= Seq::<Location>::empty());
    while i < novel.locations.len()
        invariant
            i <= novel.locations.len(),
            out@ == places_text(novel.locations@.take(i as int)),
        decreases novel.locations.len() - i,
    {
        let l = &novel.locations[i];
        proof {
            assert(novel.locations@.take(i + 1).drop_last() =~= novel.locations@.take(i as int));
            assert(novel.locations@.take(i + 1).last() == *l);
        }
        if !is_blank(l.description.as_str()) {
            out.append(CARD_OPEN);
            out.append(l.name.as_str());
            out.append(CARD_ROLE);
            out.append(l.kind.as_str());
            out.append(PLACE_KIND);
            out.append(l.description.as_str());
            out.append(NEWLINE);
        }
        assert(out@ =~= places_text(novel.locations@.take(i + 1)));
        i = i + 1;
    }
    assert(novel.locations@.take(novel.locations.len() as int) =~= novel.locations@);
    if out.as_str().is_empty() {
        NO_WORLD.to_owned()
    } else {
        out
    }
}

// ---------------------------------------------------------------------------
// Lorebook hits
// ---------------------------------------------------------------------------

/// The names, among `names`, of at least two characters that occur in `text`.
pub open spec fn hits(names: Seq<Seq<char>>, text: Seq<char>) -> Seq<Seq<char>>
    decreases names.len(),
{
    if names.len() == 0 {
        Seq::empty()
    } else {
        let rest = hits(names.drop_last(), text);
        let n = names.last();
        if n.len() >= 2 && has_sub(text, n) {
            rest.push(n)
        } else {
            rest
        }
    }
}

/// The names of a sequence of locations.
pub open spec fn location_names(ls: Seq<Location>) -> Seq<Seq<char>> {
    Seq::new(ls.len(), |i: int| ls[i].name@)
}

fn name_hits(names: &Vec<&String>, text: &str) -> (r: Vec<String>)
    ensures
        string_views(r@) == hits(Seq::new(names@.len(), |i: int| names@[i]@), text@),
{
    let ghost ns = Seq::new(names@.len(), |i: int| names@[i]@);
    let mut r: Vec<String> = Vec::new();
    let mut i: usize = 0;
    assert(ns.take(0) =~= Seq::<Seq<char>>::empty());
    assert(string_views(r@) =~= Seq::<Seq<char>>::empty());
    while i < names.len()
        invariant
            i <= names.len(),
            ns == Seq::new(names@.len(), |i: int| names@[i]@),
            string_views(r@) == hits(ns.take(i as int), text@),
        decreases names.len() - i,
    {
        let n = names[i];
        proof {
            assert(ns.take(i + 1).drop_last() =~= ns.take(i as int));
            assert(ns.take(i + 1).last() == n@);
        }
        let count = to_chars(n.as_str()).len();
        if count >= 2 && str_contains(text, n.as_str()) {
            let ghost before = r@;
            r.push(n.clone());
            assert(string_views(r@) =~= string_views(before).push(n@));
        }
        i = i + 1;
    }
    assert(ns.take(names.len() as int) =~= ns);
    r
}

/// The character names and the place names (of two characters or more) that
/// occur in `text`, each in the order of the novel.
pub fn lore_hits(novel: &Novel, text: &str) -> (r: (Vec<String>, Vec<String>))
    ensures
        string_views(r.0@) == hits(character_names(novel.characters@), text@),
        string_views(r.1@) == hits(location_names(novel.locations@), text@),
{
    let mut cn: Vec<&String> = Vec::new();
    let mut i: usize = 0;
    while i < novel.characters.len()
        invariant
            i <= novel.characters.len(),
            cn@.len() == i,
            forall|j: int| 0 <= j < i ==> *cn@[j] == novel.characters@[j].name,
        decreases novel.characters.len() - i,
    {
        cn.push(&novel.characters[i].name);
        i = i + 1;
    }
    let mut ln: Vec<&String> = Vec::new();
    let mut k: usize = 0;
    while k < novel.locations.len()
        invariant
            k <= novel.locations.len(),
            ln@.len() == k,
            forall|j: int| 0 <= j < k ==> *ln@[j] == novel.locations@[j].name,
        decreases novel.locations.len() - k,
    {
        ln.push(&novel.locations[k].name);
        k = k + 1;
    }
    let chars = name_hits(&cn, text);
    let locs = name_hits(&ln, text);
    assert(Seq::new(cn@.len(), |i: int| cn@[i]@) =~= character_names(novel.characters@));
    assert(Seq::new(ln@.len(), |i: int| ln@[i]@) =~= location_names(novel.locations@));
    (chars, locs)
}

/// A name is a lorebook hit exactly when it is one of the names, is at least
/// two characters long, and occurs in the text.
pub proof fn law_hits_are_the_named(names: Seq<Seq<char>>, text: Seq<char>, n: Seq<char>)
    ensures
        hits(names, text).contains(n) <==> (names.contains(n) && n.len() >= 2 && has_sub(text, n)),
    decreases names.len(),
{
    if names.len() > 0 {
        let init = names.drop_last();
        law_hits_are_the_named(init, text, n);
        assert(names =~= init.push(names.last()));
        if names.contains(n) && n != names.last() {
            let j = choose|j: int| 0 <= j < names.len() && names[j] == n;
            assert(init[j] == n);
        }
        if init.contains(n) {
            let j = choose|j: int| 0 <= j < init.len() && init[j] == n;
            assert(names[j] == n);
        }
        if n == names.last() {
            assert(names[names.len() - 1] == n);
        }
        let rest = hits(init, text);
        if n.len() >= 2 && has_sub(text, names.last()) && n == names.last() {
            assert(rest.push(n)[rest.len() as int] == n);
        }
        if rest.push(names.last()).contains(n) && !rest.contains(n) {
            let j = choose|j: int| 0 <= j < rest.len() + 1 && rest.push(names.last())[j] == n;
            assert(j == rest.len());
        }
        if rest.contains(n) {
            let j = choose|j: int| 0 <= j < rest.len() && rest[j] == n;
            assert(rest.push(names.last())[j] == n);
        }
    }
}

/// With injection on, every character and every place of the novel whose name
/// (of two characters or more) occurs in the last [`LORE_WINDOW`] characters of
/// the chapter is injected into the request; nothing else is.
pub proof fn law_lore_injects_named_cards(novel: Novel, text: Seq<char>, n: Seq<char>)
    ensures
        injected_names(novel, text, true).contains(n) <==> (
            (character_names(novel.characters@).contains(n) || location_names(novel.locations@).contains(n))
            && n.len() >= 2 && has_sub(tail(text, LORE_WINDOW as nat), n)),
        !injected_names(novel, text, false).contains(n),
{
    let t = tail(text, LORE_WINDOW as nat);
    let hc = hits(character_names(novel.characters@), t);
    let hl = hits(location_names(novel.locations@), t);
    law_hits_are_the_named(character_names(novel.characters@), t, n);
    law_hits_are_the_named(location_names(novel.locations@), t, n);
    if (hc + hl).contains(n) {
        let j = choose|j: int| 0 <= j < (hc + hl).len() && (hc + hl)[j] == n;
        if j < hc.len() {
            assert(hc[j] == n);
        } else {
            assert(hl[j - hc.len()] == n);
        }
    }
    if hc.contains(n) {
        let j = choose|j: int| 0 <= j < hc.len() && hc[j] == n;
        assert((hc + hl)[j] == n);
    }
    if hl.contains(n) {
        let j = choose|j: int| 0 <= j < hl.len() && hl[j] == n;
        assert((hc + hl)[hc.len() + j] == n);
    }
}

// ---------------------------------------------------------------------------
// The full context
// ---------------------------------------------------------------------------

/// The names injected for `text`: the character hits, then the place hits, in
/// the last [`LORE_WINDOW`] characters of the chapter; none without injection.
pub open spec fn injected_names(novel: Novel, text: Seq<char>, inject: bool) -> Seq<Seq<char>> {
    if inject {
        let t = tail(text, LORE_WINDOW as nat);
        hits(character_names(novel.characters@), t) + hits(location_names(novel.locations@), t)
    } else {
        Seq::empty()
    }
}

/// The context triple (outline, characters, world) for a chapter.
pub open spec fn context_of(novel: Novel, text: Seq<char>, inject: bool) -> (Seq<char>, Seq<char>, Seq<char>) {
    (
        outline_text(novel.outline@),
        characters_text(novel.characters@, injected_names(novel, text, inject)),
        world_text(novel.locations@),
    )
}

/// Builds the (outline, characters, world) context of a chapter; with
/// `inject_lore`, the cards of the characters and places that occur in the last
/// [`LORE_WINDOW`] characters of the chapter are injected.
pub fn build_context(novel: &Novel, chapter_text: &str, inject_lore: bool) -> (r: (String, String, String))
    ensures
        (r.0@, r.1@, r.2@) == context_of(*novel, chapter_text@, inject_lore),
{
    let outline = outline_to_text(novel);
    let world = world_to_text(novel);
    let (hits_c, hits_l) = if inject_lore {
        let t = tail_chars(chapter_text, LORE_WINDOW);
        lore_hits(novel, t.as_str())
    } else {
        (Vec::new(), Vec::new())
    };
    let mut names = hits_c;
    let ghost first = names@;
    let mut k: usize = 0;
    while k < hits_l.len()
        invariant
            k <= hits_l.len(),
            names@ == first + hits_l@.take(k as int),
        decreases hits_l.len() - k,
    {
        names.push(hits_l[k].clone());
        assert(hits_l@.take(k + 1) =~= hits_l@.take(k as int).push(hits_l@[k as int]));
        k = k + 1;
    }
    assert(hits_l@.take(hits_l.len() as int) =~= hits_l@);
    assert(string_views(names@) =~= string_views(first) + string_views(hits_l@));
    if !inject_lore {
        assert(string_views(names@) =~= Seq::<Seq<char>>::empty());
    }
    let chars = characters_to_text(novel, names.as_slice());
    (outline, chars, world)
}

} // verus!
