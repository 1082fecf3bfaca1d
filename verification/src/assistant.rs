//! The assistant panel's decisions: the label of each action, the summaries
//! handed to whole-manuscript reviews, and the request that each command of
//! the palette makes of the AI.

use vstd::prelude::*;
use crate::context::{character_names, characters_text, context_of, outline_text, world_text};
use crate::model::{all_chapters, chapter_with_id, first_key, ChapterMeta, Novel};
use crate::prompts::{
    build_chapter_outline, build_character_card, build_consistency, build_continue, build_expand,
    build_feedback, build_logic_check, build_naming, build_outline, build_plot_ideas, build_polish,
    build_summary, build_synopsis, build_world, chapter_outline_prompt, character_card_template,
    consistency_template, continue_prompt, expand_template, feedback_template, logic_check_prompt,
    naming_template, or_default, outline_template, plot_ideas_prompt, polish_template,
    summaries_text, summary_template, synopsis_template, user_message, world_template,
    EXPAND_DEFAULT, POLISH_DEFAULT, SUMMARY_HEAD,
};
use crate::shell::Command;
use crate::app::AiMsg;
use crate::outline::{nodes_follow_plan, outline_plan, parse_outline};
use crate::text::{decimal, has_sub, is_blank, str_contains, str_eq, string_of, to_chars, trim, trim_string};
use crate::util::{head, head_chars, truncated};

verus! {

/// The label of the action a command starts.
pub open spec fn action_name(cmd: Command) -> Seq<char> {
    match cmd {
        Command::AiContinue => "续写"@,
        Command::AiOutline => "大纲生成"@,
        Command::AiChapterOutline => "章节细纲"@,
        Command::AiPolish => "润色"@,
        Command::AiExpand => "扩写"@,
        Command::AiSummary => "章节摘要"@,
        Command::AiPlotIdeas => "剧情提示"@,
        Command::AiLogicCheck => "逻辑检查"@,
        Command::AiConsistency => "一致性检查"@,
        Command::AiFeedback => "整稿评审"@,
        Command::AiCharacterCard => "人物卡"@,
        Command::AiWorld => "世界观"@,
        Command::AiNaming => "起名"@,
        Command::AiSynopsis => "简介"@,
        _ => "对话"@,
    }
}

/// The label under which the assistant shows the action of `cmd`; a free
/// conversation for commands that are no AI action.
pub fn action_label(cmd: &Command) -> (r: String)
    ensures
        r@ == action_name(*cmd),
{
    match cmd {
        Command::AiContinue => "续写".to_owned(),
        Command::AiOutline => "大纲生成".to_owned(),
        Command::AiChapterOutline => "章节细纲".to_owned(),
        Command::AiPolish => "润色".to_owned(),
        Command::AiExpand => "扩写".to_owned(),
        Command::AiSummary => "章节摘要".to_owned(),
        Command::AiPlotIdeas => "剧情提示".to_owned(),
        Command::AiLogicCheck => "逻辑检查".to_owned(),
        Command::AiConsistency => "一致性检查".to_owned(),
        Command::AiFeedback => "整稿评审".to_owned(),
        Command::AiCharacterCard => "人物卡".to_owned(),
        Command::AiWorld => "世界观".to_owned(),
        Command::AiNaming => "起名".to_owned(),
        Command::AiSynopsis => "简介".to_owned(),
        _ => "对话".to_owned(),
    }
}

// ---------------------------------------------------------------------------
// Chapter summaries
// ---------------------------------------------------------------------------

/// How many leading characters stand in for a missing summary.
pub const HEAD_CHARS: usize = 120;
pub const NO_SUMMARY_OPEN: &'static str = "（无摘要，开头：";
pub const NO_SUMMARY_CLOSE: &'static str = "…）";

/// The keys of a table of `(key, value)` pairs.
pub open spec fn table_keys(t: Seq<(String, String)>) -> Seq<Seq<char>> {
    Seq::new(t.len(), |i: int| t[i].0@)
}

/// The value for `key` in table `t` (its first entry), if any.
pub open spec fn lookup(t: Seq<(String, String)>, key: Seq<char>) -> Option<Seq<char>> {
    match first_key(table_keys(t), key) {
        Some(k) => Some(t[k as int].1@),
        None => None,
    }
}

/// The summary line of chapter `c`: its summary when there is one, else the
/// beginning of its text, else none.
pub open spec fn summary_line(c: ChapterMeta, sums: Seq<(String, String)>, texts: Seq<(String, String)>) -> Option<(Seq<char>, Seq<char>)> {
    match lookup(sums, c.id@) {
        Some(s) => Some((c.title@, s)),
        None => match lookup(texts, c.id@) {
            Some(t) => Some((c.title@, NO_SUMMARY_OPEN@ + head(t, HEAD_CHARS as nat) + NO_SUMMARY_CLOSE@)),
            None => None,
        },
    }
}

/// The summary lines of chapters `cs`, in order.
pub open spec fn summary_lines(cs: Seq<ChapterMeta>, sums: Seq<(String, String)>, texts: Seq<(String, String)>) -> Seq<(Seq<char>, Seq<char>)>
    decreases cs.len(),
{
    if cs.len() == 0 {
        Seq::empty()
    } else {
        match summary_line(cs.last(), sums, texts) {
            Some(l) => summary_lines(cs.drop_last(), sums, texts).push(l),
            None => summary_lines(cs.drop_last(), sums, texts),
        }
    }
}

/// The views of a sequence of string pairs.
pub open spec fn pair_views(v: Seq<(String, String)>) -> Seq<(Seq<char>, Seq<char>)> {
    Seq::new(v.len(), |i: int| (v[i].0@, v[i].1@))
}

pub(crate) fn table_get<'a>(t: &'a [(String, String)], key: &str) -> (r: Option<&'a String>)
    ensures
        match lookup(t@, key@) {
            Some(v) => r matches Some(x) && x@ == v,
            None => r is None,
        },
{
    let mut j: usize = 0;
    while j < t.len()
        invariant
            j <= t@.len(),
            forall|k: int| 0 <= k < j ==> table_keys(t@)[k] != key@,
        decreases t.len() - j,
    {
        if str_eq(t[j].0.as_str(), key) {
            proof {
                crate::model::lemma_first_key_is(table_keys(t@), key@, j as int);
            }
            return Some(&t[j].1);
        }
        j = j + 1;
    }
    proof {
        crate::model::lemma_first_key(table_keys(t@), key@);
    }
    None
}

/// The summaries handed to the whole-manuscript reviews, chapter by chapter
/// in reading order, as `(title, line)`: the chapter's summary from `sums`
/// (by chapter id), or else the first [`HEAD_CHARS`] characters of its text
/// from `texts`; a chapter with neither is left out.
pub fn chapter_summaries(novel: &Novel, sums: &[(String, String)], texts: &[(String, String)]) -> (r: Vec<(String, String)>)
    ensures
        pair_views(r@) == summary_lines(all_chapters(novel.volumes@), sums@, texts@),
{
    let cs = novel.chapters_all();
    let ghost all = all_chapters(novel.volumes@);
    let mut out: Vec<(String, String)> = Vec::new();
    let mut i: usize = 0;
    while i < cs.len()
        invariant
            cs@.len() == all.len(),
            forall|k: int| 0 <= k < cs@.len() ==> *cs@[k] == all[k],
            i <= cs@.len(),
            pair_views(out@) == summary_lines(all.take(i as int), sums@, texts@),
        decreases cs.len() - i,
    {
        let c = cs[i];
        proof {
            assert(all.take(i + 1).drop_last() =~= all.take(i as int));
            assert(all.take(i + 1).last() == *c);
        }
        let ghost before = out@;
        match table_get(sums, c.id.as_str()) {
            Some(s) => {
                out.push((c.title.clone(), s.clone()));
                assert(pair_views(out@) =~= pair_views(before).push((c.title@, s@)));
            },
            None => match table_get(texts, c.id.as_str()) {
                Some(t) => {
                    let mut line = NO_SUMMARY_OPEN.to_owned();
                    let head = head_chars(t.as_str(), HEAD_CHARS);
                    line.append(head.as_str());
                    line.append(NO_SUMMARY_CLOSE);
                    out.push((c.title.clone(), line));
                    assert(pair_views(out@) =~= pair_views(before).push(
                        (c.title@, NO_SUMMARY_OPEN@ + crate::util::head(t@, HEAD_CHARS as nat) + NO_SUMMARY_CLOSE@),
                    ));
                },
                None => {},
            },
        }
        i = i + 1;
    }
    assert(all.take(cs@.len() as int) =~= all);
    out
}

// ---------------------------------------------------------------------------
// Requests made by the palette's AI commands
// ---------------------------------------------------------------------------

/// Reported when polishing is asked for without selected text.
pub const POLISH_NEEDS_SELECTION: &'static str = "请先在正文中选中要润色的文本";
/// Reported when expanding is asked for without selected text.
pub const EXPAND_NEEDS_SELECTION: &'static str = "请先在正文中选中要扩写的文本";
/// The length asked for when an outline is generated from the palette.
pub const OUTLINE_LENGTH: &'static str = "长篇";
/// The role of a character card designed from the palette.
pub const LEAD_ROLE: &'static str = "主角";
/// The world designed from the palette.
pub const MAIN_WORLD: &'static str = "主世界";
pub const WORLD_KIND: &'static str = "世界观";
/// The style and kind of the names asked for from the palette, and how many.
pub const NAMING_SEED: &'static str = "古典、有仙气";
pub const NAMING_KIND: &'static str = "人物";
pub const NAMING_COUNT: usize = 8;

/// What the AI is asked, as the text of the single user message, for command
/// `cmd` in the open chapter (`text`, `title`) with `sel` selected: `Ok(None)`
/// for a command that is no AI action, `Err` with the message shown when the
/// action needs a selection and there is none.
pub open spec fn action_prompt(
    novel: Novel,
    cmd: Command,
    text: Seq<char>,
    title: Seq<char>,
    sel: Seq<char>,
    new_name: Seq<char>,
    use_lore: bool,
    summaries: Seq<(String, String)>,
) -> Result<Option<Seq<char>>, Seq<char>> {
    match cmd {
        Command::AiContinue => Ok(Some(continue_prompt(novel, text, title, Seq::empty(), use_lore))),
        Command::AiOutline => Ok(
            Some(
                outline_template(
                    novel.meta.title@,
                    novel.meta.genre@,
                    novel.meta.description@,
                    OUTLINE_LENGTH@,
                    Seq::empty(),
                ),
            ),
        ),
        Command::AiChapterOutline => Ok(Some(chapter_outline_prompt(novel, text, title))),
        Command::AiPolish => if trim(sel).len() == 0 {
            Err(POLISH_NEEDS_SELECTION@)
        } else {
            Ok(Some(polish_template(POLISH_DEFAULT@, sel)))
        },
        Command::AiExpand => if trim(sel).len() == 0 {
            Err(EXPAND_NEEDS_SELECTION@)
        } else {
            Ok(Some(expand_template(EXPAND_DEFAULT@, sel)))
        },
        Command::AiSummary => Ok(Some(summary_template(title, truncated(text, SUMMARY_HEAD as nat)))),
        Command::AiPlotIdeas => Ok(Some(plot_ideas_prompt(novel, text, title))),
        Command::AiLogicCheck => Ok(Some(logic_check_prompt(novel, text, title))),
        Command::AiConsistency => Ok(
            Some(
                consistency_template(
                    novel.meta.title@,
                    characters_text(novel.characters@, character_names(novel.characters@)),
                    summaries_text(summaries),
                ),
            ),
        ),
        Command::AiFeedback => Ok(
            Some(
                feedback_template(
                    novel.meta.title@,
                    novel.meta.description@,
                    outline_text(novel.outline@),
                    summaries_text(summaries),
                ),
            ),
        ),
        Command::AiCharacterCard => Ok(
            Some(
                character_card_template(
                    novel.meta.title@,
                    if trim(new_name).len() == 0 {
                        LEAD_ROLE@
                    } else {
                        trim(new_name)
                    },
                    LEAD_ROLE@,
                    novel.meta.description@,
                    Seq::empty(),
                ),
            ),
        ),
        Command::AiWorld => Ok(
            Some(
                world_template(
                    novel.meta.title@,
                    MAIN_WORLD@,
                    WORLD_KIND@,
                    novel.meta.description@,
                    world_text(novel.locations@),
                    Seq::empty(),
                ),
            ),
        ),
        Command::AiNaming => Ok(
            Some(
                naming_template(
                    novel.meta.title@,
                    novel.meta.genre@,
                    NAMING_KIND@,
                    decimal(NAMING_COUNT as nat),
                    NAMING_SEED@,
                ),
            ),
        ),
        Command::AiSynopsis => Ok(
            Some(
                synopsis_template(
                    novel.meta.title@,
                    novel.meta.genre@,
                    novel.meta.description@,
                    outline_text(novel.outline@),
                ),
            ),
        ),
        _ => Ok(None),
    }
}

/// The request that command `cmd` makes of the AI in the open chapter
/// (`chapter_text`, `chapter_title`), with `selected` the selected text,
/// `new_name` the name typed for a new character, `use_lore` whether
/// character cards are injected, and `summaries` the chapter summaries (see
/// [`chapter_summaries`]). `Ok(Some((messages, start)))` gives the messages
/// and that the request starts at once; `Ok(None)` answers a command that is
/// no AI action; `Err` gives the message to show when the action needs a
/// selection and there is none.
pub fn build_action_msgs(
    novel: &Novel,
    cmd: &Command,
    chapter_text: &str,
    chapter_title: &str,
    selected: &str,
    new_name: &str,
    use_lore: bool,
    summaries: &[(String, String)],
) -> (r: Result<Option<(Vec<(String, String)>, bool)>, String>)
    ensures
        match (r, action_prompt(*novel, *cmd, chapter_text@, chapter_title@, selected@, new_name@, use_lore, summaries@)) {
            (Ok(Some((m, start))), Ok(Some(p))) => user_message(m@, p) && start,
            (Ok(None), Ok(None)) => true,
            (Err(e), Err(f)) => e@ == f,
            _ => false,
        },
{
    proof {
        reveal_strlit("");
    }
    let empty = "";
    assert(empty@ =~= Seq::<char>::empty());
    match cmd {
        Command::AiContinue => Ok(Some((build_continue(novel, chapter_text, chapter_title, empty, use_lore), true))),
        Command::AiOutline => Ok(
            Some(
                (
                    build_outline(
                        novel.meta.title.as_str(),
                        novel.meta.description.as_str(),
                        novel.meta.genre.as_str(),
                        OUTLINE_LENGTH,
                        empty,
                    ),
                    true,
                ),
            ),
        ),
        Command::AiChapterOutline => Ok(Some((build_chapter_outline(novel, chapter_text, chapter_title), true))),
        Command::AiPolish => {
            if is_blank(selected) {
                return Err(POLISH_NEEDS_SELECTION.to_owned());
            }
            assert(or_default(empty@, POLISH_DEFAULT@) == POLISH_DEFAULT@);
            Ok(Some((build_polish(selected, empty), true)))
        },
        Command::AiExpand => {
            if is_blank(selected) {
                return Err(EXPAND_NEEDS_SELECTION.to_owned());
            }
            assert(or_default(empty@, EXPAND_DEFAULT@) == EXPAND_DEFAULT@);
            Ok(Some((build_expand(selected, empty), true)))
        },
        Command::AiSummary => Ok(Some((build_summary(chapter_title, chapter_text), true))),
        Command::AiPlotIdeas => Ok(Some((build_plot_ideas(novel, chapter_text, chapter_title), true))),
        Command::AiLogicCheck => Ok(Some((build_logic_check(novel, chapter_text, chapter_title), true))),
        Command::AiConsistency => Ok(Some((build_consistency(novel, summaries), true))),
        Command::AiFeedback => Ok(Some((build_feedback(novel, summaries), true))),
        Command::AiCharacterCard => {
            let typed = trim_string(new_name);
            let name: &str = if typed.as_str().is_empty() {
                LEAD_ROLE
            } else {
                typed.as_str()
            };
            Ok(Some((build_character_card(novel, name, LEAD_ROLE, empty), true)))
        },
        Command::AiWorld => Ok(Some((build_world(novel, MAIN_WORLD, WORLD_KIND, empty), true))),
        Command::AiNaming => Ok(Some((build_naming(novel, NAMING_SEED, NAMING_KIND, NAMING_COUNT), true))),
        Command::AiSynopsis => Ok(Some((build_synopsis(novel), true))),
        _ => Ok(None),
    }
}


// ---------------------------------------------------------------------------
// Using a reply
// ---------------------------------------------------------------------------

/// What separates an inserted reply from the text before it.
pub const INSERT_OPEN: &'static str = "\n\n";
/// What ends an inserted reply.
pub const INSERT_CLOSE: &'static str = "\n";
/// How many characters of a reply become a chapter summary.
pub const SUMMARY_CHARS: usize = 400;
/// The actions whose reply can become a chapter summary.
pub const SUMMARY_ACTION: &'static str = "章节摘要";
pub const SHORT_SUMMARY_ACTION: &'static str = "摘要";
/// The word in an action whose reply can become the outline.
pub const OUTLINE_WORD: &'static str = "大纲";

/// `text` with the trimmed reply `content` inserted at character `at` (the
/// end when `at` is beyond it), set apart by a blank line before and a line
/// break after.
pub open spec fn inserted(text: Seq<char>, at: int, content: Seq<char>) -> Seq<char> {
    let p = if at < text.len() { at } else { text.len() as int };
    text.take(p) + INSERT_OPEN@ + trim(content) + INSERT_CLOSE@ + text.skip(p)
}

/// The open chapter's text with a reply inserted at the cursor, or at the end
/// when the chapter has no cursor yet.
pub fn insert_at_cursor(text: &str, cursor: Option<usize>, content: &str) -> (r: String)
    ensures
        r@ == inserted(
            text@,
            match cursor {
                Some(c) => c as int,
                None => text@.len() as int,
            },
            content@,
        ),
{
    let cs = to_chars(text);
    let at = match cursor {
        Some(c) => if c < cs.len() {
            c
        } else {
            cs.len()
        },
        None => cs.len(),
    };
    let mut out = string_of(&cs, 0, at);
    out.append(INSERT_OPEN);
    let t = trim_string(content);
    out.append(t.as_str());
    out.append(INSERT_CLOSE);
    let rest = string_of(&cs, at, cs.len());
    out.append(rest.as_str());
    assert(cs@.subrange(0, at as int) =~= cs@.take(at as int));
    assert(cs@.subrange(at as int, cs@.len() as int) =~= cs@.skip(at as int));
    out
}

/// Whether the reply `m` offers to become the novel's outline: its action
/// concerns the outline and it is not blank.
pub fn offers_outline(m: &AiMsg) -> (r: bool)
    ensures
        r == (has_sub(m.action@, OUTLINE_WORD@) && trim(m.content@).len() > 0),
{
    str_contains(m.action.as_str(), OUTLINE_WORD) && !is_blank(m.content.as_str())
}

/// Whether the reply `m` offers to become the open chapter's summary: it
/// answers a summary request and it is not blank.
pub fn offers_summary(m: &AiMsg) -> (r: bool)
    ensures
        r == ((m.action@ == SUMMARY_ACTION@ || m.action@ == SHORT_SUMMARY_ACTION@) && trim(m.content@).len() > 0),
{
    (str_eq(m.action.as_str(), SUMMARY_ACTION) || str_eq(m.action.as_str(), SHORT_SUMMARY_ACTION)) && !is_blank(
        m.content.as_str(),
    )
}

/// The chapter summary made from a reply: its first [`SUMMARY_CHARS`] characters.
pub fn summary_from_reply(content: &str) -> (r: String)
    ensures
        r@ == head(content@, SUMMARY_CHARS as nat),
{
    head_chars(content, SUMMARY_CHARS)
}

/// Makes the outline parsed from a reply the novel's outline. A reply in
/// which no volume is found leaves the novel as it was. Returns whether the
/// outline was replaced.
pub fn apply_outline_reply(novel: &mut Novel, content: &str) -> (applied: bool)
    ensures
        applied == (outline_plan(content@).len() > 0),
        applied ==> nodes_follow_plan(final(novel).outline@, outline_plan(content@)),
        !applied ==> final(novel).outline == old(novel).outline,
        final(novel).meta == old(novel).meta,
        final(novel).volumes == old(novel).volumes,
        final(novel).characters == old(novel).characters,
        final(novel).locations == old(novel).locations,
        final(novel).timeline == old(novel).timeline,
        final(novel).tasks == old(novel).tasks,
        final(novel).chains == old(novel).chains,
        final(novel).stats == old(novel).stats,
        final(novel).ai_summary == old(novel).ai_summary,
{
    let nodes = parse_outline(content);
    if nodes.len() == 0 {
        return false;
    }
    novel.outline = nodes;
    true
}

// ---------------------------------------------------------------------------
// Requests made from the panels
// ---------------------------------------------------------------------------

/// The scale asked for when the outline panel generates an outline.
pub const OUTLINE_SCALE: &'static str = "长篇（约 100 万字，100 卷规模）";

/// The title of the chapter with id `cid`; empty when there is none.
pub open spec fn title_of(novel: Novel, cid: Seq<char>) -> Seq<char> {
    match chapter_with_id(novel.volumes@, cid) {
        Some(c) => c.title@,
        None => Seq::empty(),
    }
}

/// The request to continue the open chapter `active` (whose text is
/// `chapter_text`) following `instruction`; no message without an open novel
/// or an open chapter.
pub fn build_continue_msgs(
    novel: Option<&Novel>,
    active: Option<&str>,
    chapter_text: &str,
    instruction: &str,
    use_lore: bool,
) -> (r: Vec<(String, String)>)
    ensures
        match (novel, active) {
            (Some(n), Some(cid)) => user_message(
                r@,
                continue_prompt(*n, chapter_text@, title_of(*n, cid@), instruction@, use_lore),
            ),
            _ => r@.len() == 0,
        },
{
    proof {
        reveal_strlit("");
    }
    match (novel, active) {
        (Some(n), Some(cid)) => {
            let title: &str = match n.find_chapter(cid) {
                Some(c) => c.title.as_str(),
                None => "",
            };
            build_continue(n, chapter_text, title, instruction, use_lore)
        },
        _ => Vec::new(),
    }
}

/// The request to generate the outline of the open novel at the scale
/// [`OUTLINE_SCALE`]; no message without an open novel.
pub fn build_outline_msgs(novel: Option<&Novel>) -> (r: Vec<(String, String)>)
    ensures
        match novel {
            Some(n) => user_message(
                r@,
                outline_template(n.meta.title@, n.meta.genre@, n.meta.description@, OUTLINE_SCALE@, Seq::empty()),
            ),
            None => r@.len() == 0,
        },
{
    proof {
        reveal_strlit("");
    }
    match novel {
        Some(n) => build_outline(
            n.meta.title.as_str(),
            n.meta.description.as_str(),
            n.meta.genre.as_str(),
            OUTLINE_SCALE,
            "",
        ),
        None => Vec::new(),
    }
}

/// The request to design the card of character `name` with role `role`; no
/// message without an open novel.
pub fn build_character_msgs(novel: Option<&Novel>, name: &str, role: &str) -> (r: Vec<(String, String)>)
    ensures
        match novel {
            Some(n) => user_message(
                r@,
                character_card_template(n.meta.title@, name@, role@, n.meta.description@, Seq::empty()),
            ),
            None => r@.len() == 0,
        },
{
    proof {
        reveal_strlit("");
    }
    match novel {
        Some(n) => build_character_card(n, name, role, ""),
        None => Vec::new(),
    }
}

/// The request to design the setting `name` of kind `kind`; an empty name
/// asks for the main world ([`MAIN_WORLD`], [`WORLD_KIND`]). No message
/// without an open novel.
pub fn build_world_msgs(novel: Option<&Novel>, name: &str, kind: &str) -> (r: Vec<(String, String)>)
    ensures
        match novel {
            Some(n) => user_message(
                r@,
                world_template(
                    n.meta.title@,
                    if name@.len() == 0 { MAIN_WORLD@ } else { name@ },
                    if name@.len() == 0 { WORLD_KIND@ } else { kind@ },
                    n.meta.description@,
                    world_text(n.locations@),
                    Seq::empty(),
                ),
            ),
            None => r@.len() == 0,
        },
{
    proof {
        reveal_strlit("");
    }
    match novel {
        Some(n) => {
            let (name, kind) = if name.is_empty() {
                (MAIN_WORLD, WORLD_KIND)
            } else {
                (name, kind)
            };
            build_world(n, name, kind, "")
        },
        None => Vec::new(),
    }
}

} // verus!
