//! Prompt construction for the AI writing assistant: each prompt is one user
//! message made of a fixed template filled with the novel's context.

use vstd::prelude::*;
use crate::context::{
    build_context, character_names, characters_text, characters_to_text, context_of,
    outline_text, outline_to_text, string_views, world_text, world_to_text,
};
use crate::model::Novel;
use crate::text::{decimal, decimal_string, has_sub, is_blank, str_contains, trim};
use crate::util::{tail, tail_chars, truncate_chars, truncated};

verus! {

/// The role of the messages built here.
pub const USER_ROLE: &'static str = "user";

/// `r` is the single user message `content`.
pub open spec fn user_message(r: Seq<(String, String)>, content: Seq<char>) -> bool {
    &&& r.len() == 1
    &&& r[0].0@ == USER_ROLE@
    &&& r[0].1@ == content
}

fn wrap_user(content: String) -> (r: Vec<(String, String)>)
    ensures
        user_message(r@, content@),
{
    let mut r: Vec<(String, String)> = Vec::new();
    r.push((USER_ROLE.to_owned(), content));
    r
}

/// How many trailing characters of the chapter a continuation sees.
pub const CONTINUE_TAIL: usize = 2500;
/// How many leading characters of the chapter a detailed outline sees.
pub const CHAPTER_OUTLINE_HEAD: usize = 2000;
/// How many leading characters of the chapter a summary sees.
pub const SUMMARY_HEAD: usize = 6000;
/// How many leading characters of the chapter a logic check sees.
pub const LOGIC_HEAD: usize = 4000;
/// How many trailing characters of the chapter the plot ideas see.
pub const PLOT_TAIL: usize = 1500;

/// The instruction used for polishing when none is given.
pub const POLISH_DEFAULT: &'static str = "保持原意，提升文笔、画面感与节奏";
/// The instruction used for expanding when none is given.
pub const EXPAND_DEFAULT: &'static str = "扩写到原来的 2~3 倍，保持文风一致";

pub const SUMMARY_LINE_OPEN: &'static str = "《";
pub const SUMMARY_LINE_MID: &'static str = "》：";
pub const SUMMARY_LINE_END: &'static str = "\n";

pub const CONTINUE_0: &'static str = "你正在续写小说《";
pub const CONTINUE_1: &'static str = "》的章节《";
pub const CONTINUE_2: &'static str = "》。\n\n作品大纲：\n";
pub const CONTINUE_3: &'static str = "\n\n已出场人物：\n";
pub const CONTINUE_4: &'static str = "\n\n世界观：\n";
pub const CONTINUE_5: &'static str = "\n\n当前章节已有的正文（末尾部分）：\n=====\n";
pub const CONTINUE_6: &'static str = "\n=====\n\n请紧接上文续写正文，要求：\n1. 文风、人称、视角与上文保持一致，不跳脱\n2. 符合大纲走向，不引入大纲外的新势力/新设定（如需引入需自然铺垫）\n3. 对话与动作描写比例均衡，注重画面感\n4. 直接输出续写正文，不要解释、不要加标题、不要用引号包裹\n5. 字数 600~1200 字，在情节推进处自然收尾\n\n补充要求：";

/// The `continue` template filled with its arguments.
pub open spec fn continue_template(title: Seq<char>, chapter_title: Seq<char>, outline: Seq<char>, chars: Seq<char>, world: Seq<char>, tail: Seq<char>, instruction: Seq<char>) -> Seq<char> {
    CONTINUE_0@ + title + CONTINUE_1@ + chapter_title + CONTINUE_2@ + outline + CONTINUE_3@ + chars + CONTINUE_4@ + world + CONTINUE_5@ + tail + CONTINUE_6@ + instruction
}

fn fill_continue(title: &str, chapter_title: &str, outline: &str, chars: &str, world: &str, tail: &str, instruction: &str) -> (r: String)
    ensures
        r@ == continue_template(title@, chapter_title@, outline@, chars@, world@, tail@, instruction@),
{
    let mut r = String::new();
    r.append(CONTINUE_0);
    r.append(title);
    r.append(CONTINUE_1);
    r.append(chapter_title);
    r.append(CONTINUE_2);
    r.append(outline);
    r.append(CONTINUE_3);
    r.append(chars);
    r.append(CONTINUE_4);
    r.append(world);
    r.append(CONTINUE_5);
    r.append(tail);
    r.append(CONTINUE_6);
    r.append(instruction);
    assert(r@ =~= continue_template(title@, chapter_title@, outline@, chars@, world@, tail@, instruction@));
    r
}

pub const OUTLINE_0: &'static str = "请为小说《";
pub const OUTLINE_1: &'static str = "》生成完整的创作大纲。\n\n题材：";
pub const OUTLINE_2: &'static str = "\n核心设定/一句话简介：";
pub const OUTLINE_3: &'static str = "\n目标篇幅：";
pub const OUTLINE_4: &'static str = "\n额外要求：";
pub const OUTLINE_5: &'static str = "\n\n请按以下格式输出（严格遵循，不要添加其他内容）：\n【卷一：卷标题】\n- 第1章 章节标题：本章剧情要点（1~2句）\n- 第2章 章节标题：本章剧情要点\n…\n【卷二：卷标题】\n- …\n\n要求：\n1. 每卷 5~10 章，按目标篇幅控制总章数\n2. 情节有起承转合，卷末留有钩子\n3. 标注伏笔与人物成长线索（可在要点后加【伏笔：…】）";

/// The `outline` template filled with its arguments.
pub open spec fn outline_template(title: Seq<char>, genre: Seq<char>, premise: Seq<char>, target_len: Seq<char>, extra: Seq<char>) -> Seq<char> {
    OUTLINE_0@ + title + OUTLINE_1@ + genre + OUTLINE_2@ + premise + OUTLINE_3@ + target_len + OUTLINE_4@ + extra + OUTLINE_5@
}

fn fill_outline(title: &str, genre: &str, premise: &str, target_len: &str, extra: &str) -> (r: String)
    ensures
        r@ == outline_template(title@, genre@, premise@, target_len@, extra@),
{
    let mut r = String::new();
    r.append(OUTLINE_0);
    r.append(title);
    r.append(OUTLINE_1);
    r.append(genre);
    r.append(OUTLINE_2);
    r.append(premise);
    r.append(OUTLINE_3);
    r.append(target_len);
    r.append(OUTLINE_4);
    r.append(extra);
    r.append(OUTLINE_5);
    assert(r@ =~= outline_template(title@, genre@, premise@, target_len@, extra@));
    r
}

pub const CHAPTER_OUTLINE_0: &'static str = "为小说《";
pub const CHAPTER_OUTLINE_1: &'static str = "》的章节《";
pub const CHAPTER_OUTLINE_2: &'static str = "》生成写作细纲。\n\n作品大纲：\n";
pub const CHAPTER_OUTLINE_3: &'static str = "\n\n人物：\n";
pub const CHAPTER_OUTLINE_4: &'static str = "\n\n章节已有内容：\n";
pub const CHAPTER_OUTLINE_5: &'static str = "\n\n请输出：\n1. 本回目的（推进什么、揭示什么、埋什么伏笔）\n2. 分场次结构：场景1（地点/出场人物/发生的事/情绪节奏）\n3. 结尾钩子建议\n4. 3 个可选的意外/转折方向\n\n简明扼要，不要空话。";

/// The `chapter_outline` template filled with its arguments.
pub open spec fn chapter_outline_template(title: Seq<char>, chapter_title: Seq<char>, outline: Seq<char>, chars: Seq<char>, text: Seq<char>) -> Seq<char> {
    CHAPTER_OUTLINE_0@ + title + CHAPTER_OUTLINE_1@ + chapter_title + CHAPTER_OUTLINE_2@ + outline + CHAPTER_OUTLINE_3@ + chars + CHAPTER_OUTLINE_4@ + text + CHAPTER_OUTLINE_5@
}

fn fill_chapter_outline(title: &str, chapter_title: &str, outline: &str, chars: &str, text: &str) -> (r: String)
    ensures
        r@ == chapter_outline_template(title@, chapter_title@, outline@, chars@, text@),
{
    let mut r = String::new();
    r.append(CHAPTER_OUTLINE_0);
    r.append(title);
    r.append(CHAPTER_OUTLINE_1);
    r.append(chapter_title);
    r.append(CHAPTER_OUTLINE_2);
    r.append(outline);
    r.append(CHAPTER_OUTLINE_3);
    r.append(chars);
    r.append(CHAPTER_OUTLINE_4);
    r.append(text);
    r.append(CHAPTER_OUTLINE_5);
    assert(r@ =~= chapter_outline_template(title@, chapter_title@, outline@, chars@, text@));
    r
}

pub const POLISH_0: &'static str = "请对下面的文本进行润色改写。\n要求：";
pub const POLISH_1: &'static str = "\n直接输出润色后的完整文本，不要解释，不要加引号。\n\n=====\n";
pub const POLISH_2: &'static str = "\n=====";

/// The `polish` template filled with its arguments.
pub open spec fn polish_template(instruction: Seq<char>, selected: Seq<char>) -> Seq<char> {
    POLISH_0@ + instruction + POLISH_1@ + selected + POLISH_2@
}

fn fill_polish(instruction: &str, selected: &str) -> (r: String)
    ensures
        r@ == polish_template(instruction@, selected@),
{
    let mut r = String::new();
    r.append(POLISH_0);
    r.append(instruction);
    r.append(POLISH_1);
    r.append(selected);
    r.append(POLISH_2);
    assert(r@ =~= polish_template(instruction@, selected@));
    r
}

pub const EXPAND_0: &'static str = "请扩写下面的文本：补充细节、氛围、动作与心理描写，让节奏更饱满。\n要求：";
pub const EXPAND_1: &'static str = "\n直接输出扩写后的完整文本，不要解释。\n\n=====\n";
pub const EXPAND_2: &'static str = "\n=====";

/// The `expand` template filled with its arguments.
pub open spec fn expand_template(instruction: Seq<char>, selected: Seq<char>) -> Seq<char> {
    EXPAND_0@ + instruction + EXPAND_1@ + selected + EXPAND_2@
}

fn fill_expand(instruction: &str, selected: &str) -> (r: String)
    ensures
        r@ == expand_template(instruction@, selected@),
{
    let mut r = String::new();
    r.append(EXPAND_0);
    r.append(instruction);
    r.append(EXPAND_1);
    r.append(selected);
    r.append(EXPAND_2);
    assert(r@ =~= expand_template(instruction@, selected@));
    r
}

pub const SUMMARY_0: &'static str = "请用 150 字以内概括章节《";
pub const SUMMARY_1: &'static str = "》的情节，要求：包含出场人物、关键事件、留下的伏笔。\n只输出摘要正文，不要其他内容。\n\n=====\n";
pub const SUMMARY_2: &'static str = "\n=====";

/// The `summary` template filled with its arguments.
pub open spec fn summary_template(chapter_title: Seq<char>, text: Seq<char>) -> Seq<char> {
    SUMMARY_0@ + chapter_title + SUMMARY_1@ + text + SUMMARY_2@
}

fn fill_summary(chapter_title: &str, text: &str) -> (r: String)
    ensures
        r@ == summary_template(chapter_title@, text@),
{
    let mut r = String::new();
    r.append(SUMMARY_0);
    r.append(chapter_title);
    r.append(SUMMARY_1);
    r.append(text);
    r.append(SUMMARY_2);
    assert(r@ =~= summary_template(chapter_title@, text@));
    r
}

pub const LOGIC_0: &'static str = "请检查小说《";
pub const LOGIC_1: &'static str = "》当前章节《";
pub const LOGIC_2: &'static str = "》的逻辑问题。\n\n大纲：\n";
pub const LOGIC_3: &'static str = "\n\n世界观/设定：\n";
pub const LOGIC_4: &'static str = "\n\n章节正文：\n";
pub const LOGIC_5: &'static str = "\n\n请输出：\n1. 情节漏洞与逻辑硬伤（引用原文佐证）\n2. 人物行为是否违背人设\n3. 时间线/设定冲突\n4. 修改建议\n\n若无问题请直接说“未发现明显逻辑问题”。";

/// The `logic_check` template filled with its arguments.
pub open spec fn logic_check_template(title: Seq<char>, chapter_title: Seq<char>, outline: Seq<char>, world: Seq<char>, text: Seq<char>) -> Seq<char> {
    LOGIC_0@ + title + LOGIC_1@ + chapter_title + LOGIC_2@ + outline + LOGIC_3@ + world + LOGIC_4@ + text + LOGIC_5@
}

fn fill_logic_check(title: &str, chapter_title: &str, outline: &str, world: &str, text: &str) -> (r: String)
    ensures
        r@ == logic_check_template(title@, chapter_title@, outline@, world@, text@),
{
    let mut r = String::new();
    r.append(LOGIC_0);
    r.append(title);
    r.append(LOGIC_1);
    r.append(chapter_title);
    r.append(LOGIC_2);
    r.append(outline);
    r.append(LOGIC_3);
    r.append(world);
    r.append(LOGIC_4);
    r.append(text);
    r.append(LOGIC_5);
    assert(r@ =~= logic_check_template(title@, chapter_title@, outline@, world@, text@));
    r
}

pub const PLOT_0: &'static str = "作为小说《";
pub const PLOT_1: &'static str = "》的剧情顾问，请给出后续剧情的 5 个发展方向。\n\n大纲：\n";
pub const PLOT_2: &'static str = "\n\n人物：\n";
pub const PLOT_3: &'static str = "\n\n世界观：\n";
pub const PLOT_4: &'static str = "\n\n当前章节《";
pub const PLOT_5: &'static str = "》末尾：\n";
pub const PLOT_6: &'static str = "\n\n每个方向给出：名称、一句话概述、潜在冲突、风险点。\n要新颖、符合题材调性、能推动主线。";

/// The `plot_ideas` template filled with its arguments.
pub open spec fn plot_ideas_template(title: Seq<char>, outline: Seq<char>, chars: Seq<char>, world: Seq<char>, chapter_title: Seq<char>, tail: Seq<char>) -> Seq<char> {
    PLOT_0@ + title + PLOT_1@ + outline + PLOT_2@ + chars + PLOT_3@ + world + PLOT_4@ + chapter_title + PLOT_5@ + tail + PLOT_6@
}

fn fill_plot_ideas(title: &str, outline: &str, chars: &str, world: &str, chapter_title: &str, tail: &str) -> (r: String)
    ensures
        r@ == plot_ideas_template(title@, outline@, chars@, world@, chapter_title@, tail@),
{
    let mut r = String::new();
    r.append(PLOT_0);
    r.append(title);
    r.append(PLOT_1);
    r.append(outline);
    r.append(PLOT_2);
    r.append(chars);
    r.append(PLOT_3);
    r.append(world);
    r.append(PLOT_4);
    r.append(chapter_title);
    r.append(PLOT_5);
    r.append(tail);
    r.append(PLOT_6);
    assert(r@ =~= plot_ideas_template(title@, outline@, chars@, world@, chapter_title@, tail@));
    r
}

pub const CONSISTENCY_0: &'static str = "请对小说《";
pub const CONSISTENCY_1: &'static str = "》进行全稿一致性检查。\n\n人物设定：\n";
pub const CONSISTENCY_2: &'static str = "\n\n各章节摘要：\n";
pub const CONSISTENCY_3: &'static str = "\n\n请检查：\n1. 人物言行/能力/关系前后是否矛盾\n2. 时间线是否错乱\n3. 已写设定（地名/道具/规则）是否前后一致\n4. 伏笔是否被回收或遗忘\n按严重程度列出问题清单，附修改建议。";

/// The `consistency` template filled with its arguments.
pub open spec fn consistency_template(title: Seq<char>, chars: Seq<char>, chapters: Seq<char>) -> Seq<char> {
    CONSISTENCY_0@ + title + CONSISTENCY_1@ + chars + CONSISTENCY_2@ + chapters + CONSISTENCY_3@
}

fn fill_consistency(title: &str, chars: &str, chapters: &str) -> (r: String)
    ensures
        r@ == consistency_template(title@, chars@, chapters@),
{
    let mut r = String::new();
    r.append(CONSISTENCY_0);
    r.append(title);
    r.append(CONSISTENCY_1);
    r.append(chars);
    r.append(CONSISTENCY_2);
    r.append(chapters);
    r.append(CONSISTENCY_3);
    assert(r@ =~= consistency_template(title@, chars@, chapters@));
    r
}

pub const FEEDBACK_0: &'static str = "请对小说《";
pub const FEEDBACK_1: &'static str = "》做一次整稿评审（类似资深编辑的反馈）。\n\n简介：";
pub const FEEDBACK_2: &'static str = "\n大纲：\n";
pub const FEEDBACK_3: &'static str = "\n\n章节摘要：\n";
pub const FEEDBACK_4: &'static str = "\n\n请从 5 个维度给出结构化反馈，每项用「建议」结尾：\n1. 剧情节奏（开篇钩子、中间拖沓点、高潮分布）\n2. 人物塑造（弧光是否完整、对话是否千人一面）\n3. 结构连贯性（线索埋设与回收、卷章衔接）\n4. 文笔风格（描写密度、重复用词、对话质量）\n5. 读者体验（爽点/情绪点密度、可能的弃书点）\n最后给出 3 条最优先的改进动作。";

/// The `feedback` template filled with its arguments.
pub open spec fn feedback_template(title: Seq<char>, description: Seq<char>, outline: Seq<char>, chapters: Seq<char>) -> Seq<char> {
    FEEDBACK_0@ + title + FEEDBACK_1@ + description + FEEDBACK_2@ + outline + FEEDBACK_3@ + chapters + FEEDBACK_4@
}

fn fill_feedback(title: &str, description: &str, outline: &str, chapters: &str) -> (r: String)
    ensures
        r@ == feedback_template(title@, description@, outline@, chapters@),
{
    let mut r = String::new();
    r.append(FEEDBACK_0);
    r.append(title);
    r.append(FEEDBACK_1);
    r.append(description);
    r.append(FEEDBACK_2);
    r.append(outline);
    r.append(FEEDBACK_3);
    r.append(chapters);
    r.append(FEEDBACK_4);
    assert(r@ =~= feedback_template(title@, description@, outline@, chapters@));
    r
}

pub const CARD_0: &'static str = "为小说《";
pub const CARD_1: &'static str = "》设计人物「";
pub const CARD_2: &'static str = "」（角色定位：";
pub const CARD_3: &'static str = "）。\n简介：";
pub const CARD_4: &'static str = "\n\n请输出人物卡：\n外貌（3~5句，有辨识度）\n性格（核心特质+矛盾点）\n背景经历（影响其动机的关键事件）\n目标与欲望（表层/深层）\n说话风格（举例1句台词）\n与主线的潜在关联\n额外要求：";

/// The `character_card` template filled with its arguments.
pub open spec fn character_card_template(title: Seq<char>, name: Seq<char>, role: Seq<char>, description: Seq<char>, extra: Seq<char>) -> Seq<char> {
    CARD_0@ + title + CARD_1@ + name + CARD_2@ + role + CARD_3@ + description + CARD_4@ + extra
}

fn fill_character_card(title: &str, name: &str, role: &str, description: &str, extra: &str) -> (r: String)
    ensures
        r@ == character_card_template(title@, name@, role@, description@, extra@),
{
    let mut r = String::new();
    r.append(CARD_0);
    r.append(title);
    r.append(CARD_1);
    r.append(name);
    r.append(CARD_2);
    r.append(role);
    r.append(CARD_3);
    r.append(description);
    r.append(CARD_4);
    r.append(extra);
    assert(r@ =~= character_card_template(title@, name@, role@, description@, extra@));
    r
}

pub const WORLD_0: &'static str = "为小说《";
pub const WORLD_1: &'static str = "》设计「";
pub const WORLD_2: &'static str = "」（类别：";
pub const WORLD_3: &'static str = "）。\n简介：";
pub const WORLD_4: &'static str = "\n已有设定：";
pub const WORLD_5: &'static str = "\n\n请输出：\n1. 核心规则/设定（3~5条硬规则，明确边界）\n2. 社会结构（势力、阶层、组织）\n3. 2~3个标志性地点及其氛围\n4. 可驱动的剧情冲突点\n额外要求：";

/// The `world` template filled with its arguments.
pub open spec fn world_template(title: Seq<char>, name: Seq<char>, kind: Seq<char>, description: Seq<char>, world: Seq<char>, extra: Seq<char>) -> Seq<char> {
    WORLD_0@ + title + WORLD_1@ + name + WORLD_2@ + kind + WORLD_3@ + description + WORLD_4@ + world + WORLD_5@ + extra
}

fn fill_world(title: &str, name: &str, kind: &str, description: &str, world: &str, extra: &str) -> (r: String)
    ensures
        r@ == world_template(title@, name@, kind@, description@, world@, extra@),
{
    let mut r = String::new();
    r.append(WORLD_0);
    r.append(title);
    r.append(WORLD_1);
    r.append(name);
    r.append(WORLD_2);
    r.append(kind);
    r.append(WORLD_3);
    r.append(description);
    r.append(WORLD_4);
    r.append(world);
    r.append(WORLD_5);
    r.append(extra);
    assert(r@ =~= world_template(title@, name@, kind@, description@, world@, extra@));
    r
}

pub const NAMING_0: &'static str = "请为小说《";
pub const NAMING_1: &'static str = "》（题材：";
pub const NAMING_2: &'static str = "）的";
pub const NAMING_3: &'static str = "起名，给 ";
pub const NAMING_4: &'static str = " 个候选。\n灵感/限制：";
pub const NAMING_5: &'static str = "\n要求：贴合题材气质、朗朗上口、避免常见俗名，每个名字附一句说明。\n格式：\n1. 名字 —— 说明";

/// The `naming` template filled with its arguments.
pub open spec fn naming_template(title: Seq<char>, genre: Seq<char>, kind: Seq<char>, count: Seq<char>, seed: Seq<char>) -> Seq<char> {
    NAMING_0@ + title + NAMING_1@ + genre + NAMING_2@ + kind + NAMING_3@ + count + NAMING_4@ + seed + NAMING_5@
}

fn fill_naming(title: &str, genre: &str, kind: &str, count: &str, seed: &str) -> (r: String)
    ensures
        r@ == naming_template(title@, genre@, kind@, count@, seed@),
{
    let mut r = String::new();
    r.append(NAMING_0);
    r.append(title);
    r.append(NAMING_1);
    r.append(genre);
    r.append(NAMING_2);
    r.append(kind);
    r.append(NAMING_3);
    r.append(count);
    r.append(NAMING_4);
    r.append(seed);
    r.append(NAMING_5);
    assert(r@ =~= naming_template(title@, genre@, kind@, count@, seed@));
    r
}

pub const SYNOPSIS_0: &'static str = "为小说《";
pub const SYNOPSIS_1: &'static str = "》写一版平台宣传简介。\n题材：";
pub const SYNOPSIS_2: &'static str = "\n设定/卖点：";
pub const SYNOPSIS_3: &'static str = "\n大纲：\n";
pub const SYNOPSIS_4: &'static str = "\n\n要求：\n1. 150 字以内，前 3 句必须抓住人\n2. 突出独特卖点与核心冲突\n3. 给出 2 个备选（一个悬念向、一个爽点向）";

/// The `synopsis` template filled with its arguments.
pub open spec fn synopsis_template(title: Seq<char>, genre: Seq<char>, description: Seq<char>, outline: Seq<char>) -> Seq<char> {
    SYNOPSIS_0@ + title + SYNOPSIS_1@ + genre + SYNOPSIS_2@ + description + SYNOPSIS_3@ + outline + SYNOPSIS_4@
}

fn fill_synopsis(title: &str, genre: &str, description: &str, outline: &str) -> (r: String)
    ensures
        r@ == synopsis_template(title@, genre@, description@, outline@),
{
    let mut r = String::new();
    r.append(SYNOPSIS_0);
    r.append(title);
    r.append(SYNOPSIS_1);
    r.append(genre);
    r.append(SYNOPSIS_2);
    r.append(description);
    r.append(SYNOPSIS_3);
    r.append(outline);
    r.append(SYNOPSIS_4);
    assert(r@ =~= synopsis_template(title@, genre@, description@, outline@));
    r
}
// ---------------------------------------------------------------------------
// The prompts
// ---------------------------------------------------------------------------

/// The continuation prompt: outline, characters (with lorebook injection when
/// asked), world, and the last [`CONTINUE_TAIL`] characters of the chapter.
pub open spec fn continue_prompt(
    novel: Novel,
    text: Seq<char>,
    chapter_title: Seq<char>,
    instruction: Seq<char>,
    inject: bool,
) -> Seq<char> {
    let ctx = context_of(novel, text, inject);
    continue_template(
        novel.meta.title@,
        chapter_title,
        ctx.0,
        ctx.1,
        ctx.2,
        tail(text, CONTINUE_TAIL as nat),
        instruction,
    )
}

/// Asks the AI to continue the chapter.
pub fn build_continue(
    novel: &Novel,
    chapter_text: &str,
    chapter_title: &str,
    instruction: &str,
    inject_lore: bool,
) -> (r: Vec<(String, String)>)
    ensures
        user_message(r@, continue_prompt(*novel, chapter_text@, chapter_title@, instruction@, inject_lore)),
{
    let (outline, chars, world) = build_context(novel, chapter_text, inject_lore);
    let t = tail_chars(chapter_text, CONTINUE_TAIL);
    let p = fill_continue(
        novel.meta.title.as_str(),
        chapter_title,
        outline.as_str(),
        chars.as_str(),
        world.as_str(),
        t.as_str(),
        instruction,
    );
    wrap_user(p)
}

/// Asks the AI for a whole-book outline in the bracketed volume format that
/// [`crate::outline::parse_outline`] reads.
pub fn build_outline(
    title: &str,
    premise: &str,
    genre: &str,
    target_len: &str,
    extra: &str,
) -> (r: Vec<(String, String)>)
    ensures
        user_message(r@, outline_template(title@, genre@, premise@, target_len@, extra@)),
{
    wrap_user(fill_outline(title, genre, premise, target_len, extra))
}

/// The detailed-outline prompt for a chapter.
pub open spec fn chapter_outline_prompt(novel: Novel, text: Seq<char>, chapter_title: Seq<char>) -> Seq<char> {
    let ctx = context_of(novel, text, false);
    chapter_outline_template(
        novel.meta.title@,
        chapter_title,
        ctx.0,
        ctx.1,
        truncated(text, CHAPTER_OUTLINE_HEAD as nat),
    )
}

/// Asks the AI for a detailed writing outline of the chapter.
pub fn build_chapter_outline(novel: &Novel, chapter_text: &str, chapter_title: &str) -> (r: Vec<(String, String)>)
    ensures
        user_message(r@, chapter_outline_prompt(*novel, chapter_text@, chapter_title@)),
{
    let (outline, chars, _world) = build_context(novel, chapter_text, false);
    let t = truncate_chars(chapter_text, CHAPTER_OUTLINE_HEAD);
    wrap_user(
        fill_chapter_outline(
            novel.meta.title.as_str(),
            chapter_title,
            outline.as_str(),
            chars.as_str(),
            t.as_str(),
        ),
    )
}

/// `instruction`, or `default` when `instruction` is blank.
pub open spec fn or_default(instruction: Seq<char>, default: Seq<char>) -> Seq<char> {
    if trim(instruction).len() == 0 {
        default
    } else {
        instruction
    }
}

fn instruction_or<'a>(instruction: &'a str, default: &'a str) -> (r: &'a str)
    ensures
        r@ == or_default(instruction@, default@),
{
    if is_blank(instruction) {
        default
    } else {
        instruction
    }
}

/// Asks the AI to polish the selected text.
pub fn build_polish(selected: &str, instruction: &str) -> (r: Vec<(String, String)>)
    ensures
        user_message(r@, polish_template(or_default(instruction@, POLISH_DEFAULT@), selected@)),
{
    let ins = instruction_or(instruction, POLISH_DEFAULT);
    wrap_user(fill_polish(ins, selected))
}

/// Asks the AI to expand the selected text.
pub fn build_expand(selected: &str, instruction: &str) -> (r: Vec<(String, String)>)
    ensures
        user_message(r@, expand_template(or_default(instruction@, EXPAND_DEFAULT@), selected@)),
{
    let ins = instruction_or(instruction, EXPAND_DEFAULT);
    wrap_user(fill_expand(ins, selected))
}

/// Asks the AI for a summary of the chapter (its first [`SUMMARY_HEAD`] characters).
pub fn build_summary(chapter_title: &str, text: &str) -> (r: Vec<(String, String)>)
    ensures
        user_message(r@, summary_template(chapter_title@, truncated(text@, SUMMARY_HEAD as nat))),
{
    let t = truncate_chars(text, SUMMARY_HEAD);
    wrap_user(fill_summary(chapter_title, t.as_str()))
}

/// The logic-check prompt for a chapter.
pub open spec fn logic_check_prompt(novel: Novel, text: Seq<char>, chapter_title: Seq<char>) -> Seq<char> {
    let ctx = context_of(novel, text, false);
    logic_check_template(
        novel.meta.title@,
        chapter_title,
        ctx.0,
        ctx.2,
        truncated(text, LOGIC_HEAD as nat),
    )
}

/// Asks the AI to check the chapter for logic problems.
pub fn build_logic_check(novel: &Novel, chapter_text: &str, chapter_title: &str) -> (r: Vec<(String, String)>)
    ensures
        user_message(r@, logic_check_prompt(*novel, chapter_text@, chapter_title@)),
{
    let (outline, _chars, world) = build_context(novel, chapter_text, false);
    let t = truncate_chars(chapter_text, LOGIC_HEAD);
    wrap_user(
        fill_logic_check(
            novel.meta.title.as_str(),
            chapter_title,
            outline.as_str(),
            world.as_str(),
            t.as_str(),
        ),
    )
}

/// The plot-ideas prompt for a chapter.
pub open spec fn plot_ideas_prompt(novel: Novel, text: Seq<char>, chapter_title: Seq<char>) -> Seq<char> {
    let ctx = context_of(novel, text, false);
    plot_ideas_template(
        novel.meta.title@,
        ctx.0,
        ctx.1,
        ctx.2,
        chapter_title,
        tail(text, PLOT_TAIL as nat),
    )
}

/// Asks the AI for five directions the plot could take.
pub fn build_plot_ideas(novel: &Novel, chapter_text: &str, chapter_title: &str) -> (r: Vec<(String, String)>)
    ensures
        user_message(r@, plot_ideas_prompt(*novel, chapter_text@, chapter_title@)),
{
    let (outline, chars, world) = build_context(novel, chapter_text, false);
    let t = tail_chars(chapter_text, PLOT_TAIL);
    wrap_user(
        fill_plot_ideas(
            novel.meta.title.as_str(),
            outline.as_str(),
            chars.as_str(),
            world.as_str(),
            chapter_title,
            t.as_str(),
        ),
    )
}

/// One line per chapter summary: `《title》：summary`.
pub open spec fn summaries_text(s: Seq<(String, String)>) -> Seq<char>
    decreases s.len(),
{
    if s.len() == 0 {
        Seq::empty()
    } else {
        summaries_text(s.drop_last()) + SUMMARY_LINE_OPEN@ + s.last().0@ + SUMMARY_LINE_MID@
            + s.last().1@ + SUMMARY_LINE_END@
    }
}

fn summaries_to_text(s: &[(String, String)]) -> (r: String)
    ensures
        r@ == summaries_text(s@),
{
    let mut r = String::new();
    let mut i: usize = 0;
    assert(s@.take(0) =~= Seq::<(String, String)>::empty());
    while i < s.len()
        invariant
            i <= s.len(),
            r@ == summaries_text(s@.take(i as int)),
        decreases s.len() - i,
    {
        r.append(SUMMARY_LINE_OPEN);
        r.append(s[i].0.as_str());
        r.append(SUMMARY_LINE_MID);
        r.append(s[i].1.as_str());
        r.append(SUMMARY_LINE_END);
        proof {
            assert(s@.take(i + 1).drop_last() =~= s@.take(i as int));
            assert(s@.take(i + 1).last() == s@[i as int]);
        }
        assert(r@ =~= summaries_text(s@.take(i + 1)));
        i = i + 1;
    }
    assert(s@.take(s.len() as int) =~= s@);
    r
}

/// Asks the AI for a whole-manuscript consistency check, given chapter summaries
/// as (title, summary) pairs; every character's card is included.
pub fn build_consistency(novel: &Novel, chapter_summaries: &[(String, String)]) -> (r: Vec<(String, String)>)
    ensures
        user_message(
            r@,
            consistency_template(
                novel.meta.title@,
                characters_text(novel.characters@, character_names(novel.characters@)),
                summaries_text(chapter_summaries@),
            ),
        ),
{
    let chapters = summaries_to_text(chapter_summaries);
    let mut names: Vec<String> = Vec::new();
    let mut i: usize = 0;
    while i < novel.characters.len()
        invariant
            i <= novel.characters.len(),
            names@.len() == i,
            forall|k: int| 0 <= k < i ==> names@[k]@ == novel.characters@[k].name@,
        decreases novel.characters.len() - i,
    {
        let nm = novel.characters[i].name.clone();
        names.push(nm);
        i = i + 1;
    }
    assert(string_views(names@) =~= character_names(novel.characters@));
    let chars = characters_to_text(novel, names.as_slice());
    wrap_user(fill_consistency(novel.meta.title.as_str(), chars.as_str(), chapters.as_str()))
}

/// Asks the AI for an editor-style review of the whole manuscript.
pub fn build_feedback(novel: &Novel, chapter_summaries: &[(String, String)]) -> (r: Vec<(String, String)>)
    ensures
        user_message(
            r@,
            feedback_template(
                novel.meta.title@,
                novel.meta.description@,
                outline_text(novel.outline@),
                summaries_text(chapter_summaries@),
            ),
        ),
{
    let chapters = summaries_to_text(chapter_summaries);
    let outline = outline_to_text(novel);
    wrap_user(
        fill_feedback(
            novel.meta.title.as_str(),
            novel.meta.description.as_str(),
            outline.as_str(),
            chapters.as_str(),
        ),
    )
}

/// Asks the AI to design a character card.
pub fn build_character_card(novel: &Novel, name: &str, role: &str, extra: &str) -> (r: Vec<(String, String)>)
    ensures
        user_message(
            r@,
            character_card_template(novel.meta.title@, name@, role@, novel.meta.description@, extra@),
        ),
{
    wrap_user(fill_character_card(novel.meta.title.as_str(), name, role, novel.meta.description.as_str(), extra))
}

/// Asks the AI to design a world setting.
pub fn build_world(novel: &Novel, name: &str, kind: &str, extra: &str) -> (r: Vec<(String, String)>)
    ensures
        user_message(
            r@,
            world_template(
                novel.meta.title@,
                name@,
                kind@,
                novel.meta.description@,
                world_text(novel.locations@),
                extra@,
            ),
        ),
{
    let world = world_to_text(novel);
    wrap_user(
        fill_world(
            novel.meta.title.as_str(),
            name,
            kind,
            novel.meta.description.as_str(),
            world.as_str(),
            extra,
        ),
    )
}

/// Asks the AI for `count` name candidates.
pub fn build_naming(novel: &Novel, seed: &str, kind: &str, count: usize) -> (r: Vec<(String, String)>)
    ensures
        user_message(
            r@,
            naming_template(novel.meta.title@, novel.meta.genre@, kind@, decimal(count as nat), seed@),
        ),
{
    let n = decimal_string(count as u64);
    wrap_user(fill_naming(novel.meta.title.as_str(), novel.meta.genre.as_str(), kind, n.as_str(), seed))
}

/// Asks the AI for a promotional synopsis.
pub fn build_synopsis(novel: &Novel) -> (r: Vec<(String, String)>)
    ensures
        user_message(
            r@,
            synopsis_template(
                novel.meta.title@,
                novel.meta.genre@,
                novel.meta.description@,
                outline_text(novel.outline@),
            ),
        ),
{
    let outline = outline_to_text(novel);
    wrap_user(
        fill_synopsis(
            novel.meta.title.as_str(),
            novel.meta.genre.as_str(),
            novel.meta.description.as_str(),
            outline.as_str(),
        ),
    )
}

// ---------------------------------------------------------------------------
// Guessing the kind of a request
// ---------------------------------------------------------------------------

pub const ACT_CONTINUE: &'static str = "续写";
pub const ACT_OUTLINE: &'static str = "大纲";
pub const ACT_POLISH: &'static str = "润色";
pub const KEY_REWRITE: &'static str = "改写";
pub const ACT_EXPAND: &'static str = "扩写";
pub const ACT_SUMMARY: &'static str = "摘要";
pub const KEY_LOGIC: &'static str = "逻辑";
pub const ACT_LOGIC: &'static str = "逻辑检查";
pub const KEY_REVIEW: &'static str = "评审";
pub const KEY_FEEDBACK: &'static str = "反馈";
pub const ACT_REVIEW: &'static str = "整稿评审";
pub const KEY_CHARACTER: &'static str = "人物";
pub const ACT_CHARACTER: &'static str = "人物卡";
pub const KEY_WORLD: &'static str = "世界";
pub const KEY_PLACE: &'static str = "地点";
pub const ACT_WORLD: &'static str = "世界观";
pub const ACT_DETAIL: &'static str = "细纲";
pub const ACT_SYNOPSIS: &'static str = "简介";
pub const ACT_NAMING: &'static str = "起名";
pub const KEY_HINT: &'static str = "提示";
pub const KEY_INSPIRATION: &'static str = "灵感";
pub const ACT_PLOT: &'static str = "剧情提示";
pub const ACT_CHAT: &'static str = "对话";

/// The action a free-form instruction asks for, by the first keyword rule that applies.
pub open spec fn action_of(s: Seq<char>) -> Seq<char> {
    if has_sub(s, ACT_CONTINUE@) {
        ACT_CONTINUE@
    } else if has_sub(s, ACT_OUTLINE@) {
        ACT_OUTLINE@
    } else if has_sub(s, ACT_POLISH@) || has_sub(s, KEY_REWRITE@) {
        ACT_POLISH@
    } else if has_sub(s, ACT_EXPAND@) {
        ACT_EXPAND@
    } else if has_sub(s, ACT_SUMMARY@) {
        ACT_SUMMARY@
    } else if has_sub(s, KEY_LOGIC@) {
        ACT_LOGIC@
    } else if has_sub(s, KEY_REVIEW@) || has_sub(s, KEY_FEEDBACK@) {
        ACT_REVIEW@
    } else if has_sub(s, KEY_CHARACTER@) {
        ACT_CHARACTER@
    } else if has_sub(s, KEY_WORLD@) || has_sub(s, KEY_PLACE@) {
        ACT_WORLD@
    } else if has_sub(s, ACT_DETAIL@) {
        ACT_DETAIL@
    } else if has_sub(s, ACT_SYNOPSIS@) {
        ACT_SYNOPSIS@
    } else if has_sub(s, ACT_NAMING@) {
        ACT_NAMING@
    } else if has_sub(s, KEY_HINT@) || has_sub(s, KEY_INSPIRATION@) {
        ACT_PLOT@
    } else {
        ACT_CHAT@
    }
}

/// Guesses the kind of action an AI instruction asks for (used for button labels).
pub fn guess_action(instruction: &str) -> (r: String)
    ensures
        r@ == action_of(instruction@),
{
    let s = instruction;
    let a = if str_contains(s, ACT_CONTINUE) {
        ACT_CONTINUE
    } else if str_contains(s, ACT_OUTLINE) {
        ACT_OUTLINE
    } else if str_contains(s, ACT_POLISH) || str_contains(s, KEY_REWRITE) {
        ACT_POLISH
    } else if str_contains(s, ACT_EXPAND) {
        ACT_EXPAND
    } else if str_contains(s, ACT_SUMMARY) {
        ACT_SUMMARY
    } else if str_contains(s, KEY_LOGIC) {
        ACT_LOGIC
    } else if str_contains(s, KEY_REVIEW) || str_contains(s, KEY_FEEDBACK) {
        ACT_REVIEW
    } else if str_contains(s, KEY_CHARACTER) {
        ACT_CHARACTER
    } else if str_contains(s, KEY_WORLD) || str_contains(s, KEY_PLACE) {
        ACT_WORLD
    } else if str_contains(s, ACT_DETAIL) {
        ACT_DETAIL
    } else if str_contains(s, ACT_SYNOPSIS) {
        ACT_SYNOPSIS
    } else if str_contains(s, ACT_NAMING) {
        ACT_NAMING
    } else if str_contains(s, KEY_HINT) || str_contains(s, KEY_INSPIRATION) {
        ACT_PLOT
    } else {
        ACT_CHAT
    };
    a.to_owned()
}

} // verus!
