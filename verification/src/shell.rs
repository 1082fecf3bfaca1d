//! The editor shell: the commands of the command palette, fuzzy matching of
//! command labels, the cursor's line and column, and find and replace in a
//! chapter.

use vstd::prelude::*;
use crate::app::{Activity, DialogKind, FindState};
use crate::text::{has_sub, matches_at, occurs_at, string_of, string_push, to_chars};
use vstd::utf8::{encode_utf8, is_char_boundary};

verus! {

/// The commands of the palette and of the keyboard shortcuts.
#[derive(Clone, Copy, PartialEq, Eq, Structural)]
pub enum Command {
    NewNovel,
    OpenLibrary,
    Save,
    Export,
    Import,
    ToggleSidebar,
    ToggleAI,
    ToggleTheme,
    FontUp,
    FontDown,
    Find,
    Replace,
    GlobalSearch,
    NewChapter,
    NewVolume,
    CloseTab,
    CloseNovel,
    AiContinue,
    AiOutline,
    AiPolish,
    AiExpand,
    AiSummary,
    AiChapterOutline,
    AiPlotIdeas,
    AiLogicCheck,
    AiFeedback,
    AiConsistency,
    AiCharacterCard,
    AiWorld,
    AiNaming,
    AiSynopsis,
    Stats,
    Settings,
    About,
}

/// The palette: each command with its label and description, in the order shown.
pub open spec fn command_table() -> Seq<(Command, &'static str, &'static str)> {
    seq![
        (Command::NewNovel, "新建小说", "创建一部新的作品"),
        (Command::OpenLibrary, "打开书库", "浏览并打开已有作品"),
        (Command::Save, "保存全部", "加密保存所有未保存修改"),
        (Command::Export, "导出作品", "导出为 txt / md / jsb 加密备份"),
        (Command::Import, "导入 .jsb 备份", "从加密备份恢复作品"),
        (Command::NewChapter, "新建章节", "在当前卷下新建章节"),
        (Command::NewVolume, "新建分卷", "创建新的卷"),
        (Command::CloseTab, "关闭当前标签页", ""),
        (Command::CloseNovel, "关闭当前作品", "返回书库"),
        (Command::Find, "查找", "在章节内查找（Ctrl+F）"),
        (Command::Replace, "查找替换", "在章节内查找并替换（Ctrl+H）"),
        (Command::GlobalSearch, "全局搜索", "跨章节搜索（Ctrl+Shift+F）"),
        (Command::AiContinue, "AI 续写", "根据当前章节末尾续写正文"),
        (Command::AiOutline, "AI 生成大纲", "根据简介生成全本大纲"),
        (Command::AiChapterOutline, "AI 生成细纲", "为当前章节生成写作细纲"),
        (Command::AiPolish, "AI 润色选中文本", ""),
        (Command::AiExpand, "AI 扩写选中文本", ""),
        (Command::AiSummary, "AI 生成章节摘要", ""),
        (Command::AiPlotIdeas, "AI 剧情提示", "获取 5 个剧情发展方向"),
        (Command::AiLogicCheck, "AI 逻辑检查", "检查当前章节的逻辑漏洞"),
        (Command::AiConsistency, "AI 一致性检查", "全稿人物/时间线/设定一致性"),
        (Command::AiFeedback, "AI 整稿评审", "5 维度的编辑级反馈"),
        (Command::AiCharacterCard, "AI 设计人物卡", ""),
        (Command::AiWorld, "AI 设计世界观", ""),
        (Command::AiNaming, "AI 起名", "人物 / 地点 / 书名候选"),
        (Command::AiSynopsis, "AI 生成简介", ""),
        (Command::ToggleSidebar, "切换侧边栏", "Ctrl+B"),
        (Command::ToggleAI, "切换 AI 助手面板", "Ctrl+J"),
        (Command::ToggleTheme, "切换深色/浅色主题", ""),
        (Command::FontUp, "增大编辑区字号", "Ctrl+="),
        (Command::FontDown, "减小编辑区字号", "Ctrl+-"),
        (Command::Stats, "写作统计", "字数趋势与创作数据"),
        (Command::Settings, "打开设置", "主题 / 编辑 / AI 服务 / 存储"),
        (Command::About, "关于锦书", ""),
    ]
}

impl Command {
    /// The palette: every command with its label and description.
    pub fn all() -> (r: Vec<(Command, &'static str, &'static str)>)
        ensures
            r@ == command_table(),
    {
        let r = vec![
            (Command::NewNovel, "新建小说", "创建一部新的作品"),
            (Command::OpenLibrary, "打开书库", "浏览并打开已有作品"),
            (Command::Save, "保存全部", "加密保存所有未保存修改"),
            (Command::Export, "导出作品", "导出为 txt / md / jsb 加密备份"),
            (Command::Import, "导入 .jsb 备份", "从加密备份恢复作品"),
            (Command::NewChapter, "新建章节", "在当前卷下新建章节"),
            (Command::NewVolume, "新建分卷", "创建新的卷"),
            (Command::CloseTab, "关闭当前标签页", ""),
            (Command::CloseNovel, "关闭当前作品", "返回书库"),
            (Command::Find, "查找", "在章节内查找（Ctrl+F）"),
            (Command::Replace, "查找替换", "在章节内查找并替换（Ctrl+H）"),
            (Command::GlobalSearch, "全局搜索", "跨章节搜索（Ctrl+Shift+F）"),
            (Command::AiContinue, "AI 续写", "根据当前章节末尾续写正文"),
            (Command::AiOutline, "AI 生成大纲", "根据简介生成全本大纲"),
            (Command::AiChapterOutline, "AI 生成细纲", "为当前章节生成写作细纲"),
            (Command::AiPolish, "AI 润色选中文本", ""),
            (Command::AiExpand, "AI 扩写选中文本", ""),
            (Command::AiSummary, "AI 生成章节摘要", ""),
            (Command::AiPlotIdeas, "AI 剧情提示", "获取 5 个剧情发展方向"),
            (Command::AiLogicCheck, "AI 逻辑检查", "检查当前章节的逻辑漏洞"),
            (Command::AiConsistency, "AI 一致性检查", "全稿人物/时间线/设定一致性"),
            (Command::AiFeedback, "AI 整稿评审", "5 维度的编辑级反馈"),
            (Command::AiCharacterCard, "AI 设计人物卡", ""),
            (Command::AiWorld, "AI 设计世界观", ""),
            (Command::AiNaming, "AI 起名", "人物 / 地点 / 书名候选"),
            (Command::AiSynopsis, "AI 生成简介", ""),
            (Command::ToggleSidebar, "切换侧边栏", "Ctrl+B"),
            (Command::ToggleAI, "切换 AI 助手面板", "Ctrl+J"),
            (Command::ToggleTheme, "切换深色/浅色主题", ""),
            (Command::FontUp, "增大编辑区字号", "Ctrl+="),
            (Command::FontDown, "减小编辑区字号", "Ctrl+-"),
            (Command::Stats, "写作统计", "字数趋势与创作数据"),
            (Command::Settings, "打开设置", "主题 / 编辑 / AI 服务 / 存储"),
            (Command::About, "关于锦书", ""),
        ];
        assert(r@ =~= command_table());
        r
    }
}

// ---------------------------------------------------------------------------
// Palette filtering
// ---------------------------------------------------------------------------

/// `q` matches `l` when its characters occur in `l` in order, each matched to
/// the first occurrence after the previous one.
pub open spec fn fuzzy(q: Seq<char>, l: Seq<char>) -> bool
    decreases l.len(),
{
    if q.len() == 0 {
        true
    } else if l.len() == 0 {
        false
    } else if q[0] == l[0] {
        fuzzy(q.drop_first(), l.drop_first())
    } else {
        fuzzy(q, l.drop_first())
    }
}

/// Whether the palette entry `label` is shown for the typed `query`: the
/// characters of the query appear in the label in the same order, not
/// necessarily together.
pub fn fuzzy_match(query: &str, label: &str) -> (r: bool)
    ensures
        r == fuzzy(query@, label@),
{
    let q = to_chars(query);
    let l = to_chars(label);
    let mut qi: usize = 0;
    let mut j: usize = 0;
    assert(q@.skip(0) =~= q@);
    assert(l@.skip(0) =~= l@);
    while j < l.len() && qi < q.len()
        invariant
            qi <= q@.len(),
            j <= l@.len(),
            fuzzy(q@, l@) == fuzzy(q@.skip(qi as int), l@.skip(j as int)),
        decreases l.len() - j,
    {
        proof {
            assert(q@.skip(qi as int).drop_first() =~= q@.skip(qi + 1));
            assert(l@.skip(j as int).drop_first() =~= l@.skip(j + 1));
        }
        if q[qi] == l[j] {
            qi = qi + 1;
        }
        j = j + 1;
    }
    proof {
        if qi < q.len() {
            assert(l@.skip(j as int) =~= Seq::<char>::empty());
        }
    }
    qi == q.len()
}

/// `idx` picks the characters of `q` out of `l`, in order.
pub open spec fn picks(idx: Seq<int>, q: Seq<char>, l: Seq<char>) -> bool {
    &&& idx.len() == q.len()
    &&& forall|i: int| 0 <= i < q.len() ==> 0 <= #[trigger] idx[i] < l.len() && l[idx[i]] == q[i]
    &&& forall|i: int, j: int| 0 <= i < j < q.len() ==> #[trigger] idx[i] < #[trigger] idx[j]
}

/// `q` is a subsequence of `l`: its characters occur in `l` in the same order.
pub open spec fn subsequence_of(q: Seq<char>, l: Seq<char>) -> bool {
    exists|idx: Seq<int>| picks(idx, q, l)
}

/// A palette entry is shown exactly when the query is a subsequence of its
/// label: [`fuzzy_match`]'s greedy scan misses no way of matching.
pub proof fn law_fuzzy_is_subsequence(q: Seq<char>, l: Seq<char>)
    ensures
        fuzzy(q, l) <==> subsequence_of(q, l),
    decreases l.len(),
{
    if q.len() == 0 {
        assert(picks(Seq::<int>::empty(), q, l));
    } else if l.len() == 0 {
        if subsequence_of(q, l) {
            let idx = choose|idx: Seq<int>| picks(idx, q, l);
            assert(0 <= idx[0] < l.len());
        }
    } else {
        let l1 = l.drop_first();
        if q[0] == l[0] {
            let q1 = q.drop_first();
            law_fuzzy_is_subsequence(q1, l1);
            if fuzzy(q, l) {
                let idx1 = choose|idx: Seq<int>| picks(idx, q1, l1);
                let idx = seq![0int] + Seq::new(idx1.len(), |i: int| idx1[i] + 1);
                assert forall|i: int| 0 <= i < q.len() implies 0 <= #[trigger] idx[i] < l.len() && l[idx[i]] == q[i] by {
                    if i > 0 {
                        assert(idx[i] == idx1[i - 1] + 1);
                        assert(0 <= idx1[i - 1] < l1.len());
                        assert(l[idx[i]] == l1[idx1[i - 1]]);
                    }
                }
                assert forall|i: int, j: int| 0 <= i < j < q.len() implies #[trigger] idx[i] < #[trigger] idx[j] by {
                    if i > 0 {
                        assert(idx1[i - 1] < idx1[j - 1]);
                    } else {
                        assert(0 <= idx1[j - 1]);
                    }
                }
                assert(picks(idx, q, l));
            }
            if subsequence_of(q, l) {
                let idx = choose|idx: Seq<int>| picks(idx, q, l);
                let idx1 = Seq::new((idx.len() - 1) as nat, |i: int| idx[i + 1] - 1);
                assert forall|i: int| 0 <= i < q1.len() implies 0 <= #[trigger] idx1[i] < l1.len() && l1[idx1[i]] == q1[i] by {
                    assert(idx[0] < idx[i + 1]);
                    assert(0 <= idx[i + 1] < l.len() && l[idx[i + 1]] == q[i + 1]);
                }
                assert forall|i: int, j: int| 0 <= i < j < q1.len() implies #[trigger] idx1[i] < #[trigger] idx1[j] by {
                    assert(idx[i + 1] < idx[j + 1]);
                }
                assert(picks(idx1, q1, l1));
            }
        } else {
            law_fuzzy_is_subsequence(q, l1);
            if fuzzy(q, l) {
                let idx1 = choose|idx: Seq<int>| picks(idx, q, l1);
                let idx = Seq::new(idx1.len(), |i: int| idx1[i] + 1);
                assert forall|i: int| 0 <= i < q.len() implies 0 <= #[trigger] idx[i] < l.len() && l[idx[i]] == q[i] by {
                    assert(0 <= idx1[i] < l1.len() && l1[idx1[i]] == q[i]);
                }
                assert forall|i: int, j: int| 0 <= i < j < q.len() implies #[trigger] idx[i] < #[trigger] idx[j] by {
                    assert(idx1[i] < idx1[j]);
                }
                assert(picks(idx, q, l));
            }
            if subsequence_of(q, l) {
                let idx = choose|idx: Seq<int>| picks(idx, q, l);
                assert(0 <= idx[0] < l.len() && l[idx[0]] == q[0]);
                assert(idx[0] != 0);
                let idx1 = Seq::new(idx.len(), |i: int| idx[i] - 1);
                assert forall|i: int| 0 <= i < q.len() implies 0 <= #[trigger] idx1[i] < l1.len() && l1[idx1[i]] == q[i] by {
                    assert(0 <= idx[i] < l.len() && l[idx[i]] == q[i]);
                    if i > 0 {
                        assert(idx[0] < idx[i]);
                    }
                }
                assert forall|i: int, j: int| 0 <= i < j < q.len() implies #[trigger] idx1[i] < #[trigger] idx1[j] by {
                    assert(idx[i] < idx[j]);
                }
                assert(picks(idx1, q, l1));
            }
        }
    }
}

/// What `str::to_lowercase` gives for `s` (Unicode lower case, independent of locale).
pub uninterp spec fn lowercase_of(s: Seq<char>) -> Seq<char>;

/// `str::to_lowercase`: the lower-case form of `s`, named `lowercase_of`.
#[verifier::external_body]
fn to_lowercase(s: &str) -> (r: String)
    ensures
        r@ == lowercase_of(s@),
{
    s.to_lowercase()
}

/// At most this many commands are listed in the palette.
pub const PALETTE_MAX: usize = 14;
/// The entry listed when no command matches.
pub const NO_MATCH: &'static str = "没有匹配的命令";

/// The commands among `es` whose lower-cased label matches the lower-cased
/// query `q` (all of them for an empty query), with their labels, in order.
pub open spec fn matching_commands(es: Seq<(Command, &'static str, &'static str)>, q: Seq<char>) -> Seq<(Command, &'static str)>
    decreases es.len(),
{
    if es.len() == 0 {
        Seq::empty()
    } else if q.len() == 0 || fuzzy(q, lowercase_of(es.last().1@)) {
        matching_commands(es.drop_last(), q).push((es.last().0, es.last().1))
    } else {
        matching_commands(es.drop_last(), q)
    }
}

/// The palette's list for `query`: the first [`PALETTE_MAX`] matching
/// commands, or a single "no match" entry when none matches.
pub open spec fn palette_list(query: Seq<char>) -> Seq<(Command, &'static str)> {
    let m = matching_commands(command_table(), lowercase_of(query));
    if m.len() == 0 {
        seq![(Command::About, NO_MATCH)]
    } else if m.len() <= PALETTE_MAX {
        m
    } else {
        m.take(PALETTE_MAX as int)
    }
}

/// The commands the palette lists for the typed `query`: matched
/// case-insensitively with [`fuzzy_match`], at most [`PALETTE_MAX`] of them,
/// and a single entry saying that nothing matches when none does.
pub fn palette_items(query: &str) -> (r: Vec<(Command, &'static str)>)
    ensures
        r@ == palette_list(query@),
{
    let q = to_lowercase(query);
    let all = Command::all();
    let ghost es = command_table();
    let mut out: Vec<(Command, &'static str)> = Vec::new();
    let mut i: usize = 0;
    while i < all.len() && out.len() < PALETTE_MAX
        invariant
            all@ == es,
            i <= all@.len(),
            out@.len() <= PALETTE_MAX,
            out@ == matching_commands(es.take(i as int), q@),
            q@ == lowercase_of(query@),
        decreases all.len() - i,
    {
        proof {
            assert(es.take(i + 1).drop_last() =~= es.take(i as int));
            assert(es.take(i + 1).last() == es[i as int]);
        }
        let (cmd, label, _) = all[i];
        let keep = q.as_str().is_empty() || {
            let l = to_lowercase(label);
            fuzzy_match(q.as_str(), l.as_str())
        };
        if keep {
            out.push((cmd, label));
        }
        i = i + 1;
    }
    proof {
        lemma_matching_prefix(es, q@, i as int);
    }
    if out.len() == 0 {
        let mut none: Vec<(Command, &'static str)> = Vec::new();
        none.push((Command::About, NO_MATCH));
        assert(none@ =~= seq![(Command::About, NO_MATCH)]);
        return none;
    }
    out
}

proof fn lemma_matching_grows(es: Seq<(Command, &'static str, &'static str)>, q: Seq<char>, i: int, j: int)
    requires
        0 <= i <= j <= es.len(),
    ensures
        matching_commands(es.take(i), q).len() <= matching_commands(es.take(j), q).len(),
        matching_commands(es.take(j), q).take(matching_commands(es.take(i), q).len() as int) == matching_commands(es.take(i), q),
    decreases j - i,
{
    if i < j {
        lemma_matching_grows(es, q, i, j - 1);
        assert(es.take(j).drop_last() =~= es.take(j - 1));
        let a = matching_commands(es.take(i), q);
        let b = matching_commands(es.take(j - 1), q);
        let c = matching_commands(es.take(j), q);
        assert(c == b || c == b.push((es[j - 1].0, es[j - 1].1)));
        assert(c.take(a.len() as int) =~= b.take(a.len() as int));
    } else {
        assert(matching_commands(es.take(i), q).take(matching_commands(es.take(i), q).len() as int) =~= matching_commands(es.take(i), q));
    }
}

/// When the scan of the palette stopped at `i` (the end, or a full list),
/// what was collected is what the palette shows, whenever something matched.
proof fn lemma_matching_prefix(es: Seq<(Command, &'static str, &'static str)>, q: Seq<char>, i: int)
    requires
        0 <= i <= es.len(),
        i < es.len() ==> matching_commands(es.take(i), q).len() >= PALETTE_MAX,
        matching_commands(es.take(i), q).len() <= PALETTE_MAX,
    ensures
        ({
            let m = matching_commands(es, q);
            let got = matching_commands(es.take(i), q);
            &&& (got.len() == 0 <==> m.len() == 0)
            &&& got.len() > 0 ==> got == (if m.len() <= PALETTE_MAX { m } else { m.take(PALETTE_MAX as int) })
        }),
{
    assert(es.take(es.len() as int) =~= es);
    lemma_matching_grows(es, q, i, es.len() as int);
    let m = matching_commands(es, q);
    let got = matching_commands(es.take(i), q);
    if i < es.len() {
        assert(got.len() == PALETTE_MAX);
        assert(m.take(PALETTE_MAX as int) == got);
    }
}

// ---------------------------------------------------------------------------
// Cursor position
// ---------------------------------------------------------------------------

/// The line and column (both from 1) just after the characters `s`.
pub open spec fn line_col_of(s: Seq<char>) -> (int, int)
    decreases s.len(),
{
    if s.len() == 0 {
        (1, 1)
    } else {
        let (l, c) = line_col_of(s.drop_last());
        if s.last() == '\n' {
            (l + 1, 1)
        } else {
            (l, c + 1)
        }
    }
}

proof fn lemma_line_col_bound(s: Seq<char>)
    ensures
        1 <= line_col_of(s).0 <= s.len() + 1,
        1 <= line_col_of(s).1 <= s.len() + 1,
    decreases s.len(),
{
    if s.len() > 0 {
        lemma_line_col_bound(s.drop_last());
    }
}

/// The line and column, both counted from 1, of the cursor at character
/// `char_idx` of `text` (a cursor past the end is at the end).
pub fn line_col(text: &str, char_idx: usize) -> (r: (usize, usize))
    requires
        text@.len() < usize::MAX,
    ensures
        (r.0 as int, r.1 as int) == line_col_of(
            text@.take(if char_idx < text@.len() { char_idx as int } else { text@.len() as int }),
        ),
{
    let cs = to_chars(text);
    let n = if char_idx < cs.len() { char_idx } else { cs.len() };
    let mut line: usize = 1;
    let mut col: usize = 1;
    let mut i: usize = 0;
    while i < n
        invariant
            n <= cs@.len() < usize::MAX,
            i <= n,
            (line as int, col as int) == line_col_of(cs@.take(i as int)),
        decreases n - i,
    {
        proof {
            assert(cs@.take(i + 1).drop_last() =~= cs@.take(i as int));
            lemma_line_col_bound(cs@.take(i as int));
        }
        if cs[i] == '\n' {
            line = line + 1;
            col = 1;
        } else {
            col = col + 1;
        }
        i = i + 1;
    }
    (line, col)
}

// ---------------------------------------------------------------------------
// Find and replace
// ---------------------------------------------------------------------------

/// The positions, from `i` on, of the matches of `q` in `t` found from left
/// to right without overlap.
pub open spec fn matches_from(t: Seq<char>, q: Seq<char>, i: int) -> Seq<int>
    decreases t.len() - i,
{
    if q.len() == 0 || i < 0 || i + q.len() > t.len() {
        Seq::empty()
    } else if occurs_at(t, q, i) {
        seq![i] + matches_from(t, q, i + q.len())
    } else {
        matches_from(t, q, i + 1)
    }
}

/// The positions of the matches of `q` in `t`, left to right, without overlap
/// (`str::match_indices`, counted in characters); none for an empty `q`.
pub open spec fn match_positions(t: Seq<char>, q: Seq<char>) -> Seq<int> {
    matches_from(t, q, 0)
}

/// The positions held in a vector, as integers.
pub open spec fn positions(v: Seq<usize>) -> Seq<int> {
    Seq::new(v.len(), |k: int| v[k] as int)
}

/// Finds the query of `fs` in `text`: its matches become the positions of the
/// query in the text and the first match becomes current.
pub fn update_matches(fs: &mut FindState, text: &str)
    ensures
        positions(final(fs).matches@) == match_positions(text@, old(fs).query@),
        final(fs).current == 0,
        final(fs).query == old(fs).query,
        final(fs).replace == old(fs).replace,
        final(fs).replace_mode == old(fs).replace_mode,
{
    fs.matches.clear();
    fs.current = 0;
    let t = to_chars(text);
    let q = to_chars(fs.query.as_str());
    if q.len() == 0 || q.len() > t.len() {
        assert(positions(fs.matches@) =~= match_positions(text@, fs.query@));
        return;
    }
    let mut i: usize = 0;
    assert(positions(fs.matches@) =~= Seq::<int>::empty());
    while i <= t.len() - q.len()
        invariant
            0 < q@.len() <= t@.len(),
            i <= t@.len(),
            positions(fs.matches@) + matches_from(t@, q@, i as int) == match_positions(t@, q@),
            t@ == text@,
            q@ == old(fs).query@,
            fs.current == 0,
            fs.query == old(fs).query,
            fs.replace == old(fs).replace,
            fs.replace_mode == old(fs).replace_mode,
        decreases t.len() - i,
    {
        let ghost before = positions(fs.matches@);
        if matches_at(&t, &q, i) {
            fs.matches.push(i);
            assert(positions(fs.matches@) =~= before.push(i as int));
            assert(positions(fs.matches@) + matches_from(t@, q@, i + q@.len()) =~= before + matches_from(
                t@,
                q@,
                i as int,
            ));
            i = i + q.len();
        } else {
            i = i + 1;
        }
    }
    assert(positions(fs.matches@) =~= positions(fs.matches@) + matches_from(t@, q@, i as int));
}

/// The position of the current match of `fs` (there must be one).
pub open spec fn current_match(fs: FindState) -> int {
    fs.matches@[(fs.current as int) % (fs.matches@.len() as int)] as int
}

/// The query of `fs` can be compared with the text at the current match
/// without slicing a character apart: the bytes of the query, counted from
/// the start of the character at the current match, end at the end of the
/// text or beyond, or on a character boundary.
pub open spec fn comparable_at_current(t: Seq<char>, fs: FindState) -> bool {
    let i = current_match(fs);
    let end = encode_utf8(t.take(i)).len() + encode_utf8(fs.query@).len();
    i >= t.len() || end > encode_utf8(t).len() || is_char_boundary(encode_utf8(t), end as int)
}

/// Replaces the current match of `fs` in `text` by the replacement, provided
/// that the query still occurs there (the text may have changed since the
/// matches were found). Returns whether the text was rewritten.
pub fn replace_current(text: &mut String, fs: &FindState) -> (changed: bool)
    requires
        fs.matches@.len() > 0 && fs.query@.len() > 0 ==> comparable_at_current(old(text)@, *fs),
    ensures
        changed == (fs.matches@.len() > 0 && fs.query@.len() > 0 && occurs_at(old(text)@, fs.query@, current_match(*fs))),
        changed ==> final(text)@ == old(text)@.take(current_match(*fs)) + fs.replace@ + old(text)@.skip(
            current_match(*fs) + fs.query@.len(),
        ),
        !changed ==> *final(text) == *old(text),
{
    if fs.matches.len() == 0 || fs.query.as_str().is_empty() {
        return false;
    }
    let idx = fs.matches[fs.current % fs.matches.len()];
    let t = to_chars(text.as_str());
    let q = to_chars(fs.query.as_str());
    if !matches_at(&t, &q, idx) {
        return false;
    }
    let mut out = string_of(&t, 0, idx);
    out.append(fs.replace.as_str());
    let rest = string_of(&t, idx + q.len(), t.len());
    out.append(rest.as_str());
    assert(out@ =~= t@.take(idx as int) + fs.replace@ + t@.skip(idx + q@.len()));
    *text = out;
    true
}

/// `t` from position `i` on, with every match of `q` found from left to right
/// without overlap replaced by `r`.
pub open spec fn replaced_from(t: Seq<char>, q: Seq<char>, r: Seq<char>, i: int) -> Seq<char>
    decreases t.len() - i,
{
    if i < 0 || i >= t.len() || q.len() == 0 {
        Seq::empty()
    } else if occurs_at(t, q, i) {
        r + replaced_from(t, q, r, i + q.len())
    } else {
        seq![t[i]] + replaced_from(t, q, r, i + 1)
    }
}

/// `t` with every match of `q` (left to right, without overlap) replaced by
/// `r`, as `str::replace` does for a non-empty `q`.
pub open spec fn replaced(t: Seq<char>, q: Seq<char>, r: Seq<char>) -> Seq<char> {
    replaced_from(t, q, r, 0)
}

/// Replaces every match of the query of `fs` in `text` by its replacement and
/// clears the matches. Nothing changes when the query is empty. Returns
/// whether the text was rewritten.
pub fn replace_all(text: &mut String, fs: &mut FindState) -> (changed: bool)
    ensures
        changed == (old(fs).query@.len() > 0),
        changed ==> final(text)@ == replaced(old(text)@, old(fs).query@, old(fs).replace@) && final(fs).matches@.len()
            == 0 && final(fs).current == 0,
        !changed ==> *final(text) == *old(text) && *final(fs) == *old(fs),
        final(fs).query == old(fs).query,
        final(fs).replace == old(fs).replace,
        final(fs).replace_mode == old(fs).replace_mode,
{
    let q = to_chars(fs.query.as_str());
    if q.len() == 0 {
        return false;
    }
    let t = to_chars(text.as_str());
    let r = fs.replace.as_str();
    let mut out = String::new();
    let mut i: usize = 0;
    while i < t.len()
        invariant
            0 < q@.len(),
            i <= t@.len(),
            out@ + replaced_from(t@, q@, r@, i as int) == replaced(t@, q@, r@),
        decreases t.len() - i,
    {
        let ghost before = out@;
        if matches_at(&t, &q, i) {
            out.append(r);
            assert(out@ + replaced_from(t@, q@, r@, i + q@.len()) =~= before + replaced_from(t@, q@, r@, i as int));
            i = i + q.len();
        } else {
            string_push(&mut out, t[i]);
            assert(out@ + replaced_from(t@, q@, r@, i + 1) =~= before + replaced_from(t@, q@, r@, i as int));
            i = i + 1;
        }
    }
    assert(out@ =~= out@ + replaced_from(t@, q@, r@, i as int));
    *text = out;
    fs.matches.clear();
    fs.current = 0;
    true
}


// ---------------------------------------------------------------------------
// Carrying out a command
// ---------------------------------------------------------------------------

/// The part of the editor's state that commands change directly.
pub struct Workbench {
    pub activity: Activity,
    pub sidebar_open: bool,
    pub ai_panel_open: bool,
    pub dialog: Option<DialogKind>,
    pub find: Option<FindState>,
    /// `dark` or `light`.
    pub theme: String,
    /// A novel is open.
    pub novel_open: bool,
    /// The chapter of the active tab.
    pub active_tab: Option<String>,
}

/// What the editor still has to do after a command changed the workbench.
pub enum CommandEffect {
    Nothing,
    /// Reload the library's list of novels.
    RefreshLibrary,
    /// Save everything, then confirm it.
    SaveAll,
    /// Show a message (text, whether it reports success).
    Toast(String, bool),
    /// Apply and save the changed theme.
    ThemeChanged,
    /// Make the editor's font one point larger, up to its maximum.
    FontUp,
    /// Make the editor's font one point smaller, down to its minimum.
    FontDown,
    /// Send the request of this AI command.
    StartAction(Command),
    /// Save and close the tab of this chapter.
    CloseTab(String),
    /// Save and close the open novel.
    CloseNovel,
}

pub const THEME_DARK: &'static str = "dark";
pub const THEME_LIGHT: &'static str = "light";
/// Reported when a command needs an open novel.
pub const NEEDS_NOVEL: &'static str = "请先打开一部小说";

/// The command asks the AI for something.
pub open spec fn is_ai_command(cmd: Command) -> bool {
    match cmd {
        Command::AiContinue | Command::AiOutline | Command::AiPolish | Command::AiExpand
        | Command::AiSummary | Command::AiChapterOutline | Command::AiPlotIdeas
        | Command::AiLogicCheck | Command::AiFeedback | Command::AiConsistency
        | Command::AiCharacterCard | Command::AiWorld | Command::AiNaming | Command::AiSynopsis => true,
        _ => false,
    }
}

/// `f` is an empty search, in replace mode or not.
pub open spec fn fresh_find(f: FindState, replace_mode: bool) -> bool {
    &&& f.query@.len() == 0
    &&& f.replace@.len() == 0
    &&& f.matches@.len() == 0
    &&& f.current == 0
    &&& f.replace_mode == replace_mode
}

/// `n` is `o` with only the fields that `cmd` changes changed, as the
/// command palette and the shortcuts carry it out.
pub open spec fn command_applied(o: Workbench, n: Workbench, cmd: Command, e: CommandEffect) -> bool {
    let same_but = |a: bool, s: bool, p: bool, d: bool, f: bool, t: bool|
        (a || n.activity == o.activity) && (s || n.sidebar_open == o.sidebar_open) && (p || n.ai_panel_open
            == o.ai_panel_open) && (d || n.dialog == o.dialog) && (f || n.find == o.find) && (t || n.theme
            == o.theme) && n.novel_open == o.novel_open && n.active_tab == o.active_tab;
    if is_ai_command(cmd) {
        same_but(true, false, true, false, false, false) && n.ai_panel_open && n.activity == Activity::Chapters
            && e == CommandEffect::StartAction(cmd)
    } else {
        match cmd {
            Command::NewNovel => same_but(false, false, false, true, false, false) && n.dialog == Some(
                DialogKind::NewNovel,
            ) && e is Nothing,
            Command::OpenLibrary => same_but(true, false, false, false, false, false) && n.activity
                == Activity::Library && e is RefreshLibrary,
            Command::Save => same_but(false, false, false, false, false, false) && e is SaveAll,
            Command::Export => if o.novel_open {
                same_but(false, false, false, true, false, false) && n.dialog == Some(DialogKind::Export) && e is Nothing
            } else {
                same_but(false, false, false, false, false, false) && (e matches CommandEffect::Toast(m, ok) && m@
                    == NEEDS_NOVEL@ && !ok)
            },
            Command::Import => same_but(false, false, false, true, false, false) && n.dialog == Some(
                DialogKind::Import,
            ) && e is Nothing,
            Command::ToggleSidebar => same_but(false, true, false, false, false, false) && n.sidebar_open
                == !o.sidebar_open && e is Nothing,
            Command::ToggleAI => same_but(true, false, true, false, false, false) && n.ai_panel_open
                == !o.ai_panel_open && n.activity == Activity::Chapters && e is Nothing,
            Command::ToggleTheme => same_but(false, false, false, false, false, true) && n.theme@ == (if o.theme@
                == THEME_DARK@ {
                THEME_LIGHT@
            } else {
                THEME_DARK@
            }) && e is ThemeChanged,
            Command::FontUp => same_but(false, false, false, false, false, false) && e is FontUp,
            Command::FontDown => same_but(false, false, false, false, false, false) && e is FontDown,
            Command::Find => if o.novel_open && o.active_tab is Some {
                same_but(false, false, false, false, true, false) && (n.find matches Some(f) && fresh_find(f, false))
                    && e is Nothing
            } else {
                same_but(false, false, false, false, false, false) && e is Nothing
            },
            Command::Replace => if o.novel_open && o.active_tab is Some {
                same_but(false, false, false, false, true, false) && (n.find matches Some(f) && fresh_find(f, true))
                    && e is Nothing
            } else {
                same_but(false, false, false, false, false, false) && e is Nothing
            },
            Command::GlobalSearch => same_but(true, true, false, false, false, false) && n.activity
                == Activity::Search && n.sidebar_open && e is Nothing,
            Command::NewChapter => if o.novel_open {
                same_but(false, false, false, true, false, false) && n.dialog == Some(DialogKind::NewChapter)
                    && e is Nothing
            } else {
                same_but(false, false, false, false, false, false) && e is Nothing
            },
            Command::NewVolume => if o.novel_open {
                same_but(false, false, false, true, false, false) && n.dialog == Some(DialogKind::NewVolume)
                    && e is Nothing
            } else {
                same_but(false, false, false, false, false, false) && e is Nothing
            },
            Command::CloseTab => same_but(false, false, false, false, false, false) && match o.active_tab {
                Some(c) => (e matches CommandEffect::CloseTab(x) && x@ == c@),
                None => e is Nothing,
            },
            Command::CloseNovel => same_but(false, false, false, false, false, false) && e is CloseNovel,
            Command::About => same_but(false, false, false, true, false, false) && n.dialog == Some(
                DialogKind::About,
            ) && e is Nothing,
            Command::Stats => same_but(true, false, false, false, false, false) && n.activity == Activity::Stats
                && e is Nothing,
            Command::Settings => same_but(true, false, false, false, false, false) && n.activity
                == Activity::Settings && e is Nothing,
            _ => false,
        }
    }
}

/// Carries out a command of the palette or of a shortcut: the workbench is
/// updated and what remains to be done (saving, closing, asking the AI) is
/// returned.
pub fn execute_command(wb: &mut Workbench, cmd: Command) -> (e: CommandEffect)
    ensures
        command_applied(*old(wb), *final(wb), cmd, e),
{
    match cmd {
        Command::NewNovel => {
            wb.dialog = Some(DialogKind::NewNovel);
            CommandEffect::Nothing
        },
        Command::OpenLibrary => {
            wb.activity = Activity::Library;
            CommandEffect::RefreshLibrary
        },
        Command::Save => CommandEffect::SaveAll,
        Command::Export => {
            if wb.novel_open {
                wb.dialog = Some(DialogKind::Export);
                CommandEffect::Nothing
            } else {
                CommandEffect::Toast(NEEDS_NOVEL.to_owned(), false)
            }
        },
        Command::Import => {
            wb.dialog = Some(DialogKind::Import);
            CommandEffect::Nothing
        },
        Command::ToggleSidebar => {
            wb.sidebar_open = !wb.sidebar_open;
            CommandEffect::Nothing
        },
        Command::ToggleAI => {
            wb.ai_panel_open = !wb.ai_panel_open;
            wb.activity = Activity::Chapters;
            CommandEffect::Nothing
        },
        Command::ToggleTheme => {
            wb.theme = if str_eq_theme(wb.theme.as_str()) {
                THEME_LIGHT.to_owned()
            } else {
                THEME_DARK.to_owned()
            };
            CommandEffect::ThemeChanged
        },
        Command::FontUp => CommandEffect::FontUp,
        Command::FontDown => CommandEffect::FontDown,
        Command::Find => {
            if wb.novel_open && wb.active_tab.is_some() {
                wb.find = Some(FindState::new());
            }
            CommandEffect::Nothing
        },
        Command::Replace => {
            if wb.novel_open && wb.active_tab.is_some() {
                let mut f = FindState::new();
                f.replace_mode = true;
                wb.find = Some(f);
            }
            CommandEffect::Nothing
        },
        Command::GlobalSearch => {
            wb.activity = Activity::Search;
            wb.sidebar_open = true;
            CommandEffect::Nothing
        },
        Command::NewChapter => {
            if wb.novel_open {
                wb.dialog = Some(DialogKind::NewChapter);
            }
            CommandEffect::Nothing
        },
        Command::NewVolume => {
            if wb.novel_open {
                wb.dialog = Some(DialogKind::NewVolume);
            }
            CommandEffect::Nothing
        },
        Command::AiContinue | Command::AiOutline | Command::AiPolish | Command::AiExpand
        | Command::AiSummary | Command::AiChapterOutline | Command::AiPlotIdeas
        | Command::AiLogicCheck | Command::AiFeedback | Command::AiConsistency
        | Command::AiCharacterCard | Command::AiWorld | Command::AiNaming | Command::AiSynopsis => {
            wb.ai_panel_open = true;
            wb.activity = Activity::Chapters;
            CommandEffect::StartAction(cmd)
        },
        Command::CloseTab => match &wb.active_tab {
            Some(c) => CommandEffect::CloseTab(c.clone()),
            None => CommandEffect::Nothing,
        },
        Command::CloseNovel => CommandEffect::CloseNovel,
        Command::About => {
            wb.dialog = Some(DialogKind::About);
            CommandEffect::Nothing
        },
        Command::Stats => {
            wb.activity = Activity::Stats;
            CommandEffect::Nothing
        },
        Command::Settings => {
            wb.activity = Activity::Settings;
            CommandEffect::Nothing
        },
    }
}

/// The shortcut keys pressed (with the command key held) in one frame.
pub struct ShortcutInput {
    pub n: bool,
    pub o: bool,
    pub s: bool,
    pub f: bool,
    pub h: bool,
    pub p: bool,
    pub b: bool,
    pub j: bool,
    /// `=` or `+`.
    pub plus: bool,
    pub minus: bool,
    pub w: bool,
    pub shift: bool,
    /// Escape, with or without the command key.
    pub escape: bool,
}

/// The commands of the shortcuts in `i`, in the order in which they are checked.
pub open spec fn shortcut_commands(i: ShortcutInput) -> Seq<Command> {
    let step = |acc: Seq<Command>, on: bool, c: Command| if on { acc.push(c) } else { acc };
    let a = step(Seq::empty(), i.n, Command::NewNovel);
    let a = step(a, i.o, Command::OpenLibrary);
    let a = step(a, i.s, Command::Save);
    let a = step(a, i.f, if i.shift { Command::GlobalSearch } else { Command::Find });
    let a = step(a, i.h, Command::Replace);
    let a = step(a, i.p, Command::GlobalSearch);
    let a = step(a, i.b, Command::ToggleSidebar);
    let a = step(a, i.j, Command::ToggleAI);
    let a = step(a, i.plus, Command::FontUp);
    let a = step(a, i.minus, Command::FontDown);
    step(a, i.w, Command::CloseTab)
}

fn push_if(v: &mut Vec<Command>, on: bool, c: Command)
    ensures
        final(v)@ == if on {
            old(v)@.push(c)
        } else {
            old(v)@
        },
{
    if on {
        v.push(c);
    }
}

/// The shortcuts of one frame: `Ctrl+P` opens the command palette (with an
/// empty query); while the palette is open, `Esc` closes it and no shortcut
/// runs a command; otherwise the commands of the keys pressed are returned,
/// to be carried out in order. Returns the commands and whether the palette
/// is open afterwards.
pub fn handle_shortcuts(input: &ShortcutInput, palette_open: bool) -> (r: (Vec<Command>, bool))
    ensures
        r.1 == ((palette_open || input.p) && !input.escape),
        (palette_open || input.p) ==> r.0@.len() == 0,
        !(palette_open || input.p) ==> r.0@ == shortcut_commands(*input),
{
    let mut cmds: Vec<Command> = Vec::new();
    push_if(&mut cmds, input.n, Command::NewNovel);
    push_if(&mut cmds, input.o, Command::OpenLibrary);
    push_if(&mut cmds, input.s, Command::Save);
    push_if(&mut cmds, input.f, if input.shift { Command::GlobalSearch } else { Command::Find });
    push_if(&mut cmds, input.h, Command::Replace);
    push_if(&mut cmds, input.p, Command::GlobalSearch);
    push_if(&mut cmds, input.b, Command::ToggleSidebar);
    push_if(&mut cmds, input.j, Command::ToggleAI);
    push_if(&mut cmds, input.plus, Command::FontUp);
    push_if(&mut cmds, input.minus, Command::FontDown);
    push_if(&mut cmds, input.w, Command::CloseTab);
    let open = palette_open || input.p;
    if open {
        (Vec::new(), !input.escape)
    } else {
        (cmds, false)
    }
}

fn str_eq_theme(theme: &str) -> (r: bool)
    ensures
        r == (theme@ == THEME_DARK@),
{
    crate::text::str_eq(theme, THEME_DARK)
}

proof fn lemma_matches_from(t: Seq<char>, q: Seq<char>, i: int)
    requires
        i >= 0,
    ensures
        forall|k: int| 0 <= k < matches_from(t, q, i).len() ==> i <= #[trigger] matches_from(t, q, i)[k]
            && occurs_at(t, q, matches_from(t, q, i)[k]),
        forall|k: int, j: int|
            0 <= k < j < matches_from(t, q, i).len() ==> #[trigger] matches_from(t, q, i)[k] + q.len()
                <= #[trigger] matches_from(t, q, i)[j],
    decreases t.len() - i,
{
    if q.len() == 0 || i + q.len() > t.len() {
        assert(matches_from(t, q, i).len() == 0);
    } else if occurs_at(t, q, i) {
        lemma_matches_from(t, q, i + q.len());
        let rest = matches_from(t, q, i + q.len());
        assert(matches_from(t, q, i) == seq![i] + rest);
        assert forall|k: int| 0 <= k < matches_from(t, q, i).len() implies i <= #[trigger] matches_from(t, q, i)[k]
            && occurs_at(t, q, matches_from(t, q, i)[k]) by {
            if k > 0 {
                assert(matches_from(t, q, i)[k] == rest[k - 1]);
            }
        }
        assert forall|k: int, j: int|
            0 <= k < j < matches_from(t, q, i).len() implies #[trigger] matches_from(t, q, i)[k] + q.len()
                <= #[trigger] matches_from(t, q, i)[j] by {
            assert(matches_from(t, q, i)[j] == rest[j - 1]);
            if k > 0 {
                assert(matches_from(t, q, i)[k] == rest[k - 1]);
            }
        }
    } else {
        lemma_matches_from(t, q, i + 1);
        assert(matches_from(t, q, i) == matches_from(t, q, i + 1));
    }
}

/// Every position found is a match of the query, and the matches follow one
/// another from left to right without overlapping.
pub proof fn law_matches_are_disjoint_occurrences(t: Seq<char>, q: Seq<char>)
    ensures
        forall|k: int| 0 <= k < match_positions(t, q).len() ==> occurs_at(t, q, #[trigger] match_positions(t, q)[k]),
        forall|k: int, j: int|
            0 <= k < j < match_positions(t, q).len() ==> #[trigger] match_positions(t, q)[k] + q.len()
                <= #[trigger] match_positions(t, q)[j],
{
    lemma_matches_from(t, q, 0);
}

proof fn lemma_replace_with_itself_from(t: Seq<char>, q: Seq<char>, i: int)
    requires
        0 <= i <= t.len(),
        q.len() > 0,
    ensures
        replaced_from(t, q, q, i) == t.skip(i),
    decreases t.len() - i,
{
    if i >= t.len() {
        assert(t.skip(i) =~= Seq::<char>::empty());
    } else if occurs_at(t, q, i) {
        lemma_replace_with_itself_from(t, q, i + q.len());
        assert(q + t.skip(i + q.len()) =~= t.skip(i));
    } else {
        lemma_replace_with_itself_from(t, q, i + 1);
        assert(seq![t[i]] + t.skip(i + 1) =~= t.skip(i));
    }
}

/// Replacing every match of a query by the query itself leaves the text as it was.
pub proof fn law_replace_with_itself(t: Seq<char>, q: Seq<char>)
    requires
        q.len() > 0,
    ensures
        replaced(t, q, q) == t,
{
    lemma_replace_with_itself_from(t, q, 0);
    assert(t.skip(0) =~= t);
}

proof fn lemma_replaced_len_from(t: Seq<char>, q: Seq<char>, r: Seq<char>, i: int)
    requires
        q.len() > 0,
        0 <= i <= t.len(),
    ensures
        replaced_from(t, q, r, i).len() == (t.len() - i) + matches_from(t, q, i).len() * (r.len() - q.len()),
    decreases t.len() - i,
{
    let d = r.len() - q.len();
    if i >= t.len() {
    } else if occurs_at(t, q, i) {
        lemma_replaced_len_from(t, q, r, i + q.len());
        let k = matches_from(t, q, i + q.len()).len();
        assert(matches_from(t, q, i).len() == k + 1);
        assert((k + 1) * d == k * d + d) by (nonlinear_arith);
    } else {
        lemma_replaced_len_from(t, q, r, i + 1);
        if i + q.len() > t.len() {
            assert(matches_from(t, q, i + 1).len() == 0);
        }
    }
}

/// Replacing all changes the length of the text by the length difference
/// once per match: every match of the query is replaced, none is left out.
pub proof fn law_replace_all_length(t: Seq<char>, q: Seq<char>, r: Seq<char>)
    requires
        q.len() > 0,
    ensures
        replaced(t, q, r).len() == t.len() + match_positions(t, q).len() * (r.len() - q.len()),
{
    lemma_replaced_len_from(t, q, r, 0);
}

proof fn lemma_replaced_drops_char(t: Seq<char>, q: Seq<char>, r: Seq<char>, i: int)
    requires
        q.len() == 1,
        forall|j: int| 0 <= j < r.len() ==> r[j] != q[0],
        0 <= i,
    ensures
        forall|j: int| 0 <= j < replaced_from(t, q, r, i).len() ==> replaced_from(t, q, r, i)[j] != q[0],
    decreases t.len() - i,
{
    if i < t.len() {
        if occurs_at(t, q, i) {
            lemma_replaced_drops_char(t, q, r, i + 1);
            let rest = replaced_from(t, q, r, i + 1);
            assert forall|j: int| 0 <= j < (r + rest).len() implies (r + rest)[j] != q[0] by {
                if j >= r.len() {
                    assert((r + rest)[j] == rest[j - r.len()]);
                }
            }
        } else {
            assert(t[i] != q[0]) by {
                if t[i] == q[0] {
                    assert(t.subrange(i, i + 1) =~= q);
                }
            }
            lemma_replaced_drops_char(t, q, r, i + 1);
            let rest = replaced_from(t, q, r, i + 1);
            assert forall|j: int| 0 <= j < (seq![t[i]] + rest).len() implies (seq![t[i]] + rest)[j] != q[0] by {
                if j >= 1 {
                    assert((seq![t[i]] + rest)[j] == rest[j - 1]);
                }
            }
        }
    }
}

/// Replacing all of a one-character query by text without that character
/// leaves no occurrence of it: every match is replaced, not just the first.
pub proof fn law_replace_all_leaves_no_match(t: Seq<char>, q: Seq<char>, r: Seq<char>)
    requires
        q.len() == 1,
        forall|j: int| 0 <= j < r.len() ==> r[j] != q[0],
    ensures
        !has_sub(replaced(t, q, r), q),
{
    lemma_replaced_drops_char(t, q, r, 0);
    let res = replaced(t, q, r);
    if has_sub(res, q) {
        let j = choose|j: int| occurs_at(res, q, j);
        assert(res.subrange(j, j + 1)[0] == res[j]);
    }
}

} // verus!
