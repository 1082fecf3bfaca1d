use jinshu::app::{AiEvent, AiMsg, AiSession, AI_NO_KEY, NOTHING_TO_REGENERATE};
use jinshu::assistant::{apply_outline_reply, insert_at_cursor, offers_outline, offers_summary, summary_from_reply};
use jinshu::dialogs::export_file_name;
use jinshu::model::Novel;
use jinshu::shell::{
    execute_command, handle_shortcuts, palette_items, Command, CommandEffect, ShortcutInput, Workbench, NEEDS_NOVEL,
    NO_MATCH,
};
use jinshu::app::Activity;
use jinshu::views::search_chapters;

fn msg(role: &str, content: &str, action: &str) -> AiMsg {
    AiMsg { role: role.into(), content: content.into(), action: action.into() }
}

#[test]
fn inserting_a_reply() {
    assert_eq!(insert_at_cursor("甲乙", Some(1), "  丙 "), "甲\n\n丙\n乙");
    assert_eq!(insert_at_cursor("甲乙", None, "丙"), "甲乙\n\n丙\n");
    assert_eq!(insert_at_cursor("甲乙", Some(9), "丙"), "甲乙\n\n丙\n");
}

#[test]
fn reply_buttons() {
    assert!(offers_outline(&msg("assistant", "【卷一】", "大纲生成")));
    assert!(!offers_outline(&msg("assistant", "  ", "大纲生成")));
    assert!(offers_summary(&msg("assistant", "摘要内容", "章节摘要")));
    assert!(offers_summary(&msg("assistant", "摘要内容", "摘要")));
    assert!(!offers_summary(&msg("assistant", "摘要内容", "续写")));
    assert_eq!(summary_from_reply(&"字".repeat(500)).chars().count(), 400);
    let mut n = Novel::new("书", "", "", "");
    assert!(!apply_outline_reply(&mut n, "没有结构"));
    assert!(n.outline.is_empty());
    assert!(apply_outline_reply(&mut n, "【卷一】\n- 甲：一"));
    assert_eq!(n.outline.len(), 1);
    assert_eq!(n.outline[0].children[0].title, "甲");
}

#[test]
fn regenerating_a_reply() {
    let mut s = AiSession::new();
    assert_eq!(s.regenerate(0, "key").unwrap_err(), NOTHING_TO_REGENERATE);
    let req = vec![("user".to_string(), "问题".to_string())];
    s.start("续写", &req, "key").unwrap();
    s.receive(&[AiEvent::Chunk("回答".into()), AiEvent::Done]);
    assert_eq!(s.msgs.len(), 2);
    assert!(s.regenerate(1, "key").unwrap());
    assert_eq!(s.msgs.len(), 2);
    assert_eq!(s.msgs[1].content, "问题");
    assert_eq!(s.msgs[1].action, "对话");
    assert!(!s.regenerate(2, "key").unwrap());
    s.receive(&[AiEvent::Error("x".into())]);
    assert_eq!(s.regenerate(3, "").unwrap_err(), AI_NO_KEY);
    assert_eq!(s.msgs.len(), 3);
}

#[test]
fn searching_all_chapters() {
    let mut n = Novel::new("书", "", "", "");
    let a = n.add_chapter(None, "一");
    let b = n.add_chapter(None, "二");
    let texts = vec![
        (a.clone(), "开头\n  他拔出了剑  \n剑光一闪".to_string()),
        (b.clone(), "没有".to_string()),
    ];
    let r = search_chapters(&n, &texts, " 剑 ");
    assert_eq!(r, vec![(a.clone(), "一".to_string(), "他拔出了剑".to_string())]);
    assert!(search_chapters(&n, &texts, "  ").is_empty());
}

#[test]
fn palette_filtering() {
    let all = palette_items("");
    assert_eq!(all.len(), 14);
    assert!(all[0] == (Command::NewNovel, "新建小说"));
    let ai = palette_items("ai续");
    assert!(ai[0] == (Command::AiContinue, "AI 续写"));
    let none = palette_items("zzzz");
    assert!(none == vec![(Command::About, NO_MATCH)]);
}

fn bench(novel_open: bool, tab: Option<&str>) -> Workbench {
    Workbench {
        activity: Activity::Library,
        sidebar_open: false,
        ai_panel_open: false,
        dialog: None,
        find: None,
        theme: "dark".into(),
        novel_open,
        active_tab: tab.map(|t| t.into()),
    }
}

#[test]
fn carrying_out_commands() {
    let mut wb = bench(false, None);
    match execute_command(&mut wb, Command::Export) {
        CommandEffect::Toast(m, ok) => {
            assert_eq!(m, NEEDS_NOVEL);
            assert!(!ok);
        }
        _ => panic!("expected a message"),
    }
    assert!(matches!(execute_command(&mut wb, Command::ToggleTheme), CommandEffect::ThemeChanged));
    assert_eq!(wb.theme, "light");
    execute_command(&mut wb, Command::Find);
    assert!(wb.find.is_none());
    let mut wb = bench(true, Some("c1"));
    execute_command(&mut wb, Command::Replace);
    assert!(wb.find.as_ref().unwrap().replace_mode);
    assert!(matches!(execute_command(&mut wb, Command::AiPolish), CommandEffect::StartAction(Command::AiPolish)));
    assert!(wb.ai_panel_open);
    assert!(wb.activity == Activity::Chapters);
    match execute_command(&mut wb, Command::CloseTab) {
        CommandEffect::CloseTab(c) => assert_eq!(c, "c1"),
        _ => panic!("expected a tab to close"),
    }
    execute_command(&mut wb, Command::GlobalSearch);
    assert!(wb.activity == Activity::Search && wb.sidebar_open);
}

fn keys() -> ShortcutInput {
    ShortcutInput {
        n: false,
        o: false,
        s: false,
        f: false,
        h: false,
        p: false,
        b: false,
        j: false,
        plus: false,
        minus: false,
        w: false,
        shift: false,
        escape: false,
    }
}

#[test]
fn keyboard_shortcuts() {
    let mut k = keys();
    k.s = true;
    k.f = true;
    k.shift = true;
    let (cmds, open) = handle_shortcuts(&k, false);
    assert!(cmds == vec![Command::Save, Command::GlobalSearch]);
    assert!(!open);
    let mut k = keys();
    k.p = true;
    k.s = true;
    let (cmds, open) = handle_shortcuts(&k, false);
    assert!(cmds.is_empty() && open);
    let mut k = keys();
    k.escape = true;
    let (cmds, open) = handle_shortcuts(&k, true);
    assert!(cmds.is_empty() && !open);
}

#[test]
fn export_names() {
    assert_eq!(export_file_name("剑出昆仑：上", "md"), "剑出昆仑_上.md");
    assert_eq!(export_file_name("", "txt"), "未命名.txt");
}

fn person(name: &str, role: &str) -> jinshu::model::Character {
    jinshu::model::Character {
        id: name.into(),
        name: name.into(),
        role: role.into(),
        appearance: "高".into(),
        personality: "冷".into(),
        background: "孤儿".into(),
        goals: "复仇".into(),
        notes: String::new(),
        relationships: Vec::new(),
    }
}

#[test]
fn lorebook_injects_named_cards() {
    let mut n = Novel::new("书", "", "", "");
    n.characters.push(person("林舟", "主角"));
    n.characters.push(person("白", "配角"));
    n.locations.push(jinshu::model::Location {
        id: "p".into(),
        name: "青城".into(),
        kind: "城市".into(),
        parent_id: None,
        description: "山城".into(),
    });
    let (hc, hl) = jinshu::context::lore_hits(&n, "林舟走进青城，白也来了。");
    assert_eq!(hc, vec!["林舟".to_string()]);
    assert_eq!(hl, vec!["青城".to_string()]);
    let (_, chars, world) = jinshu::context::build_context(&n, "林舟走进青城。", true);
    assert_eq!(chars, "【林舟】（主角）：外貌=高；性格=冷；背景=孤儿；目标=复仇\n");
    assert_eq!(world, "【青城】（城市）山城\n");
    let (_, cast, _) = jinshu::context::build_context(&n, "林舟走进青城。", false);
    assert_eq!(cast, "人物列表：林舟、白");
}
