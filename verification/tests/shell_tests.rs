use jinshu::app::{close_tab, open_tab, Activity, FindState};
use jinshu::shell::{fuzzy_match, line_col, replace_all, replace_current, update_matches, Command};

#[test]
fn palette_lists_every_command_once() {
    let all = Command::all();
    assert_eq!(all.len(), 34);
    assert!(all[0] == (Command::NewNovel, "新建小说", "创建一部新的作品"));
    assert!(all[33] == (Command::About, "关于锦书", ""));
    for i in 0..all.len() {
        for j in (i + 1)..all.len() {
            assert!(all[i].0 != all[j].0);
        }
    }
}

#[test]
fn fuzzy_matching_in_order() {
    assert!(fuzzy_match("", "anything"));
    assert!(fuzzy_match("新小", "新建小说"));
    assert!(!fuzzy_match("小新", "新建小说"));
    assert!(fuzzy_match("AI续", "AI 续写"));
    assert!(!fuzzy_match("xyz", "新建小说"));
}

#[test]
fn cursor_line_and_column() {
    assert_eq!(line_col("", 0), (1, 1));
    assert_eq!(line_col("ab\ncd", 0), (1, 1));
    assert_eq!(line_col("ab\ncd", 2), (1, 3));
    assert_eq!(line_col("ab\ncd", 3), (2, 1));
    assert_eq!(line_col("ab\ncd", 4), (2, 2));
    assert_eq!(line_col("ab\ncd", 99), (2, 3));
    assert_eq!(line_col("中文\n", 3), (2, 1));
}

#[test]
fn matches_are_character_positions_without_overlap() {
    let mut fs = FindState::new();
    fs.query = "aa".to_string();
    fs.current = 3;
    update_matches(&mut fs, "中aaaa文aa");
    assert_eq!(fs.matches, vec![1, 3, 6]);
    assert_eq!(fs.current, 0);
    fs.query = String::new();
    update_matches(&mut fs, "aaaa");
    assert!(fs.matches.is_empty());
}

#[test]
fn replace_current_and_all() {
    let mut fs = FindState::new();
    fs.query = "剑".to_string();
    fs.replace = "刀".to_string();
    let mut text = "一剑，两剑".to_string();
    update_matches(&mut fs, &text);
    assert_eq!(fs.matches, vec![1, 4]);
    fs.current = 1;
    assert!(replace_current(&mut text, &fs));
    assert_eq!(text, "一剑，两刀");
    // the text changed: the match at the current position is gone
    assert!(!replace_current(&mut text, &fs));
    assert_eq!(text, "一剑，两刀");
    assert!(replace_all(&mut text, &mut fs));
    assert_eq!(text, "一刀，两刀");
    assert!(fs.matches.is_empty());
    fs.query = String::new();
    assert!(!replace_all(&mut text, &mut fs));
    assert_eq!(text, "一刀，两刀");
}

#[test]
fn replacing_a_query_by_itself_changes_nothing() {
    let mut fs = FindState::new();
    fs.query = "ab".to_string();
    fs.replace = "ab".to_string();
    let mut text = "abcabab".to_string();
    assert!(replace_all(&mut text, &mut fs));
    assert_eq!(text, "abcabab");
}

#[test]
fn tabs_open_and_close() {
    let mut tabs: Vec<String> = Vec::new();
    let mut active: Option<String> = None;
    open_tab(&mut tabs, &mut active, "a");
    open_tab(&mut tabs, &mut active, "b");
    open_tab(&mut tabs, &mut active, "a");
    assert_eq!(tabs, vec!["a", "b"]);
    assert_eq!(active.as_deref(), Some("a"));
    close_tab(&mut tabs, &mut active, "a");
    assert_eq!(tabs, vec!["b"]);
    assert_eq!(active.as_deref(), Some("b"));
    open_tab(&mut tabs, &mut active, "c");
    close_tab(&mut tabs, &mut active, "b");
    assert_eq!(active.as_deref(), Some("c"));
    close_tab(&mut tabs, &mut active, "c");
    assert!(tabs.is_empty());
    assert_eq!(active, None);
}

#[test]
fn activities_in_order() {
    let all = Activity::all();
    assert_eq!(all.len(), 10);
    assert!(all[0] == Activity::Library);
    assert_eq!(Activity::Library.icon(), "📚");
    assert_eq!(Activity::Timeline.icon(), "⏱️");
    assert_eq!(Activity::World.label(), "世界观");
    assert_eq!(Activity::Settings.label(), "设置");
}
