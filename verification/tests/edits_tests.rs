use jinshu::model::{Character, Location, Novel, NovelMeta, Task, TimelineEvent};
use jinshu::store::{key_from_bytes, sort_recent_first, KEY_FILE_CORRUPT};

fn character(id: &str, name: &str) -> Character {
    Character {
        id: id.into(),
        name: name.into(),
        role: String::new(),
        appearance: String::new(),
        personality: String::new(),
        background: String::new(),
        goals: String::new(),
        notes: String::new(),
        relationships: Vec::new(),
    }
}

fn place(id: &str, parent: Option<&str>) -> Location {
    Location { id: id.into(), name: id.into(), kind: String::new(), parent_id: parent.map(|p| p.into()), description: String::new() }
}

fn task(id: &str, status: u8, chain: Option<&str>) -> Task {
    Task { id: id.into(), title: id.into(), description: String::new(), status, chain_id: chain.map(|c| c.into()) }
}

#[test]
fn deleting_cards_and_events() {
    let mut n = Novel::new("书", "", "", "");
    n.characters = vec![character("a", "甲"), character("b", "乙"), character("a", "甲2")];
    n.delete_character("a");
    assert_eq!(n.characters.len(), 1);
    assert_eq!(n.characters[0].name, "乙");
    n.timeline = vec![TimelineEvent {
        id: "e".into(),
        title: "t".into(),
        time: String::new(),
        description: String::new(),
        character_ids: Vec::new(),
        location_id: None,
        chapter_id: None,
    }];
    n.delete_event("x");
    assert_eq!(n.timeline.len(), 1);
    n.delete_event("e");
    assert!(n.timeline.is_empty());
}

#[test]
fn deleting_places_with_or_without_their_children() {
    let mut n = Novel::new("书", "", "", "");
    n.locations = vec![place("world", None), place("city", Some("world")), place("house", Some("city"))];
    n.delete_location_tree("world");
    let ids: Vec<&str> = n.locations.iter().map(|l| l.id.as_str()).collect();
    assert_eq!(ids, vec!["house"]);
    n.locations = vec![place("world", None), place("city", Some("world"))];
    n.delete_location("world");
    assert_eq!(n.locations.len(), 1);
    assert_eq!(n.locations[0].id, "city");
}

#[test]
fn task_board() {
    let mut n = Novel::new("书", "", "", "");
    n.tasks = vec![task("t1", 0, Some("c1")), task("t2", 2, None), task("t3", 1, Some("c1"))];
    n.set_task_status("t1", 1);
    assert_eq!(n.tasks[0].status, 1);
    n.cycle_task_status("t2");
    assert_eq!(n.tasks[1].status, 0);
    n.cycle_task_status("t3");
    assert_eq!(n.tasks[2].status, 2);
    n.cycle_task_status("missing");
    assert_eq!(n.tasks.len(), 3);
    assert_eq!(n.tasks_on_board(None).len(), 3);
    assert_eq!(n.tasks_on_board(Some("all")).len(), 3);
    let c1: Vec<&str> = n.tasks_on_board(Some("c1")).iter().map(|t| t.id.as_str()).collect();
    assert_eq!(c1, vec!["t1", "t3"]);
    n.delete_task("t1");
    assert_eq!(n.tasks.len(), 2);
}

#[test]
fn deleting_a_volume_removes_its_chapters() {
    let mut n = Novel::new("书", "", "", "");
    n.add_volume("卷一");
    n.add_volume("卷二");
    let v1 = n.volumes[0].id.clone();
    let v2 = n.volumes[1].id.clone();
    let a = n.add_chapter(Some(&v1), "一");
    let b = n.add_chapter(Some(&v1), "二");
    let _c = n.add_chapter(Some(&v2), "三");
    let removed = n.delete_volume(&v1);
    assert_eq!(removed, vec![a, b]);
    assert_eq!(n.volumes.len(), 1);
    assert_eq!(n.meta.chapter_count, 1);
    assert!(n.delete_volume("missing").is_empty());
}

#[test]
fn renaming() {
    let mut n = Novel::new("书", "", "", "");
    n.add_volume("卷一");
    let vid = n.volumes[0].id.clone();
    let cid = n.add_chapter(Some(&vid), "一");
    assert!(n.rename_volume(&vid, "  新卷  "));
    assert_eq!(n.volumes[0].title, "新卷");
    assert!(!n.rename_volume(&vid, "   "));
    assert!(!n.rename_volume("missing", "x"));
    assert!(n.rename_chapter(&cid, " 第一章 "));
    assert_eq!(n.find_chapter(&cid).unwrap().title, "第一章");
    assert!(!n.rename_chapter("missing", "x"));
}

#[test]
fn key_file_must_hold_thirty_two_bytes() {
    assert_eq!(key_from_bytes(&[9u8; 32]).unwrap(), [9u8; 32]);
    assert_eq!(key_from_bytes(&[9u8; 31]).unwrap_err(), KEY_FILE_CORRUPT);
}

fn meta(id: &str, updated_at: i64) -> NovelMeta {
    NovelMeta {
        id: id.into(),
        title: id.into(),
        author: String::new(),
        description: String::new(),
        genre: String::new(),
        created_at: 0,
        updated_at,
        total_words: 0,
        chapter_count: 0,
    }
}

#[test]
fn library_newest_first_and_stable() {
    let sorted = sort_recent_first(vec![meta("a", 1), meta("b", 3), meta("c", 1), meta("d", 2)]);
    let ids: Vec<&str> = sorted.iter().map(|m| m.id.as_str()).collect();
    assert_eq!(ids, vec!["b", "d", "a", "c"]);
}

#[test]
fn relationships_are_added_and_removed() {
    let mut n = Novel::new("书", "", "", "");
    n.characters.push(character("a", "林舟"));
    n.characters.push(character("b", "白露"));
    n.ai_summary = "摘要".into();
    assert!(!n.add_relationship("a", "", "兄妹"));
    assert!(!n.add_relationship("x", "b", "兄妹"));
    assert!(n.add_relationship("a", "b", "  兄妹 "));
    assert_eq!(n.characters[0].relationships.len(), 1);
    let r = &n.characters[0].relationships[0];
    assert_eq!((r.target_id.as_str(), r.target_name.as_str(), r.relation.as_str(), r.note.as_str()), ("b", "白露", "兄妹", ""));
    assert!(n.characters[1].relationships.is_empty());
    assert!(n.add_relationship("a", "a", "自己"));
    assert_eq!(n.characters[0].relationships[1].target_name, "");
    assert!(!n.remove_relationship("a", 5));
    assert!(n.remove_relationship("a", 0));
    assert_eq!(n.characters[0].relationships.len(), 1);
    assert_eq!(n.characters[0].relationships[0].relation, "自己");
    assert_eq!(n.characters[1].name, "白露");
    assert_eq!(n.ai_summary, "摘要");
}

#[test]
fn tasks_and_chains_from_the_board() {
    let mut n = Novel::new("书", "", "", "");
    let c = n.add_chain(jinshu::edits::NEW_CHAIN);
    assert_eq!(c.len(), 32);
    assert_eq!(n.chains.len(), 1);
    assert_eq!(n.chains[0].name, "新任务链");
    let t1 = n.add_task(jinshu::edits::NEW_TASK, Some(&c));
    let t2 = n.add_task(jinshu::edits::NEW_TASK, Some("all"));
    let t3 = n.add_task("写大纲", None);
    assert_eq!(n.tasks.len(), 3);
    assert_eq!(n.tasks[0].id, t1);
    assert_eq!(n.tasks[0].title, "新任务");
    assert_eq!(n.tasks[0].chain_id.as_deref(), Some(c.as_str()));
    assert_eq!(n.tasks[1].id, t2);
    assert_eq!(n.tasks[1].chain_id, None);
    assert_eq!(n.tasks[2].id, t3);
    assert_eq!(n.tasks[2].status, 0);
    assert_eq!(n.tasks_on_board(Some(&c)).len(), 1);
}

#[test]
fn deleting_a_volume_keeps_the_rest() {
    let mut n = Novel::new("书", "我", "简介", "");
    n.add_volume("卷一");
    n.ai_summary = "摘要".into();
    let vid = n.volumes[0].id.clone();
    n.add_chapter(Some(&vid), "一");
    let removed = n.delete_volume(&vid);
    assert_eq!(removed.len(), 1);
    assert!(n.volumes.is_empty());
    assert_eq!(n.meta.chapter_count, 0);
    assert_eq!(n.meta.author, "我");
    assert_eq!(n.ai_summary, "摘要");
}

#[test]
fn renaming_and_casting_a_character() {
    let mut n = Novel::new("书", "", "", "");
    n.characters.push(character("a", "林舟"));
    assert!(n.rename_character("a", "  林小舟 "));
    assert_eq!(n.characters[0].name, "林小舟");
    assert!(n.set_character_role("a", "主角"));
    assert_eq!(n.characters[0].role, "主角");
    assert!(!n.rename_character("x", "某"));
    assert!(!n.set_character_role("x", "配角"));
}
