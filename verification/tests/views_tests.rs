use jinshu::model::{Location, Novel, TimelineEvent};
use jinshu::ordering::text_less;
use jinshu::views::{day_entries, volume_totals, words_written};

fn event(id: &str, time: &str) -> TimelineEvent {
    TimelineEvent {
        id: id.into(),
        title: id.into(),
        time: time.into(),
        description: String::new(),
        character_ids: Vec::new(),
        location_id: None,
        chapter_id: None,
    }
}

fn place(id: &str, name: &str, parent: Option<&str>) -> Location {
    Location { id: id.into(), name: name.into(), kind: String::new(), parent_id: parent.map(|p| p.into()), description: String::new() }
}

#[test]
fn texts_compare_like_strings() {
    assert!(text_less("a", "b"));
    assert!(text_less("ab", "abc"));
    assert!(!text_less("abc", "ab"));
    assert!(!text_less("a", "a"));
    assert_eq!(text_less("第1卷", "第2卷"), "第1卷" < "第2卷");
    assert_eq!(text_less("乙", "甲"), "乙" < "甲");
}

#[test]
fn timeline_in_time_order_stable() {
    let mut n = Novel::new("书", "", "", "");
    n.timeline = vec![event("e1", "第2卷"), event("e2", "第1卷"), event("e3", "第2卷"), event("e4", "第1卷")];
    let ids: Vec<&str> = n.timeline_order().iter().map(|e| e.id.as_str()).collect();
    assert_eq!(ids, vec!["e2", "e4", "e1", "e3"]);
}

#[test]
fn world_tree_levels() {
    let mut n = Novel::new("书", "", "", "");
    n.locations = vec![place("1", "乙国", None), place("2", "城", Some("1")), place("3", "甲国", None), place("4", "镇", Some("1"))];
    let roots: Vec<&str> = n.root_places().iter().map(|l| l.id.as_str()).collect();
    let mut expected = vec![("乙国", "1"), ("甲国", "3")];
    expected.sort();
    assert_eq!(roots, expected.iter().map(|(_, id)| *id).collect::<Vec<_>>());
    let inside: Vec<&str> = n.places_inside(Some("1")).iter().map(|l| l.id.as_str()).collect();
    assert_eq!(inside, vec!["2", "4"]);
}

#[test]
fn statistics_numbers() {
    let mut n = Novel::new("书", "", "", "");
    n.add_volume("卷一");
    n.add_volume("卷二");
    let v1 = n.volumes[0].id.clone();
    let a = n.add_chapter(Some(&v1), "一");
    n.apply_chapter_save(&a, "你好世界", "2024-01-01", 1);
    n.add_day_words("2024-01-02", 6);
    assert_eq!(words_written(&n), 10);
    assert_eq!(volume_totals(&n), vec![4, 0]);
    let days = vec!["2024-01-01".to_string(), "2024-01-03".to_string()];
    assert_eq!(day_entries(&n, &days), vec![("2024-01-01".to_string(), 4), ("2024-01-03".to_string(), 0)]);
}
