use jinshu::model::{create_novel, Novel, FIRST_CHAPTER, MAIN_VOLUME};
use jinshu::util::{count_chars, count_words, head_chars, indent_two, new_id, tail_chars, truncate_chars};

#[test]
fn word_count_cjk() {
    // 汉字+标点按字符计，英文按词计
    assert_eq!(count_words("你好世界"), 4);
    assert_eq!(count_words("你好，世界！"), 6);
    assert_eq!(count_words("hello world"), 2);
    assert_eq!(count_words("第一章 少年出山"), 7);
    assert_eq!(count_words(""), 0);
}

#[test]
fn blank_text_has_no_words() {
    assert_eq!(count_words("\u{3000}\u{3000}"), 0);
    assert_eq!(count_words(" \t\n\u{3000}"), 0);
    assert_eq!(count_words("\u{3000}\u{3000}开头"), 2);
}

#[test]
fn novel_chapter_flow() {
    let mut n = Novel::new("测试之书", "作者", "简介", "玄幻");
    n.add_volume("第一卷");
    let vid = n.volumes[0].id.clone();
    let cid = n.add_chapter(Some(&vid), "第一章 测试");
    assert_eq!(n.chapters_all().len(), 1);
    let c = n.find_chapter(&cid).unwrap();
    assert_eq!(c.title, "第一章 测试");
    n.delete_chapter(&cid);
    assert_eq!(n.chapters_all().len(), 0);
}

#[test]
fn word_count_mixed_and_digits() {
    assert_eq!(count_words("第3章 hello，world"), 6);
    assert_eq!(count_words("  spaced   out  "), 2);
    assert_eq!(count_chars("a b\n中"), 3);
    assert_eq!(count_chars(""), 0);
}

#[test]
fn new_ids_are_lower_hex_and_distinct() {
    let a = new_id();
    let b = new_id();
    assert_eq!(a.chars().count(), 32);
    assert!(a.chars().all(|c| c.is_ascii_hexdigit() && !c.is_ascii_uppercase()));
    assert_ne!(a, b);
}

#[test]
fn truncation_helpers() {
    assert_eq!(truncate_chars("一二三四五", 3), "一二三\n\n……（已截断）");
    assert_eq!(truncate_chars("一二", 3), "一二");
    assert_eq!(tail_chars("一二三四五", 2), "四五");
    assert_eq!(tail_chars("一二", 5), "一二");
    assert_eq!(indent_two("正文"), "\u{3000}\u{3000}正文");
    assert_eq!(head_chars("一二三四五", 2), "一二");
    assert_eq!(head_chars("一二", 5), "一二");
}

#[test]
fn new_novel_trims_and_names_untitled() {
    let n = Novel::new("  ", " 作者 ", "简介", "都市");
    assert_eq!(n.meta.title, "未命名小说");
    assert_eq!(n.meta.author, "作者");
    assert_eq!(n.meta.chapter_count, 0);
    assert!(n.volumes.is_empty());
}

#[test]
fn chapter_without_volume_goes_to_main_volume() {
    let mut n = Novel::new("书", "", "", "");
    let cid = n.add_chapter(None, " 楔子 ");
    assert_eq!(n.volumes.len(), 1);
    assert_eq!(n.volumes[0].title, MAIN_VOLUME);
    assert_eq!(n.find_chapter(&cid).unwrap().title, "楔子");
    assert_eq!(n.meta.chapter_count, 1);
}

#[test]
fn added_then_deleted_chapter_restores_chapter_list() {
    let mut n = Novel::new("书", "", "", "");
    n.add_volume("卷一");
    let vid = n.volumes[0].id.clone();
    let first = n.add_chapter(Some(&vid), "一");
    let before: Vec<String> = n.chapters_all().iter().map(|c| c.id.clone()).collect();
    let second = n.add_chapter(Some(&vid), "二");
    assert!(n.find_chapter(&second).is_some());
    n.delete_chapter(&second);
    let after: Vec<String> = n.chapters_all().iter().map(|c| c.id.clone()).collect();
    assert_eq!(before, after);
    assert!(n.find_chapter(&second).is_none());
    assert!(n.find_chapter(&first).is_some());
}

#[test]
fn move_chapter_keeps_the_chapters() {
    let mut n = Novel::new("书", "", "", "");
    n.add_volume("卷一");
    let vid = n.volumes[0].id.clone();
    let a = n.add_chapter(Some(&vid), "一");
    let b = n.add_chapter(Some(&vid), "二");
    let c = n.add_chapter(Some(&vid), "三");
    assert!(n.move_chapter(&a, 2));
    let ids: Vec<String> = n.volumes[0].chapters.iter().map(|x| x.id.clone()).collect();
    assert_eq!(ids, vec![b.clone(), c.clone(), a.clone()]);
    assert!(!n.move_chapter(&a, 1));
    assert!(!n.move_chapter("missing", -1));
    assert_eq!(n.volumes[0].chapters.len(), 3);
}

#[test]
fn chapter_save_updates_words_and_stats() {
    let mut n = Novel::new("书", "", "", "");
    let cid = n.add_chapter(None, "一");
    let words = n.apply_chapter_save(&cid, "你好世界", "2024-05-01", 100);
    assert_eq!(words, 4);
    assert_eq!(n.find_chapter(&cid).unwrap().words, 4);
    assert_eq!(n.words_on_day("2024-05-01"), 4);
    assert_eq!(n.meta.total_words, 4);
    let words = n.apply_chapter_save(&cid, "你好", "2024-05-01", 200);
    assert_eq!(words, 2);
    assert_eq!(n.words_on_day("2024-05-01"), 4);
    assert_eq!(n.total_words(), 2);
    assert!(n.has_day("2024-05-01"));
    assert!(!n.has_day("2024-05-02"));
}

#[test]
fn create_novel_has_main_volume_and_first_chapter() {
    let n = create_novel("新书", "我", "仙侠", "简介");
    assert_eq!(n.meta.title, "新书");
    assert_eq!(n.meta.genre, "仙侠");
    assert_eq!(n.meta.description, "简介");
    assert_eq!(n.volumes.len(), 1);
    assert_eq!(n.volumes[0].title, MAIN_VOLUME);
    assert_eq!(n.volumes[0].chapters.len(), 1);
    assert_eq!(n.volumes[0].chapters[0].title, FIRST_CHAPTER);
    assert_eq!(n.meta.chapter_count, 1);
}

#[test]
fn chapter_save_leaves_the_rest_alone() {
    let mut n = Novel::new("书", "我", "", "");
    let a = n.add_chapter(None, "一");
    let b = n.add_chapter(None, "二");
    n.apply_chapter_save(&b, "甲乙丙", "2024-05-01", 10);
    n.ai_summary = "摘要".into();
    n.add_day_words("2024-04-30", 7);
    let words = n.apply_chapter_save(&a, "你好世界", "2024-05-02", 20);
    assert_eq!(words, 4);
    assert_eq!(n.find_chapter(&b).unwrap().words, 3);
    assert_eq!(n.find_chapter(&b).unwrap().updated_at, 10);
    assert_eq!(n.words_on_day("2024-04-30"), 7);
    assert_eq!(n.words_on_day("2024-05-01"), 3);
    assert_eq!(n.words_on_day("2024-05-02"), 4);
    assert_eq!(n.meta.total_words, 7);
    assert_eq!(n.meta.updated_at, 20);
    assert_eq!(n.meta.author, "我");
    assert_eq!(n.ai_summary, "摘要");
}

#[test]
fn adding_then_deleting_a_chapter_restores_the_volumes() {
    let mut n = Novel::new("书", "我", "", "");
    n.add_volume("卷一");
    let vid = n.volumes[0].id.clone();
    n.add_chapter(Some(&vid), "一");
    let before: Vec<(String, String, usize)> =
        n.volumes.iter().map(|v| (v.id.clone(), v.title.clone(), v.chapters.len())).collect();
    let (count, title) = (n.meta.chapter_count, n.meta.title.clone());
    let c = n.add_chapter(Some(&vid), "二");
    n.delete_chapter(&c);
    let after: Vec<(String, String, usize)> =
        n.volumes.iter().map(|v| (v.id.clone(), v.title.clone(), v.chapters.len())).collect();
    assert_eq!(before, after);
    assert_eq!(n.meta.chapter_count, count);
    assert_eq!(n.meta.title, title);
}

#[test]
fn ids_are_lowercase_hex() {
    let mut n = Novel::new("书", "", "", "");
    n.add_volume("卷");
    let c = n.add_chapter(None, "一");
    for id in [n.meta.id.clone(), n.volumes[0].id.clone(), c] {
        assert_eq!(id.len(), 32);
        assert!(id.chars().all(|ch| ch.is_ascii_digit() || ('a'..='f').contains(&ch)));
    }
}

#[test]
fn timestamps_as_text() {
    assert_eq!(jinshu::util::format_ts(0), "1970-01-01 00:00");
    assert_eq!(jinshu::util::format_ts(86_400 + 3_660), "1970-01-02 01:01");
    assert_eq!(jinshu::util::format_ts(i64::MAX), jinshu::util::NO_TIME);
}
