use jinshu::crypto::{decrypt_bytes, DECRYPT_FAILED, NOT_A_FILE};
use jinshu::export::import_to_store;
use jinshu::model::Novel;
use jinshu::store::{Store, CHAPTER_ENCODING_ERROR};

fn store() -> Store {
    Store { data_dir: std::path::PathBuf::from("data"), key: [3u8; 32] }
}

#[test]
fn saved_chapter_reads_back() {
    let s = store();
    let text = "这里是非常机密的章节正文，绝不能明文暴露。";
    let f = s.save_chapter("n1", "c1", text).unwrap();
    assert_eq!(f.path, vec!["novels", "n1", "chapters", "c1.jsr"]);
    // the file holds no plain text
    assert!(!f.bytes.windows(text.len()).any(|w| w == text.as_bytes()));
    assert_eq!(s.load_chapter("c1", &f.bytes).unwrap(), text);
    // the chapter's file name is its associated data
    assert_eq!(s.load_chapter("c2", &f.bytes).unwrap_err(), DECRYPT_FAILED);
    assert!(decrypt_bytes(&s.key, b"c1.jsr", &f.bytes).is_ok());
}

#[test]
fn chapter_that_is_not_utf8_is_reported() {
    let s = store();
    let blob = jinshu::crypto::encrypt_bytes(&s.key, b"c1.jsr", &[0xff, 0xfe]).unwrap();
    let e = s.load_chapter("c1", &blob).unwrap_err();
    assert!(e.starts_with(CHAPTER_ENCODING_ERROR));
    assert!(e.len() > CHAPTER_ENCODING_ERROR.len());
    assert_eq!(s.load_chapter("c1", b"plain").unwrap_err(), NOT_A_FILE);
}

#[test]
fn novel_and_settings_files() {
    let s = store();
    assert_eq!(s.novel_dir("abc"), vec!["novels", "abc"]);
    let f = s.novel_file("abc", b"{\"x\":1}").unwrap();
    assert_eq!(f.path, vec!["novels", "abc", "novel.jsr"]);
    assert_eq!(s.novel_json(&f.bytes).unwrap(), b"{\"x\":1}");
    let g = s.settings_file(b"{}").unwrap();
    assert_eq!(g.path, vec!["settings.jsr"]);
    assert_eq!(s.settings_json(&g.bytes).unwrap(), b"{}");
    // a structure file is no settings file
    assert_eq!(s.settings_json(&f.bytes).unwrap_err(), DECRYPT_FAILED);
}

#[test]
fn key_fingerprint_of_store() {
    let s = Store { data_dir: std::path::PathBuf::from("d"), key: [0u8; 32] };
    assert_eq!(s.key_fingerprint(), "66687AADF862");
}

#[test]
fn import_gives_a_fresh_identity() {
    let s = store();
    let mut n = Novel::new("导入", "我", "", "");
    let old_id = n.meta.id.clone();
    let chapters = vec![
        ("c1".to_string(), "一".to_string(), "第一章正文".to_string()),
        ("c2".to_string(), "二".to_string(), "第二章正文".to_string()),
    ];
    let (id, files) = import_to_store(&s, &mut n, &chapters).unwrap();
    assert_eq!(id, n.meta.id);
    assert_ne!(id, old_id);
    assert_eq!(n.meta.title, "导入");
    assert_eq!(files.len(), 2);
    assert_eq!(files[1].path, vec!["novels".to_string(), id.clone(), "chapters".to_string(), "c2.jsr".to_string()]);
    assert_eq!(s.load_chapter("c1", &files[0].bytes).unwrap(), "第一章正文");
    assert_eq!(s.load_chapter("c2", &files[1].bytes).unwrap(), "第二章正文");
}
