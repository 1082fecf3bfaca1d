use jinshu::crypto::decrypt_jsb;
use jinshu::export::{export_jsb, export_md, export_txt, export_work, UNKNOWN_FORMAT};
use jinshu::model::Novel;

#[test]
fn export_export_formats() {
    let mut n = Novel::new("导出测试", "我", "简介", "仙侠");
    n.add_volume("卷一");
    let vid = n.volumes[0].id.clone();
    let cid = n.add_chapter(Some(&vid), "第一章 开始");
    let chapters = vec![(cid.clone(), "第一章 开始".to_string(), "正文内容第一行。".to_string())];
    let md_text = export_md(&n, &chapters);
    assert!(md_text.contains("# 导出测试"));
    assert!(md_text.contains("### 第一章 开始"));
    assert!(md_text.contains("正文内容第一行。"));
    let txt_text = export_txt(&n, &chapters);
    assert!(txt_text.contains("《导出测试》"));
    assert!(txt_text.contains("第一章 开始"));
}

#[test]
fn exported_text_exactly() {
    let mut n = Novel::new("书", "我", "简介", "");
    n.add_volume("正文");
    n.add_volume("卷二");
    let v1 = n.volumes[0].id.clone();
    let v2 = n.volumes[1].id.clone();
    let a = n.add_chapter(Some(&v1), "一");
    let b = n.add_chapter(Some(&v2), "二");
    let chapters = vec![
        (b.clone(), "二".to_string(), "乙\n".to_string()),
        (a.clone(), "一".to_string(), "甲".to_string()),
        ("elsewhere".to_string(), "外".to_string(), "不在任何卷".to_string()),
    ];
    let txt = export_txt(&n, &chapters);
    let rule = "=".repeat(20);
    let dash = "-".repeat(12);
    let expected_txt = format!(
        "《书》\n作者：我\n简介：简介\n\n\n{rule}\n正文\n{rule}\n\n\n一\n{dash}\n\n甲\n\n{rule}\n卷二\n{rule}\n\n\n二\n{dash}\n\n乙\n"
    );
    assert_eq!(txt, expected_txt);
    let md = export_md(&n, &chapters);
    let expected_md = "# 书\n\n> 作者：我\n\n简介\n\n---\n\n### 一\n\n甲\n\n## 卷二\n\n\n### 二\n\n乙\n";
    assert_eq!(md, expected_md);
}

#[test]
fn export_leaves_out_empty_volumes_and_blank_head_fields() {
    let mut n = Novel::new("书", "", "", "");
    n.add_volume("空卷");
    let md = export_md(&n, &[]);
    assert_eq!(md, "# 书\n\n");
    let txt = export_txt(&n, &[]);
    assert_eq!(txt, "《书》\n\n");
}

#[test]
fn export_work_by_format() {
    let n = Novel::new("书", "", "", "");
    assert_eq!(export_work("txt", &n, &[]).unwrap(), "《书》\n\n".as_bytes());
    assert_eq!(export_work("md", &n, &[]).unwrap(), "# 书\n\n".as_bytes());
    assert_eq!(export_work("pdf", &n, &[]).unwrap_err(), UNKNOWN_FORMAT);
    assert_eq!(export_work("jsb", &n, &[]).unwrap_err(), UNKNOWN_FORMAT);
    let blob = export_jsb("密码", b"{\"app\":1}").unwrap();
    assert_eq!(decrypt_jsb("密码", &blob).unwrap(), b"{\"app\":1}");
}
