use jinshu::outline::{delete_outline_node, find_outline, move_outline, parse_outline};

#[test]
fn outline_parse() {
    let text = "【卷一：风起】
- 第1章 少年出山：主角下山，遭遇袭击
- 第2章 初露锋芒：……
【卷二：云涌】
- 第1章 宗门大比：……";
    let nodes = parse_outline(text);
    assert_eq!(nodes.len(), 2);
    assert_eq!(nodes[0].kind, "卷");
    assert_eq!(nodes[0].title, "卷一：风起");
    assert_eq!(nodes[0].children.len(), 2);
    assert_eq!(nodes[0].children[0].title, "第1章 少年出山");
    assert!(nodes[0].children[0].content.contains("主角下山"));
}

#[test]
fn outline_edits() {
    let mut nodes = parse_outline("【卷一】\n- 甲：一\n- 乙：二\n【卷二】\n- 丙：三");
    let id_b = nodes[0].children[1].id.clone();
    assert_eq!(find_outline(&nodes, &id_b).unwrap().title, "乙");
    assert!(move_outline(&mut nodes, &id_b, -1));
    assert_eq!(nodes[0].children[0].title, "乙");
    assert!(!move_outline(&mut nodes, &id_b, -1));
    assert!(delete_outline_node(&mut nodes, &id_b));
    assert!(find_outline(&nodes, &id_b).is_none());
    assert_eq!(nodes[0].children.len(), 1);
    assert!(!delete_outline_node(&mut nodes, "missing"));
}
