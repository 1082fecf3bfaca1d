use jinshu::markdown::{layout_markdown, MdStyle};

fn pieces(text: &str) -> Vec<(String, MdStyle)> {
    layout_markdown(text).into_iter().map(|s| (s.text, s.style)).collect()
}

fn p(t: &str, s: MdStyle) -> (String, MdStyle) {
    (t.to_string(), s)
}

fn joined(text: &str) -> String {
    layout_markdown(text).into_iter().map(|s| s.text).collect()
}

#[test]
fn headings_quotes_and_rules() {
    assert!(pieces("## 标题\n正") == vec![
        p("## ", MdStyle::Heading),
        p("标", MdStyle::Plain),
        p("题", MdStyle::Plain),
        p("\n", MdStyle::Plain),
        p("正", MdStyle::Plain),
    ]);
    assert!(pieces("#\ttab")[0] == p("#\t", MdStyle::Heading));
    assert!(pieces("x#y")[1] == p("#", MdStyle::Plain));
    assert!(pieces(">a") == vec![p(">", MdStyle::Quote), p("a", MdStyle::Plain)]);
    assert!(pieces(" --- \nz") == vec![p(" --- ", MdStyle::Quote), p("\n", MdStyle::Plain), p("z", MdStyle::Plain)]);
    assert!(pieces("--")[0] == p("-", MdStyle::Plain));
}

#[test]
fn inline_marks() {
    assert!(pieces("a`code`b") == vec![p("a", MdStyle::Plain), p("`code`", MdStyle::Code), p("b", MdStyle::Plain)]);
    assert!(pieces("[a](b)c") == vec![p("[a](b)", MdStyle::Link), p("c", MdStyle::Plain)]);
    assert!(pieces("**ab**c") == vec![p("**ab**", MdStyle::Strong), p("c", MdStyle::Plain)]);
    assert!(pieces("*a*") == vec![p("*a*", MdStyle::Quote)]);
    assert!(pieces("`open") == vec![
        p("`", MdStyle::Plain),
        p("o", MdStyle::Plain),
        p("p", MdStyle::Plain),
        p("e", MdStyle::Plain),
        p("n", MdStyle::Plain),
    ]);
}

#[test]
fn wide_characters_keep_their_place() {
    assert!(pieces("**粗**体") == vec![p("**粗**", MdStyle::Strong), p("体", MdStyle::Plain)]);
    assert!(pieces("`代码`后文") == vec![
        p("`代码`", MdStyle::Code),
        p("后", MdStyle::Plain),
        p("文", MdStyle::Plain),
    ]);
}

#[test]
fn pieces_rebuild_the_text() {
    for t in ["`代码`后文", "# 标题\n> 引用\n---\n[链接](网址)与*强调*和**加粗**。", "#\t标题", ""] {
        assert_eq!(joined(t), t);
    }
}
