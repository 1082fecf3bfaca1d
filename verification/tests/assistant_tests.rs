use jinshu::ai::{chat_url, connection_reply, connection_result, stream_outcome, stream_step, StreamStep, CANCELLED, UNKNOWN_ERROR};
use jinshu::app::{AiEvent, AiSession, AI_BUSY, AI_NO_KEY};
use jinshu::assistant::{
    action_label, build_action_msgs, build_character_msgs, build_continue_msgs, build_outline_msgs, build_world_msgs,
    chapter_summaries, POLISH_NEEDS_SELECTION,
};
use jinshu::dialogs::safe_name;
use jinshu::model::Novel;
use jinshu::prompts::build_polish;
use jinshu::shell::Command;
use jinshu::views::{calc_streak, loc_kind_icon};

#[test]
fn action_labels() {
    assert_eq!(action_label(&Command::AiContinue), "续写");
    assert_eq!(action_label(&Command::AiConsistency), "一致性检查");
    assert_eq!(action_label(&Command::Save), "对话");
}

#[test]
fn summaries_fall_back_to_the_beginning_of_the_text() {
    let mut n = Novel::new("书", "", "", "");
    let a = n.add_chapter(None, "一");
    let b = n.add_chapter(None, "二");
    let _c = n.add_chapter(None, "三");
    let sums = vec![(a.clone(), "主角出山".to_string())];
    let long: String = "字".repeat(130);
    let texts = vec![(b.clone(), long)];
    let r = chapter_summaries(&n, &sums, &texts);
    assert_eq!(r.len(), 2);
    assert_eq!(r[0], ("一".to_string(), "主角出山".to_string()));
    assert_eq!(r[1].0, "二");
    assert_eq!(r[1].1, format!("（无摘要，开头：{}…）", "字".repeat(120)));
}

#[test]
fn palette_requests() {
    let n = Novel::new("书", "", "简介", "仙侠");
    let none = build_action_msgs(&n, &Command::Save, "", "", "", "", false, &[]).unwrap();
    assert!(none.is_none());
    let e = build_action_msgs(&n, &Command::AiPolish, "", "", "  ", "", false, &[]).unwrap_err();
    assert_eq!(e, POLISH_NEEDS_SELECTION);
    let (msgs, start) = build_action_msgs(&n, &Command::AiPolish, "", "", "他走了", "", false, &[]).unwrap().unwrap();
    assert!(start);
    assert_eq!(msgs, build_polish("他走了", ""));
    assert_eq!(msgs[0].0, "user");
    let (msgs, _) = build_action_msgs(&n, &Command::AiCharacterCard, "", "", "", "  ", false, &[]).unwrap().unwrap();
    assert!(msgs[0].1.contains("主角"));
}

#[test]
fn endpoints() {
    assert_eq!(chat_url("openai", "https://api.openai.com/v1/"), "https://api.openai.com/v1/chat/completions");
    assert_eq!(chat_url("anthropic", "https://api.anthropic.com/v1//"), "https://api.anthropic.com/v1/messages");
    assert_eq!(chat_url("anthropic", "https://proxy.example"), "https://proxy.example/v1/messages");
}

#[test]
fn openai_stream_lines() {
    let step = stream_step(false, "data: {\"choices\":[{\"delta\":{\"content\":\"你好\"}}]}\n");
    assert!(matches!(step, StreamStep::Emit(ref t) if t == "你好"));
    assert!(matches!(stream_step(false, "data: [DONE]"), StreamStep::Finish));
    assert!(matches!(stream_step(false, ": keep-alive"), StreamStep::Skip));
    assert!(matches!(stream_step(false, "data: {\"choices\":[{\"delta\":{\"content\":\"\"}}]}"), StreamStep::Skip));
    assert!(matches!(stream_step(false, "data: not json"), StreamStep::Skip));
}

#[test]
fn anthropic_stream_lines() {
    let step = stream_step(true, "data: {\"type\":\"content_block_delta\",\"delta\":{\"text\":\"剑\"}}");
    assert!(matches!(step, StreamStep::Emit(ref t) if t == "剑"));
    let step = stream_step(true, "data: {\"type\":\"error\",\"error\":{\"message\":\"overloaded\"}}");
    assert!(matches!(step, StreamStep::Fail(ref m) if m == "overloaded"));
    let step = stream_step(true, "data: {\"type\":\"error\"}");
    assert!(matches!(step, StreamStep::Fail(ref m) if m == UNKNOWN_ERROR));
    assert!(matches!(stream_step(true, "event: ping"), StreamStep::Skip));
    assert!(matches!(stream_step(true, "data: [DONE]"), StreamStep::Skip));
}

#[test]
fn finished_streams_and_connection_tests() {
    assert!(matches!(stream_outcome(Ok(()), true), AiEvent::Done));
    assert!(matches!(stream_outcome(Err("boom".into()), true), AiEvent::Error(ref m) if m == CANCELLED));
    assert!(matches!(stream_outcome(Err("boom".into()), false), AiEvent::Error(ref m) if m == "boom"));
    let long = "好".repeat(60);
    assert_eq!(connection_result(Some(&long), "").unwrap(), "好".repeat(50));
    assert_eq!(connection_result(None, "{\"error\":1}").unwrap_err(), "{\"error\":1}");
}

#[test]
fn conversation_state() {
    let mut s = AiSession::new();
    assert_eq!(s.start("续写", &[], " ").unwrap_err(), AI_NO_KEY);
    let msgs = vec![("user".to_string(), " 请续写 ".to_string())];
    assert!(s.start("续写", &msgs, "key").is_ok());
    assert_eq!(s.start("续写", &msgs, "key").unwrap_err(), AI_BUSY);
    assert_eq!(s.msgs.len(), 1);
    assert_eq!(s.msgs[0].content, "请续写");
    s.receive(&[AiEvent::Chunk("他".into()), AiEvent::Chunk("笑了".into())]);
    assert!(s.streaming);
    assert_eq!(s.stream_text, "他笑了");
    s.receive(&[AiEvent::Done]);
    assert!(!s.streaming);
    assert_eq!(s.msgs.len(), 2);
    assert_eq!(s.msgs[1].role, "assistant");
    assert_eq!(s.msgs[1].content, "他笑了");
    assert_eq!(s.msgs[1].action, "续写");
    assert!(s.start("润色", &msgs, "key").is_ok());
    s.receive(&[AiEvent::Error("已取消".into())]);
    assert_eq!(s.msgs[3].role, "error");
    assert_eq!(s.msgs[3].content, "已取消");
}

#[test]
fn file_names_from_titles() {
    assert_eq!(safe_name(" 剑出昆仑/第一部 "), "剑出昆仑_第一部");
    assert_eq!(safe_name("a:b*c"), "a_b_c");
    assert_eq!(safe_name("   "), "未命名");
    assert_eq!(safe_name("（上）v1.2"), "（上）v1.2");
}

#[test]
fn location_icons() {
    assert_eq!(loc_kind_icon("城市"), "🏙️");
    assert_eq!(loc_kind_icon("异界"), "🌌");
    assert_eq!(loc_kind_icon("山脉"), "📍");
}

#[test]
fn writing_streak() {
    let mut n = Novel::new("书", "", "", "");
    let days: Vec<String> = (0..2100).map(|k| format!("d{}", k)).collect();
    assert_eq!(calc_streak(&n, &days), 0);
    n.add_day_words("d1", 10);
    n.add_day_words("d2", 5);
    n.add_day_words("d4", 5);
    // no entry today: counting starts yesterday
    assert_eq!(calc_streak(&n, &days), 2);
    n.add_day_words("d0", 0);
    // an entry today without words: counting still starts yesterday
    assert_eq!(calc_streak(&n, &days), 2);
    n.add_day_words("d0", 3);
    assert_eq!(calc_streak(&n, &days), 3);
}

#[test]
fn panel_requests() {
    assert!(build_continue_msgs(None, Some("c"), "正文", "", false).is_empty());
    assert!(build_outline_msgs(None).is_empty());
    assert!(build_character_msgs(None, "林舟", "主角").is_empty());
    assert!(build_world_msgs(None, "", "").is_empty());
    let mut n = Novel::new("仙途", "某人", "少年修仙", "玄幻");
    let cid = n.add_chapter(None, "初入山门");
    assert!(build_continue_msgs(Some(&n), None, "正文", "", false).is_empty());
    let m = build_continue_msgs(Some(&n), Some(cid.as_str()), "林舟上山。", "写打斗", false);
    assert_eq!(m.len(), 1);
    assert_eq!(m[0].0, "user");
    assert!(m[0].1.contains("初入山门"));
    assert!(m[0].1.contains("林舟上山。"));
    assert!(m[0].1.contains("写打斗"));
    let o = build_outline_msgs(Some(&n));
    assert!(o[0].1.contains("长篇（约 100 万字，100 卷规模）"));
    assert!(o[0].1.contains("仙途"));
    let c = build_character_msgs(Some(&n), "林舟", "主角");
    assert!(c[0].1.contains("林舟"));
    let w = build_world_msgs(Some(&n), "", "");
    assert!(w[0].1.contains("主世界"));
    assert!(w[0].1.contains("世界观"));
    let w2 = build_world_msgs(Some(&n), "青城", "城市");
    assert!(w2[0].1.contains("青城"));
    assert!(!w2[0].1.contains("主世界"));
}

#[test]
fn connection_test_replies() {
    assert_eq!(
        connection_reply(false, r#"{"choices":[{"message":{"content":"你好！"}}]}"#).unwrap(),
        "你好！"
    );
    assert_eq!(connection_reply(true, r#"{"content":[{"text":"hi"}]}"#).unwrap(), "hi");
    assert_eq!(
        connection_reply(false, r#"{"error": {"message": "bad key"}}"#).unwrap_err(),
        r#"{"error":{"message":"bad key"}}"#
    );
    let long: String = "字".repeat(80);
    let body = format!(r#"{{"content":[{{"text":"{}"}}]}}"#, long);
    assert_eq!(connection_reply(true, &body).unwrap().chars().count(), 50);
    assert!(connection_reply(true, "not json").is_err());
}
