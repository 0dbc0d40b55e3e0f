use dnet_tui::chat::{think_spans, wrap_spans, SpanKind};
use dnet_tui::transcript::{conversation_lines, ConversationLine};
use dnet_tui::views::chat::ChatMessage;
use std::collections::VecDeque;

fn msg(role: &str, content: &str, ts: &str) -> ChatMessage {
    ChatMessage { role: role.to_string(), content: content.to_string(), timestamp: ts.to_string() }
}

fn header(ts: &str, role: &str) -> ConversationLine {
    ConversationLine::Header { timestamp: ts.to_string(), role: role.to_string() }
}

fn text(t: &str) -> ConversationLine {
    ConversationLine::Text(t.to_string())
}

#[test]
fn user_lines_follow_str_lines() {
    let mut ms = VecDeque::new();
    ms.push_back(msg("user", "hi\r\n\nthere\n", "10:00"));
    let lines = conversation_lines(&ms, false, "", 80);
    assert_eq!(lines, vec![header("10:00", "user"), text("hi"), text(""), text("there"), ConversationLine::Blank]);
}

#[test]
fn long_user_lines_are_wrapped() {
    let mut ms = VecDeque::new();
    ms.push_back(msg("system", "aaa bbb ccc", "09:59"));
    let lines = conversation_lines(&ms, false, "", 7);
    assert_eq!(lines, vec![header("09:59", "system"), text("aaa bbb"), text("ccc"), ConversationLine::Blank]);
}

#[test]
fn assistant_replies_are_drawn_as_pieces() {
    let mut ms = VecDeque::new();
    ms.push_back(msg("assistant", "<think>hmm</think>ok", "10:01"));
    let lines = conversation_lines(&ms, false, "", 40);
    let mut expected = vec![header("10:01", "assistant")];
    for l in wrap_spans(&think_spans("<think>hmm</think>ok"), 40) {
        expected.push(ConversationLine::Pieces(l));
    }
    expected.push(ConversationLine::Blank);
    assert_eq!(lines, expected);
    assert!(matches!(&lines[1], ConversationLine::Pieces(p) if p[0] == ("hmm".to_string(), SpanKind::Thinking)));
}

#[test]
fn the_reply_being_generated_comes_last() {
    let ms = VecDeque::new();
    let lines = conversation_lines(&ms, true, "par", 40);
    assert_eq!(
        lines,
        vec![
            ConversationLine::ReplyHeader,
            ConversationLine::Pieces(vec![("par".to_string(), SpanKind::Plain)]),
            ConversationLine::Cursor
        ]
    );
    let lines = conversation_lines(&ms, false, "done", 40);
    assert_eq!(lines, vec![ConversationLine::ReplyHeader, ConversationLine::Pieces(vec![("done".to_string(), SpanKind::Plain)])]);
    assert!(conversation_lines(&ms, false, "", 40).is_empty());
}
