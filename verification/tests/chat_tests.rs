use dnet_tui::chat::{receive_token, start_generation};
use dnet_tui::chat::{
    api_messages, chunk_event, classify_sse_line, cursor_column, handle_chat_input, take_line,
    think_spans, visible_scroll, wrap_spans, wrap_text, ChatMessage, ChatState, SpanKind, SseLine,
};
use dnet_tui::input::{KeyCode, KeyPress};
use dnet_tui::views::chat::{parse_think_tags, StreamChoice, StreamChunk, StreamDelta};
use std::collections::VecDeque;

fn key(code: KeyCode) -> KeyPress {
    KeyPress { code, ctrl: false }
}

fn ctrl(c: char) -> KeyPress {
    KeyPress { code: KeyCode::Char(c), ctrl: true }
}

fn active(input: &str, cursor: usize, generating: bool, response: &str) -> ChatState {
    let mut messages = VecDeque::new();
    messages.push_back(ChatMessage {
        role: "system".to_string(),
        content: "hello".to_string(),
        timestamp: "09:30".to_string(),
    });
    ChatState::Active {
        messages,
        input_buffer: input.to_string(),
        cursor_position: cursor,
        is_generating: generating,
        current_response: response.to_string(),
        scroll_offset: 0,
        max_tokens: 2000,
    }
}

fn fields(s: &ChatState) -> (usize, String, usize, bool, String, usize, u32) {
    match s {
        ChatState::Active {
            messages,
            input_buffer,
            cursor_position,
            is_generating,
            current_response,
            scroll_offset,
            max_tokens,
        } => (
            messages.len(),
            input_buffer.clone(),
            *cursor_position,
            *is_generating,
            current_response.clone(),
            *scroll_offset,
            *max_tokens,
        ),
        ChatState::Error(_) => panic!("not active"),
    }
}

fn is_clock(t: &str) -> bool {
    let b = t.as_bytes();
    b.len() == 5 && b[2] == b':' && b[0].is_ascii_digit() && b[1].is_ascii_digit() && b[3].is_ascii_digit() && b[4].is_ascii_digit()
}

#[test]
fn test_parse_think_tags() {
    let input = "This is a test. <think>Thinking...</think> This is after.";
    let (before, thinking, after) = parse_think_tags(input);
    assert_eq!(before, "This is a test. ");
    assert_eq!(thinking, "Thinking...");
    assert_eq!(after, " This is after.");

    let input_no_think = "This is a test with no think tags.";
    let (before, thinking, after) = parse_think_tags(input_no_think);
    assert_eq!(before, "");
    assert_eq!(thinking, "");
    assert_eq!(after, "This is a test with no think tags.");

    let input_unclosed = "Start <think>Unclosed thinking...";
    let (before, thinking, after) = parse_think_tags(input_unclosed);
    assert_eq!(before, "Start ");
    assert_eq!(thinking, "");
    assert_eq!(after, "Unclosed thinking...");
}

#[test]
fn new_chat_greets_with_a_stamped_system_message() {
    let s = ChatState::new();
    match &s {
        ChatState::Active { messages, max_tokens, .. } => {
            assert_eq!(messages.len(), 1);
            assert_eq!(messages[0].role, "system");
            assert_eq!(messages[0].content, "Welcome to dnet chat! Type your message and press Enter to send.");
            assert!(is_clock(&messages[0].timestamp));
            assert_eq!(*max_tokens, 2000);
        }
        _ => panic!("not active"),
    }
}

#[test]
fn typing_then_backspace_restores_the_input() {
    let (s, _) = handle_chat_input(active("helo", 3, false, ""), key(KeyCode::Char('l')));
    assert_eq!(fields(&s).1, "hello");
    assert_eq!(fields(&s).2, 4);
    let (s, _) = handle_chat_input(s, key(KeyCode::Backspace));
    assert_eq!(fields(&s).1, "helo");
    assert_eq!(fields(&s).2, 3);
}

#[test]
fn cursor_moves_within_the_input() {
    let (s, _) = handle_chat_input(active("héllo", 5, false, ""), key(KeyCode::Right));
    assert_eq!(fields(&s).2, 5);
    let (s, _) = handle_chat_input(s, key(KeyCode::Home));
    assert_eq!(fields(&s).2, 0);
    let (s, _) = handle_chat_input(s, key(KeyCode::Left));
    assert_eq!(fields(&s).2, 0);
    let (s, _) = handle_chat_input(s, key(KeyCode::Delete));
    assert_eq!(fields(&s).1, "éllo");
    let (s, _) = handle_chat_input(s, key(KeyCode::End));
    assert_eq!(fields(&s).2, 4);
}

#[test]
fn token_limit_moves_by_500_within_bounds() {
    let (s, _) = handle_chat_input(active("", 0, false, ""), ctrl('t'));
    assert_eq!(fields(&s).6, 2500);
    let mut s = s;
    for _ in 0..20 {
        s = handle_chat_input(s, ctrl('t')).0;
    }
    assert_eq!(fields(&s).6, 10000);
    for _ in 0..30 {
        s = handle_chat_input(s, ctrl('T')).0;
    }
    assert_eq!(fields(&s).6, 100);
}

#[test]
fn enter_sends_non_blank_input() {
    let (s, e) = handle_chat_input(active("  hi  ", 6, false, ""), key(KeyCode::Enter));
    assert_eq!(e.send.as_deref(), Some("  hi  "));
    let (n, input, cursor, generating, _, scroll, _) = fields(&s);
    assert_eq!((n, input.as_str(), cursor, generating, scroll), (2, "", 0, false, 0));
    match &s {
        ChatState::Active { messages, .. } => {
            assert_eq!(messages[1].role, "user");
            assert_eq!(messages[1].content, "  hi  ");
            assert!(is_clock(&messages[1].timestamp));
        }
        _ => panic!(),
    }
    let (s, e) = handle_chat_input(active("   ", 3, false, ""), key(KeyCode::Enter));
    assert!(e.send.is_none());
    assert_eq!(fields(&s).0, 1);
}

#[test]
fn clearing_keeps_one_note() {
    let (s, _) = handle_chat_input(active("x", 1, false, ""), ctrl('L'));
    match &s {
        ChatState::Active { messages, scroll_offset, .. } => {
            assert_eq!(messages.len(), 1);
            assert_eq!(messages[0].content, "Chat cleared. Start a new conversation!");
            assert_eq!(*scroll_offset, 0);
        }
        _ => panic!(),
    }
}

#[test]
fn generating_ignores_all_but_esc_and_ctrl_c() {
    let (s, e) = handle_chat_input(active("ab", 2, true, "partial"), key(KeyCode::Char('x')));
    assert_eq!(fields(&s).1, "ab");
    assert!(!e.to_menu && !e.stop_stream && e.send.is_none());
    let (s, e) = handle_chat_input(s, ctrl('c'));
    assert!(e.stop_stream && !e.to_menu);
    let (n, _, _, generating, response, _, _) = fields(&s);
    assert_eq!((n, generating, response.as_str()), (2, false, ""));
    let (_, e) = handle_chat_input(active("", 0, true, ""), key(KeyCode::Esc));
    assert!(e.to_menu && e.stop_stream && e.drop_pending);
}

#[test]
fn esc_leaves_the_chat() {
    let (_, e) = handle_chat_input(active("", 0, false, ""), key(KeyCode::Esc));
    assert!(e.to_menu && !e.stop_stream);
    let (_, e) = handle_chat_input(ChatState::Error("x".into()), key(KeyCode::Esc));
    assert!(e.to_menu);
    let (_, e) = handle_chat_input(ChatState::Error("x".into()), key(KeyCode::Enter));
    assert!(!e.to_menu);
}

#[test]
fn wrapping_breaks_between_words() {
    assert_eq!(wrap_text("the quick brown fox", 10), vec!["the quick", "brown fox"]);
    assert_eq!(wrap_text("a verylongword b", 4), vec!["a", "verylongword", "b"]);
    assert_eq!(wrap_text("   ", 10), vec!["   "]);
    assert_eq!(wrap_text("", 10), vec![""]);
    // widths count bytes: "é" is two
    assert_eq!(wrap_text("éé é", 7), vec!["éé é"]);
    assert_eq!(wrap_text("éé é", 6), vec!["éé", "é"]);
}

#[test]
fn conversation_leaves_out_system_messages() {
    let mut ms = VecDeque::new();
    ms.push_back(ChatMessage { role: "system".into(), content: "hi".into(), timestamp: "00:00".into() });
    ms.push_back(ChatMessage::new_user("question"));
    ms.push_back(ChatMessage::new_assistant("answer"));
    let api = api_messages(&ms);
    assert_eq!(api.len(), 2);
    assert_eq!(api[0].role, "user");
    assert_eq!(api[0].content, "question");
    assert_eq!(api[1].role, "assistant");
}

#[test]
fn event_stream_lines() {
    assert!(matches!(classify_sse_line("   "), SseLine::Skip));
    assert!(matches!(classify_sse_line("event: ping"), SseLine::Skip));
    assert!(matches!(classify_sse_line("data: [DONE] "), SseLine::Done));
    match classify_sse_line("data: {\"a\":1}") {
        SseLine::Data(p) => assert_eq!(p, "{\"a\":1}"),
        _ => panic!(),
    }
    let mut buf = "data: x\nrest".to_string();
    assert_eq!(take_line(&mut buf).as_deref(), Some("data: x"));
    assert_eq!(buf, "rest");
    assert_eq!(take_line(&mut buf), None);
    assert_eq!(buf, "rest");
}

#[test]
fn chunk_gives_text_and_end() {
    let chunk = StreamChunk {
        id: "1".into(),
        object: "chunk".into(),
        created: 0,
        model: "m".into(),
        choices: vec![StreamChoice {
            index: 0,
            delta: StreamDelta { role: None, content: Some("tok".into()) },
            finish_reason: Some("stop".into()),
        }],
    };
    assert_eq!(chunk_event(&chunk), (Some("tok".to_string()), true));
    let empty = StreamChunk { id: "2".into(), object: "chunk".into(), created: 0, model: "m".into(), choices: vec![] };
    assert_eq!(chunk_event(&empty), (None, false));
}

#[test]
fn scrolling_and_cursor_columns() {
    assert_eq!(visible_scroll(5, 10, 3), 0);
    assert_eq!(visible_scroll(30, 10, 3), 3);
    assert_eq!(visible_scroll(30, 10, 50), 20);
    assert_eq!(visible_scroll(30, 10, usize::MAX), 20);
    assert_eq!(cursor_column("abc", 2), 2);
    assert_eq!(cursor_column("aéb", 3), 4);
    assert_eq!(cursor_column("ab", 9), 2);
}

#[test]
fn reasoning_is_split_out_of_replies() {
    let spans = think_spans("a<think>b</think>c");
    assert_eq!(
        spans,
        vec![
            ("a".to_string(), SpanKind::Plain),
            ("b".to_string(), SpanKind::Thinking),
            ("\n\n--end thinking--\n\n".to_string(), SpanKind::EndMarker),
            ("c".to_string(), SpanKind::Plain),
        ]
    );
    assert_eq!(think_spans(""), vec![("".to_string(), SpanKind::Plain)]);
    assert_eq!(think_spans("<think>x"), vec![("x".to_string(), SpanKind::Thinking)]);
    assert_eq!(think_spans("<think></think>"), vec![("\n\n--end thinking--\n\n".to_string(), SpanKind::EndMarker)]);
}

#[test]
fn styled_pieces_wrap_by_words() {
    let lines = wrap_spans(&think_spans("a<think>b</think>c"), 10);
    assert_eq!(
        lines,
        vec![
            vec![("a".to_string(), SpanKind::Plain), (" b".to_string(), SpanKind::Thinking)],
            vec![("--end".to_string(), SpanKind::EndMarker)],
            vec![("thinking--".to_string(), SpanKind::EndMarker)],
            vec![("c".to_string(), SpanKind::Plain)],
        ]
    );
    let lines = wrap_spans(&vec![("one two three".to_string(), SpanKind::Plain)], 7);
    assert_eq!(
        lines,
        vec![
            vec![("one".to_string(), SpanKind::Plain), (" two".to_string(), SpanKind::Plain)],
            vec![("three".to_string(), SpanKind::Plain)],
        ]
    );
    assert!(wrap_spans(&vec![("\n\n".to_string(), SpanKind::Plain)], 5).is_empty());
}

#[test]
fn streamed_tokens_build_the_reply() {
    let s = start_generation(active("", 0, false, "old"));
    assert_eq!(fields(&s).3, true);
    assert_eq!(fields(&s).4, "");
    let (s, done) = receive_token(s, "Hel");
    assert!(!done);
    let (s, _) = receive_token(s, "lo");
    assert_eq!(fields(&s).4, "Hello");
    let (s, done) = receive_token(s, "DONE");
    assert!(done);
    let (n, _, _, generating, response, _, _) = fields(&s);
    assert_eq!((n, generating, response.as_str()), (2, false, ""));
    match &s {
        ChatState::Active { messages, .. } => {
            assert_eq!(messages[1].role, "assistant");
            assert_eq!(messages[1].content, "Hello");
        }
        _ => panic!(),
    }
}
