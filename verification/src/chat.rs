use vstd::prelude::*;

use std::collections::VecDeque;

use crate::clock::{is_clock_text, local_time_hhmm};
use crate::input::{KeyCode, KeyPress};
use crate::text::{
    chars_of, find_chars, find_seq, first_occurrence, is_whitespace, is_ws, occurs_at, same_chars, split_chars, split_on, string_of, sub_chars, trim,
    trim_chars,
};
pub use crate::views::chat::{
    role_assistant, role_system, role_user, think_close, think_open, ApiMessage, ChatMessage,
    StreamChunk,
};

verus! {

broadcast use vstd::string::group_string_axioms;

/// The chat screen: a conversation being typed into, or an error.
#[derive(Debug)]
pub enum ChatState {
    Active {
        messages: VecDeque<ChatMessage>,
        input_buffer: String,
        cursor_position: usize,
        is_generating: bool,
        current_response: String,
        scroll_offset: usize,
        max_tokens: u32,
    },
    Error(String),
}

/// A message as the contracts see it: role, content, timestamp.
pub open spec fn message_view(m: ChatMessage) -> (Seq<char>, Seq<char>, Seq<char>) {
    (m.role@, m.content@, m.timestamp@)
}

/// The messages of a conversation as the contracts see them.
pub open spec fn messages_view(ms: Seq<ChatMessage>) -> Seq<(Seq<char>, Seq<char>, Seq<char>)> {
    ms.map_values(|m: ChatMessage| message_view(m))
}

/// An active conversation as the contracts see it.
pub struct ChatModel {
    pub messages: Seq<(Seq<char>, Seq<char>, Seq<char>)>,
    pub input: Seq<char>,
    pub cursor: nat,
    pub generating: bool,
    pub response: Seq<char>,
    pub scroll: nat,
    pub max_tokens: nat,
}

/// The chat screen as the contracts see it.
pub enum ChatStateView {
    Active(ChatModel),
    Error(Seq<char>),
}

impl View for ChatState {
    type V = ChatStateView;

    open spec fn view(&self) -> ChatStateView {
        match self {
            ChatState::Active {
                messages,
                input_buffer,
                cursor_position,
                is_generating,
                current_response,
                scroll_offset,
                max_tokens,
            } => ChatStateView::Active(
                ChatModel {
                    messages: messages_view(messages@),
                    input: input_buffer@,
                    cursor: *cursor_position as nat,
                    generating: *is_generating,
                    response: current_response@,
                    scroll: *scroll_offset as nat,
                    max_tokens: *max_tokens as nat,
                },
            ),
            ChatState::Error(e) => ChatStateView::Error(e@),
        }
    }
}

/// What a key press asks of the rest of the application besides the new state.
#[derive(Debug)]
pub struct ChatEffects {
    /// Leave the chat for the main menu.
    pub to_menu: bool,
    /// Drop the stream of the reply being generated.
    pub stop_stream: bool,
    /// Forget the message waiting to be sent.
    pub drop_pending: bool,
    /// A message to send to the model.
    pub send: Option<String>,
}

/// The effects of a key press as the contracts see them.
pub struct EffectsView {
    pub to_menu: bool,
    pub stop_stream: bool,
    pub drop_pending: bool,
    pub send: Option<Seq<char>>,
}

impl View for ChatEffects {
    type V = EffectsView;

    open spec fn view(&self) -> EffectsView {
        EffectsView {
            to_menu: self.to_menu,
            stop_stream: self.stop_stream,
            drop_pending: self.drop_pending,
            send: match self.send {
                Some(s) => Some(s@),
                None => None,
            },
        }
    }
}

/// No effect at all.
pub open spec fn no_effects() -> EffectsView {
    EffectsView { to_menu: false, stop_stream: false, drop_pending: false, send: None }
}

/// The greeting a new conversation starts with.
pub open spec fn welcome_text() -> Seq<char> {
    "Welcome to dnet chat! Type your message and press Enter to send."@
}

/// The note a cleared conversation starts with.
pub open spec fn cleared_text() -> Seq<char> {
    "Chat cleared. Start a new conversation!"@
}

/// The token limit a new conversation starts with.
pub const DEFAULT_CHAT_MAX_TOKENS: u32 = 2000;

/// Whether the key is Control with one of two letters.
pub open spec fn ctrl_letter(key: KeyPress, a: char, b: char) -> bool {
    key.ctrl && (key.code == KeyCode::Char(a) || key.code == KeyCode::Char(b))
}

/// `n - k`, or 0 below that.
pub open spec fn sat_sub(n: nat, k: nat) -> nat {
    if n >= k {
        (n - k) as nat
    } else {
        0
    }
}

/// What a key does to a conversation that is not generating (Esc aside), with `ts` the
/// time at which a new message would be stamped; and the text to send, if any.
pub open spec fn edit_step(m: ChatModel, key: KeyPress, ts: Seq<char>) -> (ChatModel, Option<Seq<char>>) {
    if ctrl_letter(key, 'l', 'L') {
        (ChatModel { messages: seq![(role_system(), cleared_text(), ts)], scroll: 0, ..m }, None)
    } else if ctrl_letter(key, 't', 't') {
        (ChatModel { max_tokens: if m.max_tokens + 500 <= 10000 { (m.max_tokens + 500) as nat } else { 10000 }, ..m }, None)
    } else if ctrl_letter(key, 'T', 'T') {
        (ChatModel { max_tokens: if sat_sub(m.max_tokens, 500) >= 100 { sat_sub(m.max_tokens, 500) } else { 100 }, ..m }, None)
    } else {
        match key.code {
            KeyCode::Enter => if trim(m.input).len() > 0 {
                let msgs = m.messages.push((role_user(), m.input, ts));
                (ChatModel { messages: msgs, input: Seq::empty(), cursor: 0, scroll: sat_sub(msgs.len(), 10), ..m }, Some(m.input))
            } else {
                (m, None)
            },
            KeyCode::Backspace => if 0 < m.cursor && m.cursor <= m.input.len() {
                (ChatModel { input: m.input.remove(m.cursor - 1), cursor: (m.cursor - 1) as nat, ..m }, None)
            } else {
                (m, None)
            },
            KeyCode::Delete => if m.cursor < m.input.len() {
                (ChatModel { input: m.input.remove(m.cursor as int), ..m }, None)
            } else {
                (m, None)
            },
            KeyCode::Left => (ChatModel { cursor: sat_sub(m.cursor, 1), ..m }, None),
            KeyCode::Right => if m.cursor < m.input.len() {
                (ChatModel { cursor: m.cursor + 1, ..m }, None)
            } else {
                (m, None)
            },
            KeyCode::Home => (ChatModel { cursor: 0, ..m }, None),
            KeyCode::End => (ChatModel { cursor: m.input.len(), ..m }, None),
            KeyCode::Up => (ChatModel { scroll: sat_sub(m.scroll, 1), ..m }, None),
            KeyCode::Down => (ChatModel { scroll: m.scroll + 1, ..m }, None),
            KeyCode::Char(c) => if m.cursor <= m.input.len() {
                (ChatModel { input: m.input.insert(m.cursor as int, c), cursor: m.cursor + 1, ..m }, None)
            } else {
                (m, None)
            },
            _ => (m, None),
        }
    }
}

/// Stopping a generation: the reply so far, if any, becomes an assistant message stamped `ts`.
pub open spec fn stop_generation(m: ChatModel, ts: Seq<char>) -> ChatModel {
    ChatModel {
        messages: if m.response.len() > 0 {
            m.messages.push((role_assistant(), m.response, ts))
        } else {
            m.messages
        },
        response: Seq::empty(),
        generating: false,
        ..m
    }
}

/// What a key press does on the chat screen, with `ts` the time a new message is stamped with.
pub open spec fn chat_step(v: ChatStateView, key: KeyPress, ts: Seq<char>) -> (ChatStateView, EffectsView) {
    match v {
        ChatStateView::Error(_) => (v, EffectsView { to_menu: key.code is Esc, ..no_effects() }),
        ChatStateView::Active(m) => if m.generating {
            if key.code is Esc {
                (v, EffectsView { to_menu: true, stop_stream: true, drop_pending: true, send: None })
            } else if ctrl_letter(key, 'c', 'C') {
                (ChatStateView::Active(stop_generation(m, ts)), EffectsView { stop_stream: true, ..no_effects() })
            } else {
                (v, no_effects())
            }
        } else if key.code is Esc {
            (v, EffectsView { to_menu: true, ..no_effects() })
        } else {
            let (m2, send) = edit_step(m, key, ts);
            (ChatStateView::Active(m2), EffectsView { send, ..no_effects() })
        },
    }
}

/// The cursor of an active conversation stands within its input.
pub open spec fn cursor_ok(v: ChatStateView) -> bool {
    match v {
        ChatStateView::Active(m) => m.cursor <= m.input.len(),
        ChatStateView::Error(_) => true,
    }
}

/// Whether a key press could scroll past the largest offset.
pub open spec fn scroll_overflows(v: ChatStateView, key: KeyPress) -> bool {
    match v {
        ChatStateView::Active(m) => !m.generating && key.code is Down && m.scroll
            >= usize::MAX,
        ChatStateView::Error(_) => false,
    }
}

/// A clock reading that stands for "no message was stamped".
pub open spec fn midnight() -> Seq<char> {
    seq!['0', '0', ':', '0', '0']
}

proof fn lemma_midnight()
    ensures
        is_clock_text(midnight()),
{
    assert(midnight()[0] == '0');
}

impl ChatState {
    /// A fresh conversation: one greeting from the system, stamped now, and nothing typed.
    pub fn new() -> (s: ChatState)
        ensures
            s@ matches ChatStateView::Active(m) && {
                &&& m.messages.len() == 1
                &&& m.messages[0].0 == role_system()
                &&& m.messages[0].1 == welcome_text()
                &&& is_clock_text(m.messages[0].2)
                &&& m.input.len() == 0 && m.cursor == 0 && !m.generating
                &&& m.response.len() == 0 && m.scroll == 0
                &&& m.max_tokens == DEFAULT_CHAT_MAX_TOKENS
            },
    {
        let mut messages: VecDeque<ChatMessage> = VecDeque::new();
        let role = "system".to_string();
        let content = "Welcome to dnet chat! Type your message and press Enter to send.".to_string();
        proof {
            reveal_strlit("system");
        }
        messages.push_back(ChatMessage { role, content, timestamp: local_time_hhmm() });
        ChatState::Active {
            messages,
            input_buffer: String::new(),
            cursor_position: 0,
            is_generating: false,
            current_response: String::new(),
            scroll_offset: 0,
            max_tokens: DEFAULT_CHAT_MAX_TOKENS,
        }
    }
}

proof fn lemma_push_view(ms: Seq<ChatMessage>, m: ChatMessage)
    ensures
        messages_view(ms.push(m)) == messages_view(ms).push(message_view(m)),
{
    assert(messages_view(ms.push(m)) =~= messages_view(ms).push(message_view(m)));
}

fn nothing() -> (e: ChatEffects)
    ensures
        e@ == no_effects(),
{
    ChatEffects { to_menu: false, stop_stream: false, drop_pending: false, send: None }
}

/// Handles a key press on the chat screen: returns the new state and what the rest of the
/// application is to do (leave for the menu, drop the reply stream, send a message).
///
/// While a reply is being generated only Esc (leave) and Control-C (stop, keeping the
/// partial reply as a message) do anything. Otherwise the keys edit the input line
/// (cursor counted in characters), scroll, change the token limit (Control-t raises it
/// by 500 up to 10000, Control-T lowers it by 500 down to 100), clear the conversation
/// (Control-L), or send the input with Enter when it is not blank.
pub fn handle_chat_input(state: ChatState, key: KeyPress) -> (r: (ChatState, ChatEffects))
    requires
        !scroll_overflows(state@, key),
    ensures
        exists|ts: Seq<char>| #[trigger] is_clock_text(ts) && chat_step(state@, key, ts) == (r.0@, r.1@),
        cursor_ok(state@) ==> cursor_ok(r.0@),
{
    let ghost v = state@;
    let ghost mut ts = midnight();
    proof {
        lemma_midnight();
    }
    match state {
        ChatState::Error(e) => {
            let to_menu = match key.code {
                KeyCode::Esc => true,
                _ => false,
            };
            let r = (ChatState::Error(e), ChatEffects { to_menu, ..nothing() });
            assert(is_clock_text(ts) && chat_step(v, key, ts) == (r.0@, r.1@));
            r
        },
        ChatState::Active {
            mut messages,
            input_buffer,
            mut cursor_position,
            is_generating,
            current_response,
            mut scroll_offset,
            mut max_tokens,
        } => {
            let is_esc = match key.code {
                KeyCode::Esc => true,
                _ => false,
            };
            if is_generating {
                let is_stop = key.ctrl && match key.code {
                    KeyCode::Char(c) => c == 'c' || c == 'C',
                    _ => false,
                };
                if is_esc {
                    let st = ChatState::Active {
                        messages,
                        input_buffer,
                        cursor_position,
                        is_generating,
                        current_response,
                        scroll_offset,
                        max_tokens,
                    };
                    let r = (st, ChatEffects { to_menu: true, stop_stream: true, drop_pending: true, send: None });
                    assert(is_clock_text(ts) && chat_step(v, key, ts) == (r.0@, r.1@));
                    return r;
                } else if is_stop {
                    if current_response.as_str().is_empty() == false {
                        let role = "assistant".to_string();
                        proof {
                            reveal_strlit("assistant");
                        }
                        let msg = ChatMessage {
                            role,
                            content: current_response.clone(),
                            timestamp: local_time_hhmm(),
                        };
                        proof {
                            ts = msg.timestamp@;
                            lemma_push_view(messages@, msg);
                            assert(msg.role@ =~= role_assistant());
                        }
                        messages.push_back(msg);
                    }
                    let st = ChatState::Active {
                        messages,
                        input_buffer,
                        cursor_position,
                        is_generating: false,
                        current_response: String::new(),
                        scroll_offset,
                        max_tokens,
                    };
                    let r = (st, ChatEffects { stop_stream: true, ..nothing() });
                    assert(is_clock_text(ts) && chat_step(v, key, ts) == (r.0@, r.1@));
                    return r;
                } else {
                    let st = ChatState::Active {
                        messages,
                        input_buffer,
                        cursor_position,
                        is_generating,
                        current_response,
                        scroll_offset,
                        max_tokens,
                    };
                    let r = (st, nothing());
                    assert(is_clock_text(ts) && chat_step(v, key, ts) == (r.0@, r.1@));
                    return r;
                }
            }
            if is_esc {
                let st = ChatState::Active {
                    messages,
                    input_buffer,
                    cursor_position,
                    is_generating,
                    current_response,
                    scroll_offset,
                    max_tokens,
                };
                let r = (st, ChatEffects { to_menu: true, ..nothing() });
                assert(is_clock_text(ts) && chat_step(v, key, ts) == (r.0@, r.1@));
                return r;
            }
            let ctrl_char: Option<char> = if key.ctrl {
                match key.code {
                    KeyCode::Char(c) => if c == 'l' || c == 'L' || c == 't' || c == 'T' {
                        Some(c)
                    } else {
                        None
                    },
                    _ => None,
                }
            } else {
                None
            };
            let mut input_buffer = input_buffer;
            let mut send: Option<String> = None;
            match ctrl_char {
                Some(c) => {
                    if c == 'l' || c == 'L' {
                        let role = "system".to_string();
                        let content = "Chat cleared. Start a new conversation!".to_string();
                        proof {
                            reveal_strlit("system");
                        }
                        let msg = ChatMessage { role, content, timestamp: local_time_hhmm() };
                        proof {
                            ts = msg.timestamp@;
                            assert(msg.role@ =~= role_system());
                        }
                        let mut fresh: VecDeque<ChatMessage> = VecDeque::new();
                        fresh.push_back(msg);
                        assert(messages_view(fresh@) =~= seq![message_view(msg)]);
                        messages = fresh;
                        scroll_offset = 0;
                    } else if c == 't' {
                        max_tokens = if max_tokens >= 9500 {
                            10000
                        } else {
                            max_tokens + 500
                        };
                    } else {
                        let lowered: u32 = if max_tokens >= 500 {
                            max_tokens - 500
                        } else {
                            0
                        };
                        max_tokens = if lowered >= 100 {
                            lowered
                        } else {
                            100
                        };
                    }
                },
                None => {
                    match key.code {
                        KeyCode::Enter => {
                            let cs = chars_of(input_buffer.as_str());
                            let trimmed = trim_chars(&cs);
                            if trimmed.len() > 0 {
                                let role = "user".to_string();
                                proof {
                                    reveal_strlit("user");
                                }
                                let msg = ChatMessage {
                                    role,
                                    content: input_buffer.clone(),
                                    timestamp: local_time_hhmm(),
                                };
                                proof {
                                    ts = msg.timestamp@;
                                    lemma_push_view(messages@, msg);
                                    assert(msg.role@ =~= role_user());
                                }
                                messages.push_back(msg);
                                send = Some(input_buffer);
                                input_buffer = String::new();
                                cursor_position = 0;
                                let n = messages.len();
                                scroll_offset = if n >= 10 {
                                    n - 10
                                } else {
                                    0
                                };
                            }
                        },
                        KeyCode::Backspace => {
                            let mut cs = chars_of(input_buffer.as_str());
                            if cursor_position > 0 && cursor_position <= cs.len() {
                                cs.remove(cursor_position - 1);
                                input_buffer = string_of(&cs);
                                cursor_position = cursor_position - 1;
                            }
                        },
                        KeyCode::Delete => {
                            let mut cs = chars_of(input_buffer.as_str());
                            if cursor_position < cs.len() {
                                cs.remove(cursor_position);
                                input_buffer = string_of(&cs);
                            }
                        },
                        KeyCode::Left => {
                            if cursor_position > 0 {
                                cursor_position = cursor_position - 1;
                            }
                        },
                        KeyCode::Right => {
                            let cs = chars_of(input_buffer.as_str());
                            if cursor_position < cs.len() {
                                cursor_position = cursor_position + 1;
                            }
                        },
                        KeyCode::Home => {
                            cursor_position = 0;
                        },
                        KeyCode::End => {
                            let cs = chars_of(input_buffer.as_str());
                            cursor_position = cs.len();
                        },
                        KeyCode::Up => {
                            if scroll_offset > 0 {
                                scroll_offset = scroll_offset - 1;
                            }
                        },
                        KeyCode::Down => {
                            scroll_offset = scroll_offset + 1;
                        },
                        KeyCode::Char(c) => {
                            let mut cs = chars_of(input_buffer.as_str());
                            if cursor_position <= cs.len() {
                                cs.insert(cursor_position, c);
                                assert(cursor_position < cs.len());
                                input_buffer = string_of(&cs);
                                cursor_position = cursor_position + 1;
                            }
                        },
                        _ => {},
                    }
                },
            }
            let st = ChatState::Active {
                messages,
                input_buffer,
                cursor_position,
                is_generating,
                current_response,
                scroll_offset,
                max_tokens,
            };
            let r = (st, ChatEffects { send, ..nothing() });
            assert(is_clock_text(ts) && chat_step(v, key, ts) == (r.0@, r.1@));
            r
        },
    }
}

/// A key press that is a plain (non-Control) key.
pub open spec fn plain(code: KeyCode) -> KeyPress {
    KeyPress { code, ctrl: false }
}

/// With the cursor inside the input of a conversation that is not generating, Left moves
/// it one character back and Right (short of the end) one character on; nothing else
/// changes and nothing is sent.
pub proof fn lemma_arrows_move_one(m: ChatModel, ts: Seq<char>)
    requires
        !m.generating,
        m.cursor <= m.input.len(),
    ensures
        m.cursor > 0 ==> chat_step(ChatStateView::Active(m), plain(KeyCode::Left), ts)
            == (ChatStateView::Active(ChatModel { cursor: (m.cursor - 1) as nat, ..m }), no_effects()),
        m.cursor < m.input.len() ==> chat_step(ChatStateView::Active(m), plain(KeyCode::Right), ts)
            == (ChatStateView::Active(ChatModel { cursor: m.cursor + 1, ..m }), no_effects()),
{
}

/// The messages sent with a request are all the conversation's messages not written by the
/// system, in order, each with its role and content.
pub proof fn lemma_conversation_is_non_system(ms: Seq<(Seq<char>, Seq<char>, Seq<char>)>)
    ensures
        conversation(ms) == ms.filter(|m: (Seq<char>, Seq<char>, Seq<char>)| m.0 != role_system()).map_values(
            |m: (Seq<char>, Seq<char>, Seq<char>)| (m.0, m.1),
        ),
    decreases ms.len(),
{
    let pred = |m: (Seq<char>, Seq<char>, Seq<char>)| m.0 != role_system();
    let f = |m: (Seq<char>, Seq<char>, Seq<char>)| (m.0, m.1);
    reveal(Seq::filter);
    if ms.len() == 0 {
        assert(ms.filter(pred) =~= Seq::<(Seq<char>, Seq<char>, Seq<char>)>::empty());
        assert(ms.filter(pred).map_values(f) =~= Seq::<(Seq<char>, Seq<char>)>::empty());
    } else {
        lemma_conversation_is_non_system(ms.drop_last());
        let sub = ms.drop_last().filter(pred);
        if pred(ms.last()) {
            assert(ms.filter(pred) == sub.push(ms.last()));
            assert(sub.push(ms.last()).map_values(f) =~= sub.map_values(f).push(f(ms.last())));
        } else {
            assert(ms.filter(pred) == sub);
        }
    }
}

/// Typing a character and then pressing Backspace gives back the conversation as it was.
pub proof fn lemma_type_then_backspace(m: ChatModel, c: char, ts1: Seq<char>, ts2: Seq<char>)
    requires
        !m.generating,
        m.cursor <= m.input.len(),
    ensures
        chat_step(chat_step(ChatStateView::Active(m), plain(KeyCode::Char(c)), ts1).0, plain(KeyCode::Backspace), ts2).0
            == ChatStateView::Active(m),
{
    let m1 = ChatModel { input: m.input.insert(m.cursor as int, c), cursor: m.cursor + 1, ..m };
    assert(chat_step(ChatStateView::Active(m), plain(KeyCode::Char(c)), ts1).0 == ChatStateView::Active(m1));
    assert(m1.input.remove(m.cursor as int) =~= m.input);
}

/// While a reply is being generated, every key but Esc and Control-C leaves the screen as it
/// is and asks for nothing.
pub proof fn lemma_generating_ignores_keys(m: ChatModel, key: KeyPress, ts: Seq<char>)
    requires
        m.generating,
        !(key.code is Esc),
        !ctrl_letter(key, 'c', 'C'),
    ensures
        chat_step(ChatStateView::Active(m), key, ts) == (ChatStateView::Active(m), no_effects()),
{
}

/// Control-t never takes the token limit above 10000, and Control-T never below 100.
pub proof fn lemma_token_limit_bounds(m: ChatModel, ts: Seq<char>)
    requires
        !m.generating,
    ensures
        chat_step(ChatStateView::Active(m), KeyPress { code: KeyCode::Char('t'), ctrl: true }, ts).0
            matches ChatStateView::Active(m2) && m2.max_tokens <= 10000,
        chat_step(ChatStateView::Active(m), KeyPress { code: KeyCode::Char('T'), ctrl: true }, ts).0
            matches ChatStateView::Active(m2) && m2.max_tokens >= 100,
{
}

/// Whatever key is pressed, the cursor stays within the input line.
pub proof fn lemma_cursor_stays_in_input(v: ChatStateView, key: KeyPress, ts: Seq<char>)
    requires
        cursor_ok(v),
    ensures
        cursor_ok(chat_step(v, key, ts).0),
{
}

/// The words of `s`: its maximal runs of non-whitespace characters, in order
/// (`str::split_whitespace`).
pub open spec fn words(s: Seq<char>) -> Seq<Seq<char>>
    decreases s.len(),
{
    if s.len() == 0 {
        Seq::empty()
    } else {
        let w = words(s.drop_last());
        let c = s.last();
        if is_ws(c) {
            w
        } else if s.len() >= 2 && !is_ws(s[s.len() - 2]) {
            w.update(w.len() - 1, w.last().push(c))
        } else {
            w.push(seq![c])
        }
    }
}

proof fn lemma_words(s: Seq<char>)
    ensures
        forall|i: int| 0 <= i < words(s).len() ==> 0 < #[trigger] words(s)[i].len() <= s.len(),
        s.len() > 0 && !is_ws(s.last()) ==> words(s).len() > 0,
    decreases s.len(),
{
    if s.len() > 0 {
        let p = s.drop_last();
        lemma_words(p);
        let w = words(p);
        if !is_ws(s.last()) && s.len() >= 2 && !is_ws(s[s.len() - 2]) {
            assert(p.last() == s[s.len() - 2]);
            assert(w.len() > 0);
            let u = w.update(w.len() - 1, w.last().push(s.last()));
            assert forall|i: int| 0 <= i < u.len() implies 0 < #[trigger] u[i].len() <= s.len() by {
                if i < w.len() - 1 {
                    assert(u[i] == w[i]);
                } else {
                    assert(u[i] == w.last().push(s.last()));
                }
            }
        } else if !is_ws(s.last()) {
            let u = w.push(seq![s.last()]);
            assert forall|i: int| 0 <= i < u.len() implies 0 < #[trigger] u[i].len() <= s.len() by {
                if i < w.len() {
                    assert(u[i] == w[i]);
                }
            }
        }
    }
}

/// How many bytes `c` takes in UTF-8.
pub open spec fn utf8_len(c: char) -> nat {
    let u = c as u32;
    if u < 0x80 {
        1
    } else if u < 0x800 {
        2
    } else if u < 0x10000 {
        3
    } else {
        4
    }
}

/// How many bytes `s` takes in UTF-8 (`str::len`).
pub open spec fn byte_len(s: Seq<char>) -> nat
    decreases s.len(),
{
    if s.len() == 0 {
        0
    } else {
        byte_len(s.drop_last()) + utf8_len(s.last())
    }
}

proof fn lemma_byte_len_bound(s: Seq<char>)
    ensures
        byte_len(s) <= 4 * s.len(),
    decreases s.len(),
{
    if s.len() > 0 {
        lemma_byte_len_bound(s.drop_last());
    }
}

pub(crate) fn char_utf8_len(c: char) -> (n: usize)
    ensures
        n == utf8_len(c),
{
    let u = c as u32;
    if u < 0x80 {
        1
    } else if u < 0x800 {
        2
    } else if u < 0x10000 {
        3
    } else {
        4
    }
}

/// The UTF-8 length in bytes of `s`.
pub fn byte_length(s: &[char]) -> (n: usize)
    requires
        4 * s@.len() <= usize::MAX,
    ensures
        n == byte_len(s@),
{
    let mut n: usize = 0;
    let mut i: usize = 0;
    while i < s.len()
        invariant
            i <= s@.len(),
            4 * s@.len() <= usize::MAX,
            n == byte_len(s@.take(i as int)),
        decreases s@.len() - i,
    {
        proof {
            lemma_byte_len_bound(s@.take(i as int));
            assert(s@.take(i + 1).drop_last() =~= s@.take(i as int));
        }
        n = n + char_utf8_len(s[i]);
        i = i + 1;
    }
    assert(s@.take(s@.len() as int) =~= s@);
    n
}

/// The words of `s`.
pub fn split_words(s: &[char]) -> (ws: Vec<Vec<char>>)
    ensures
        ws@.map_values(|w: Vec<char>| w@) == words(s@),
{
    let mut ws: Vec<Vec<char>> = Vec::new();
    let mut i: usize = 0;
    while i < s.len()
        invariant
            i <= s@.len(),
            ws@.map_values(|w: Vec<char>| w@) == words(s@.take(i as int)),
        decreases s@.len() - i,
    {
        let c = s[i];
        let ghost pre = s@.take(i as int);
        let ghost old_ws = ws@;
        proof {
            assert(s@.take(i + 1).drop_last() =~= pre);
            lemma_words(pre);
        }
        if !is_whitespace(c) {
            if i > 0 && !is_whitespace(s[i - 1]) {
                assert(pre.last() == s@[i - 1]);
                let mut last = ws.pop().unwrap();
                last.push(c);
                ws.push(last);
                assert(ws@.map_values(|w: Vec<char>| w@) =~= words(s@.take(i + 1)));
            } else {
                let mut w: Vec<char> = Vec::new();
                w.push(c);
                ws.push(w);
                assert(ws@.map_values(|w: Vec<char>| w@) =~= words(s@.take(i + 1)));
            }
        } else {
            assert(words(s@.take(i + 1)) == words(pre));
        }
        i = i + 1;
    }
    assert(s@.take(s@.len() as int) =~= s@);
    ws
}

/// Greedy filling of lines `width` bytes wide with the words `ws`, a single space between
/// words: the finished lines and the line being filled.
pub open spec fn fill(ws: Seq<Seq<char>>, width: nat) -> (Seq<Seq<char>>, Seq<char>)
    decreases ws.len(),
{
    if ws.len() == 0 {
        (Seq::empty(), Seq::empty())
    } else {
        let (lines, cur) = fill(ws.drop_last(), width);
        let w = ws.last();
        if cur.len() == 0 {
            (lines, w)
        } else if byte_len(cur) + byte_len(w) + 1 <= width {
            (lines, cur + seq![' '] + w)
        } else {
            (lines.push(cur), w)
        }
    }
}

/// `text` wrapped into lines of at most `width` bytes where the words allow; a text
/// without words is one line of itself.
pub open spec fn wrapped(text: Seq<char>, width: nat) -> Seq<Seq<char>> {
    let (lines, cur) = fill(words(text), width);
    let all = if cur.len() > 0 {
        lines.push(cur)
    } else {
        lines
    };
    if all.len() == 0 {
        seq![text]
    } else {
        all
    }
}

/// Wraps `text` into lines of at most `width` bytes, breaking between words; a word longer
/// than the width gets a line of its own.
pub fn wrap_text(text: &str, width: usize) -> (lines: Vec<String>)
    requires
        4 * text@.len() <= usize::MAX,
    ensures
        lines@.map_values(|l: String| l@) == wrapped(text@, width as nat),
{
    let cs = chars_of(text);
    let ws = split_words(&cs);
    proof {
        lemma_words(cs@);
    }
    let mut lines: Vec<String> = Vec::new();
    let mut cur: Vec<char> = Vec::new();
    let mut cur_len: usize = 0;
    let ghost wv = ws@.map_values(|w: Vec<char>| w@);
    let mut i: usize = 0;
    while i < ws.len()
        invariant
            i <= ws@.len(),
            wv == ws@.map_values(|w: Vec<char>| w@),
            wv == words(cs@),
            forall|j: int| 0 <= j < wv.len() ==> 0 < #[trigger] wv[j].len() <= cs@.len(),
            4 * cs@.len() <= usize::MAX,
            (lines@.map_values(|l: String| l@), cur@) == fill(wv.take(i as int), width as nat),
            cur_len == byte_len(cur@),
        decreases ws@.len() - i,
    {
        let w = &ws[i];
        assert(w@ == wv[i as int]);
        let w_len = byte_length(w);
        proof {
            assert(wv.take(i + 1).drop_last() =~= wv.take(i as int));
            assert(wv.take(i + 1).last() == w@);
        }
        if cur.len() == 0 {
            cur = w.clone();
            cur_len = w_len;
        } else if width >= 1 && w_len <= width - 1 && cur_len <= width - 1 - w_len {
            let ghost old_cur = cur@;
            cur.push(' ');
            let mut k: usize = 0;
            while k < w.len()
                invariant
                    k <= w@.len(),
                    cur@ == old_cur + seq![' '] + w@.take(k as int),
                decreases w@.len() - k,
            {
                cur.push(w[k]);
                assert(w@.take(k + 1) =~= w@.take(k as int).push(w@[k as int]));
                k = k + 1;
            }
            proof {
                assert(w@.take(w@.len() as int) =~= w@);
                assert(byte_len(seq![' ']) == 1) by {
                    assert(seq![' '].drop_last() =~= Seq::<char>::empty());
                    assert(seq![' '].last() == ' ');
                    assert((' ' as u32) == 32);
                    assert(byte_len(Seq::<char>::empty()) == 0);
                }
                lemma_byte_len_concat(old_cur + seq![' '], w@);
                lemma_byte_len_concat(old_cur, seq![' ']);
            }
            cur_len = cur_len + 1 + w_len;
        } else {
            let ghost old_lines = lines@;
            lines.push(string_of(&cur));
            assert(lines@.map_values(|l: String| l@) =~= old_lines.map_values(|l: String| l@).push(cur@));
            cur = w.clone();
            cur_len = w_len;
        }
        i = i + 1;
    }
    assert(wv.take(wv.len() as int) =~= wv);
    if cur.len() > 0 {
        let ghost old_lines = lines@;
        lines.push(string_of(&cur));
        assert(lines@.map_values(|l: String| l@) =~= old_lines.map_values(|l: String| l@).push(cur@));
    }
    if lines.len() == 0 {
        let mut one: Vec<String> = Vec::new();
        one.push(text.to_string());
        assert(one@.map_values(|l: String| l@) =~= seq![text@]);
        return one;
    }
    lines
}

proof fn lemma_byte_len_concat(a: Seq<char>, b: Seq<char>)
    ensures
        byte_len(a + b) == byte_len(a) + byte_len(b),
    decreases b.len(),
{
    if b.len() == 0 {
        assert(a + b =~= a);
    } else {
        lemma_byte_len_concat(a, b.drop_last());
        assert((a + b).drop_last() =~= a + b.drop_last());
    }
}

/// The part of a conversation sent to the model: role and content of every message not
/// written by the system, in order.
pub open spec fn conversation(ms: Seq<(Seq<char>, Seq<char>, Seq<char>)>) -> Seq<(Seq<char>, Seq<char>)>
    decreases ms.len(),
{
    if ms.len() == 0 {
        Seq::empty()
    } else {
        let rest = conversation(ms.drop_last());
        let m = ms.last();
        if m.0 == role_system() {
            rest
        } else {
            rest.push((m.0, m.1))
        }
    }
}

/// The messages to send with a request: the conversation without the system's messages.
pub fn api_messages(messages: &VecDeque<ChatMessage>) -> (r: Vec<ApiMessage>)
    ensures
        r@.map_values(|a: ApiMessage| (a.role@, a.content@)) == conversation(messages_view(messages@)),
{
    let system = "system".to_string();
    proof {
        reveal_strlit("system");
        assert(system@ =~= role_system());
    }
    let ghost mv = messages_view(messages@);
    let mut r: Vec<ApiMessage> = Vec::new();
    let mut i: usize = 0;
    while i < messages.len()
        invariant
            i <= messages@.len(),
            mv == messages_view(messages@),
            system@ == role_system(),
            r@.map_values(|a: ApiMessage| (a.role@, a.content@)) == conversation(mv.take(i as int)),
        decreases messages@.len() - i,
    {
        let m = &messages[i];
        proof {
            assert(mv.take(i + 1).drop_last() =~= mv.take(i as int));
            assert(mv.take(i + 1).last() == message_view(*m));
        }
        if m.role != system {
            let ghost before = r@;
            r.push(ApiMessage::from_message(m));
            assert(r@.map_values(|a: ApiMessage| (a.role@, a.content@)) =~= before.map_values(
                |a: ApiMessage| (a.role@, a.content@),
            ).push((m.role@, m.content@)));
        }
        i = i + 1;
    }
    assert(mv.take(mv.len() as int) =~= mv);
    r
}

/// What one line of a server-sent event stream says.
#[derive(Debug)]
pub enum SseLine {
    /// Blank, or not a data line.
    Skip,
    /// The end-of-stream marker.
    Done,
    /// A data line with this payload.
    Data(String),
}

/// The text `data: `.
pub open spec fn data_prefix() -> Seq<char> {
    "data: "@
}

/// The text `[DONE]`.
pub open spec fn done_marker() -> Seq<char> {
    "[DONE]"@
}

/// What the line `line` of an event stream says.
pub open spec fn sse_line(line: Seq<char>) -> SseLineView {
    if trim(line).len() == 0 {
        SseLineView::Skip
    } else if line.len() >= 6 && line.take(6) == data_prefix() {
        if trim(line.skip(6)) == done_marker() {
            SseLineView::Done
        } else {
            SseLineView::Data(line.skip(6))
        }
    } else {
        SseLineView::Skip
    }
}

/// An event-stream line as the contracts see it.
pub enum SseLineView {
    Skip,
    Done,
    Data(Seq<char>),
}

impl View for SseLine {
    type V = SseLineView;

    open spec fn view(&self) -> SseLineView {
        match self {
            SseLine::Skip => SseLineView::Skip,
            SseLine::Done => SseLineView::Done,
            SseLine::Data(p) => SseLineView::Data(p@),
        }
    }
}

/// Reads one line of a server-sent event stream.
pub fn classify_sse_line(line: &str) -> (r: SseLine)
    ensures
        r@ == sse_line(line@),
{
    let cs = chars_of(line);
    let t = trim_chars(&cs);
    if t.len() == 0 {
        return SseLine::Skip;
    }
    let prefix = chars_of("data: ");
    proof {
        reveal_strlit("data: ");
    }
    if cs.len() >= 6 {
        let head = sub_chars(&cs, 0, 6);
        assert(head@ =~= cs@.take(6));
        if same_chars(&head, &prefix) {
            let payload = sub_chars(&cs, 6, cs.len());
            assert(payload@ =~= cs@.skip(6));
            let pt = trim_chars(&payload);
            let done = chars_of("[DONE]");
            if same_chars(&pt, &done) {
                return SseLine::Done;
            }
            return SseLine::Data(string_of(&payload));
        }
    }
    SseLine::Skip
}

/// Takes the first complete line (up to the first `\n`) out of `buffer`: returns it without
/// the `\n`, and leaves in `buffer` what follows the `\n`. Without a `\n`, nothing changes.
pub fn take_line(buffer: &mut String) -> (line: Option<String>)
    ensures
        match find_seq(old(buffer)@, seq!['\n']) {
            Some(k) => line matches Some(l) && l@ == old(buffer)@.take(k) && final(buffer)@
                == old(buffer)@.skip(k + 1),
            None => line is None && final(buffer)@ == old(buffer)@,
        },
{
    let cs = chars_of(buffer.as_str());
    let mut nl: Vec<char> = Vec::new();
    nl.push('\n');
    assert(nl@ =~= seq!['\n']);
    match find_chars(&cs, &nl) {
        Some(k) => {
            assert(occurs_at(cs@, nl@, k as int));
            assert(nl@.len() == 1);
            let n = cs.len();
            assert(k < n);
            let head = sub_chars(&cs, 0, k);
            let tail = sub_chars(&cs, k + 1, n);
            *buffer = string_of(&tail);
            Some(string_of(&head))
        },
        None => None,
    }
}

/// What a streamed chunk adds to the reply: the new text of its first choice, and whether
/// that choice is finished. A chunk without choices adds nothing.
pub fn chunk_event(chunk: &StreamChunk) -> (r: (Option<String>, bool))
    ensures
        chunk.choices@.len() == 0 ==> r.0 is None && !r.1,
        chunk.choices@.len() > 0 ==> {
            let first = chunk.choices@[0];
            &&& r.1 == first.finish_reason is Some
            &&& match first.delta.content {
                Some(t) => r.0 matches Some(u) && u@ == t@,
                None => r.0 is None,
            }
        },
{
    if chunk.choices.len() == 0 {
        return (None, false);
    }
    let first = &chunk.choices[0];
    let token = match &first.delta.content {
        Some(t) => Some(t.clone()),
        None => None,
    };
    let done = match &first.finish_reason {
        Some(_) => true,
        None => false,
    };
    (token, done)
}

/// The first line shown of `total` lines in a window `height` lines tall, asked to start at
/// `offset` (the largest offset follows the end).
pub fn visible_scroll(total: usize, height: usize, offset: usize) -> (r: usize)
    ensures
        r == (if total > height {
            if offset <= total - height {
                offset as int
            } else {
                total - height
            }
        } else {
            0
        }),
{
    if total > height {
        let last = total - height;
        if offset == usize::MAX {
            last
        } else if offset < last {
            offset
        } else {
            last
        }
    } else {
        0
    }
}

/// How wide the first `n` characters of `s` are on screen, counting ASCII as one column and
/// anything else as two.
pub open spec fn columns(s: Seq<char>, n: int) -> nat
    decreases n,
{
    if n <= 0 || s.len() == 0 {
        0
    } else if n > s.len() {
        columns(s, s.len() as int)
    } else {
        columns(s, n - 1) + if (s[n - 1] as u32) < 0x80 {
            1nat
        } else {
            2nat
        }
    }
}

/// The screen column of the input cursor, counted from the start of the input.
pub fn cursor_column(input: &str, cursor: usize) -> (col: usize)
    requires
        2 * input@.len() <= usize::MAX,
    ensures
        col == columns(input@, cursor as int),
{
    let cs = chars_of(input);
    let n: usize = if cursor < cs.len() {
        cursor
    } else {
        cs.len()
    };
    assert(columns(cs@, cursor as int) == columns(cs@, n as int));
    let mut col: usize = 0;
    let mut i: usize = 0;
    while i < n
        invariant
            n <= cs@.len(),
            2 * cs@.len() <= usize::MAX,
            i <= n,
            col == columns(cs@, i as int),
            col <= 2 * i,
        decreases n - i,
    {
        let w: usize = if (cs[i] as u32) < 0x80 {
            1
        } else {
            2
        };
        col = col + w;
        i = i + 1;
    }
    col
}

/// Whether the line `l` fits in `width` bytes or is one of the words `ws` (a word longer
/// than the width has a line of its own).
pub open spec fn fits_or_word(l: Seq<char>, width: nat, ws: Seq<Seq<char>>) -> bool {
    byte_len(l) <= width || ws.contains(l)
}

proof fn lemma_fill_fits(ws: Seq<Seq<char>>, width: nat)
    ensures
        forall|i: int| 0 <= i < fill(ws, width).0.len() ==> fits_or_word(#[trigger] fill(ws, width).0[i], width, ws),
        fill(ws, width).1.len() > 0 ==> fits_or_word(fill(ws, width).1, width, ws),
    decreases ws.len(),
{
    if ws.len() > 0 {
        let p = ws.drop_last();
        lemma_fill_fits(p, width);
        let (lines, cur) = fill(p, width);
        let w = ws.last();
        assert(ws.contains(w)) by {
            assert(ws[ws.len() - 1] == w);
        }
        assert forall|x: Seq<char>| p.contains(x) implies ws.contains(x) by {
            let k = choose|k: int| 0 <= k < p.len() && p[k] == x;
            assert(ws[k] == x);
        }
        if cur.len() > 0 && byte_len(cur) + byte_len(w) + 1 <= width {
            lemma_byte_len_concat(cur + seq![' '], w);
            lemma_byte_len_concat(cur, seq![' ']);
            assert(byte_len(seq![' ']) == 1) by {
                assert(seq![' '].drop_last() =~= Seq::<char>::empty());
                assert(seq![' '].last() == ' ');
                assert((' ' as u32) == 32);
                assert(byte_len(Seq::<char>::empty()) == 0);
            }
        }
        let (l2, c2) = fill(ws, width);
        assert forall|i: int| 0 <= i < l2.len() implies fits_or_word(#[trigger] l2[i], width, ws) by {
            if i < lines.len() {
                assert(l2[i] == lines[i]);
                assert(fits_or_word(lines[i], width, p));
            } else {
                assert(l2[i] == cur);
            }
        }
    }
}

/// Every line `wrap_text` makes fits in the width, except a word longer than the width,
/// which stands alone on its line; a text without words is its own single line.
pub proof fn lemma_wrapped_lines_fit(text: Seq<char>, width: nat)
    ensures
        words(text).len() > 0 ==> forall|i: int| 0 <= i < wrapped(text, width).len() ==> fits_or_word(
            #[trigger] wrapped(text, width)[i],
            width,
            words(text),
        ),
        words(text).len() == 0 ==> wrapped(text, width) == seq![text],
{
    let ws = words(text);
    lemma_words(text);
    lemma_fill_fits(ws, width);
    lemma_fill_nonempty(ws, width);
    let (lines, cur) = fill(ws, width);
    if cur.len() > 0 {
        let all = lines.push(cur);
        assert forall|i: int| 0 <= i < all.len() implies fits_or_word(#[trigger] all[i], width, ws) by {
            if i < lines.len() {
                assert(all[i] == lines[i]);
            }
        }
    }
}

proof fn lemma_fill_nonempty(ws: Seq<Seq<char>>, width: nat)
    requires
        forall|i: int| 0 <= i < ws.len() ==> #[trigger] ws[i].len() > 0,
    ensures
        ws.len() > 0 ==> fill(ws, width).1.len() > 0,
        ws.len() == 0 ==> fill(ws, width).0.len() == 0 && fill(ws, width).1.len() == 0,
    decreases ws.len(),
{
    if ws.len() > 0 {
        lemma_fill_nonempty(ws.drop_last(), width);
        assert(ws.last() == ws[ws.len() - 1]);
    }
}

/// The words `g` written with a single space between neighbours.
pub open spec fn spaced(g: Seq<Seq<char>>) -> Seq<char>
    decreases g.len(),
{
    if g.len() == 0 {
        Seq::empty()
    } else if g.len() == 1 {
        g[0]
    } else {
        spaced(g.drop_last()) + seq![' '] + g.last()
    }
}

/// The groups `g` one after the other.
pub open spec fn concat_groups(g: Seq<Seq<Seq<char>>>) -> Seq<Seq<char>>
    decreases g.len(),
{
    if g.len() == 0 {
        Seq::empty()
    } else {
        concat_groups(g.drop_last()) + g.last()
    }
}

/// Whether the lines `ls` set out the words `ws` greedily in `width` bytes, grouped by `g`:
/// the groups are the words in order, none empty; each line is its group's words with
/// single spaces between them; and the first word of each line but the first would not
/// have fitted, after a space, on the line before it.
pub open spec fn greedy_lines(ls: Seq<Seq<char>>, ws: Seq<Seq<char>>, g: Seq<Seq<Seq<char>>>, width: nat) -> bool {
    &&& g.len() == ls.len()
    &&& concat_groups(g) == ws
    &&& forall|i: int| 0 <= i < g.len() ==> (#[trigger] g[i]).len() > 0 && ls[i] == spaced(g[i])
    &&& forall|i: int| 0 <= i < ls.len() - 1 ==> byte_len(#[trigger] ls[i]) + 1 + byte_len(g[i + 1][0]) > width
}

/// How `fill` groups the words `ws` into its lines and the line being filled.
spec fn fill_groups(ws: Seq<Seq<char>>, width: nat) -> Seq<Seq<Seq<char>>>
    decreases ws.len(),
{
    if ws.len() == 0 {
        Seq::empty()
    } else {
        let g = fill_groups(ws.drop_last(), width);
        let (lines, cur) = fill(ws.drop_last(), width);
        let w = ws.last();
        if cur.len() == 0 {
            seq![seq![w]]
        } else if byte_len(cur) + byte_len(w) + 1 <= width {
            g.update(g.len() - 1, g.last().push(w))
        } else {
            g.push(seq![w])
        }
    }
}

proof fn lemma_spaced_push(g: Seq<Seq<char>>, w: Seq<char>)
    requires
        g.len() > 0,
    ensures
        spaced(g.push(w)) == spaced(g) + seq![' '] + w,
{
    assert(g.push(w).drop_last() =~= g);
}

proof fn lemma_fill_groups(ws: Seq<Seq<char>>, width: nat)
    requires
        forall|i: int| 0 <= i < ws.len() ==> #[trigger] ws[i].len() > 0,
    ensures
        ws.len() > 0 ==> {
            let (lines, cur) = fill(ws, width);
            let g = fill_groups(ws, width);
            &&& g.len() == lines.len() + 1
            &&& concat_groups(g) == ws
            &&& forall|i: int| 0 <= i < g.len() ==> (#[trigger] g[i]).len() > 0
            &&& forall|i: int| 0 <= i < lines.len() ==> #[trigger] lines[i] == spaced(g[i])
            &&& cur == spaced(g.last())
            &&& forall|i: int| 0 <= i < lines.len() ==> byte_len(#[trigger] lines[i]) + 1 + byte_len(g[i + 1][0]) > width
        },
    decreases ws.len(),
{
    if ws.len() > 0 {
        let p = ws.drop_last();
        assert forall|i: int| 0 <= i < p.len() implies #[trigger] p[i].len() > 0 by {
            assert(p[i] == ws[i]);
        }
        lemma_fill_groups(p, width);
        lemma_fill_nonempty(p, width);
        let (lines, cur) = fill(p, width);
        let g = fill_groups(p, width);
        let w = ws.last();
        assert(w == ws[ws.len() - 1]);
        let (l2, c2) = fill(ws, width);
        let g2 = fill_groups(ws, width);
        if cur.len() == 0 {
            assert(p.len() == 0);
            assert(g2 == seq![seq![w]]);
            assert(concat_groups(g2) == concat_groups(g2.drop_last()) + g2.last());
            assert(g2.drop_last() =~= Seq::<Seq<Seq<char>>>::empty());
            assert(concat_groups(g2) =~= ws);
            assert(spaced(seq![w]) == w);
        } else if byte_len(cur) + byte_len(w) + 1 <= width {
            let last = g.last();
            assert(g[g.len() - 1] == last);
            lemma_spaced_push(last, w);
            assert(g2.drop_last() =~= g.drop_last());
            assert(g2.last() == last.push(w));
            assert(concat_groups(g) == concat_groups(g.drop_last()) + last);
            assert(concat_groups(g2) == concat_groups(g2.drop_last()) + g2.last());
            assert(concat_groups(g) == p);
            assert(ws =~= p.push(w));
            assert(concat_groups(g.drop_last()) + last.push(w) =~= (concat_groups(g.drop_last()) + last).push(w));
            assert(concat_groups(g2) =~= ws);
            assert forall|i: int| 0 <= i < g2.len() implies (#[trigger] g2[i]).len() > 0 by {
                if i < g.len() - 1 {
                    assert(g2[i] == g[i]);
                }
            }
            assert forall|i: int| 0 <= i < l2.len() implies #[trigger] l2[i] == spaced(g2[i]) by {
                assert(g2[i] == g[i]);
            }
            assert forall|i: int| 0 <= i < l2.len() implies byte_len(#[trigger] l2[i]) + 1 + byte_len(g2[i + 1][0]) > width by {
                if i + 1 < g.len() - 1 {
                    assert(g2[i + 1] == g[i + 1]);
                } else {
                    assert(g2[i + 1] == last.push(w));
                    assert(last.push(w)[0] == last[0]);
                }
            }
        } else {
            assert(g2 == g.push(seq![w]));
            assert(g2.drop_last() =~= g);
            assert(concat_groups(g2) =~= ws);
            assert(spaced(seq![w]) == w);
            assert forall|i: int| 0 <= i < g2.len() implies (#[trigger] g2[i]).len() > 0 by {
                if i < g.len() {
                    assert(g2[i] == g[i]);
                }
            }
            assert forall|i: int| 0 <= i < l2.len() implies #[trigger] l2[i] == spaced(g2[i]) by {
                if i < lines.len() {
                    assert(g2[i] == g[i]);
                } else {
                    assert(l2[i] == cur);
                    assert(g2[i] == g.last());
                }
            }
            assert forall|i: int| 0 <= i < l2.len() implies byte_len(#[trigger] l2[i]) + 1 + byte_len(g2[i + 1][0]) > width by {
                if i < lines.len() {
                    assert(l2[i] == lines[i]);
                    assert(g2[i + 1] == g[i + 1]);
                } else {
                    assert(l2[i] == cur);
                    assert(g2[i + 1] == seq![w]);
                }
            }
        }
    }
}

/// Wrapping fills lines greedily: the lines are the text's words, in order, each line its
/// words with single spaces between them, and a line ends only where its next word would
/// not fit after a space; a text without words is one line of itself.
pub proof fn lemma_wrap_is_greedy(text: Seq<char>, width: nat)
    ensures
        words(text).len() == 0 ==> wrapped(text, width) == seq![text],
        words(text).len() > 0 ==> exists|g: Seq<Seq<Seq<char>>>| #[trigger] greedy_lines(wrapped(text, width), words(text), g, width),
{
    let ws = words(text);
    lemma_words(text);
    lemma_fill_nonempty(ws, width);
    if ws.len() > 0 {
        lemma_fill_groups(ws, width);
        let (lines, cur) = fill(ws, width);
        let g = fill_groups(ws, width);
        let all = lines.push(cur);
        assert(wrapped(text, width) == all);
        assert forall|i: int| 0 <= i < g.len() implies (#[trigger] g[i]).len() > 0 && all[i] == spaced(g[i]) by {
            if i < lines.len() {
                assert(all[i] == lines[i]);
                assert(lines[i] == spaced(g[i]));
            } else {
                assert(g[i] == g.last());
            }
        }
        assert forall|i: int| 0 <= i < all.len() - 1 implies byte_len(#[trigger] all[i]) + 1 + byte_len(g[i + 1][0]) > width by {
            assert(all[i] == lines[i]);
        }
        assert(greedy_lines(all, ws, g, width));
    }
}

/// How a piece of an assistant reply is drawn.
#[derive(Debug, Clone, Copy, PartialEq, Eq, Structural)]
pub enum SpanKind {
    /// The answer itself.
    Plain,
    /// Reasoning between `<think>` and `</think>`, dimmed.
    Thinking,
    /// The marker drawn after a closed reasoning block.
    EndMarker,
}

/// The marker drawn after a closed reasoning block.
pub open spec fn end_marker() -> Seq<char> {
    "\n\n--end thinking--\n\n"@
}

/// A match that `find_seq` reports lies within the text.
pub proof fn lemma_find_bounds(s: Seq<char>, p: Seq<char>)
    ensures
        find_seq(s, p) matches Some(k) ==> 0 <= k && k + p.len() <= s.len(),
{
    if find_seq(s, p) is Some {
        let k = choose|i: int| first_occurrence(s, p, i);
        assert(first_occurrence(s, p, k));
    }
}

/// The pieces of `r` around reasoning blocks: answer text, reasoning (an unclosed block
/// runs to the end), and a marker after each closed block; empty pieces are left out.
#[verifier::opaque]
pub open spec fn think_pieces(r: Seq<char>) -> Seq<(Seq<char>, SpanKind)>
    decreases r.len(),
{
    if r.len() == 0 {
        Seq::empty()
    } else {
        match find_seq(r, think_open()) {
            None => seq![(r, SpanKind::Plain)],
            Some(k) => {
                proof {
                    lemma_find_bounds(r, think_open());
                }
                let pre = if k > 0 {
                    seq![(r.take(k), SpanKind::Plain)]
                } else {
                    Seq::empty()
                };
                let rest = r.skip(k + 7);
                match find_seq(rest, think_close()) {
                    None => pre + if rest.len() > 0 {
                        seq![(rest, SpanKind::Thinking)]
                    } else {
                        Seq::empty()
                    },
                    Some(e) => {
                        proof {
                            lemma_find_bounds(rest, think_close());
                        }
                        pre + (if e > 0 {
                            seq![(rest.take(e), SpanKind::Thinking)]
                        } else {
                            Seq::empty()
                        }) + seq![(end_marker(), SpanKind::EndMarker)] + think_pieces(rest.skip(e + 8))
                    },
                }
            },
        }
    }
}

/// The text before the first `<think>` at `k`, as a piece if it is not empty.
pub open spec fn plain_before(r: Seq<char>, k: int) -> Seq<(Seq<char>, SpanKind)> {
    if k > 0 {
        seq![(r.take(k), SpanKind::Plain)]
    } else {
        Seq::empty()
    }
}

proof fn lemma_pieces_empty(r: Seq<char>)
    requires
        r.len() == 0,
    ensures
        think_pieces(r) == Seq::<(Seq<char>, SpanKind)>::empty(),
{
    reveal(think_pieces);
}

proof fn lemma_pieces_plain(r: Seq<char>)
    requires
        r.len() > 0,
        find_seq(r, think_open()) is None,
    ensures
        think_pieces(r) == seq![(r, SpanKind::Plain)],
{
    reveal(think_pieces);
}

proof fn lemma_pieces_unclosed(r: Seq<char>, k: int)
    requires
        r.len() > 0,
        find_seq(r, think_open()) == Some(k),
        find_seq(r.skip(k + 7), think_close()) is None,
    ensures
        think_pieces(r) == plain_before(r, k) + (if r.skip(k + 7).len() > 0 {
            seq![(r.skip(k + 7), SpanKind::Thinking)]
        } else {
            Seq::empty()
        }),
{
    reveal(think_pieces);
}

proof fn lemma_pieces_closed(r: Seq<char>, k: int, e: int)
    requires
        r.len() > 0,
        find_seq(r, think_open()) == Some(k),
        find_seq(r.skip(k + 7), think_close()) == Some(e),
    ensures
        think_pieces(r) == plain_before(r, k) + (if e > 0 {
            seq![(r.skip(k + 7).take(e), SpanKind::Thinking)]
        } else {
            Seq::empty()
        }) + seq![(end_marker(), SpanKind::EndMarker)] + think_pieces(r.skip(k + 7).skip(e + 8)),
{
    reveal(think_pieces);
}

/// Whether every piece of `ps` is at most `n` characters long or is the end marker.
pub open spec fn pieces_short(ps: Seq<(Seq<char>, SpanKind)>, n: nat) -> bool {
    forall|i: int| 0 <= i < ps.len() ==> (#[trigger] ps[i]).0.len() <= n || ps[i].0 == end_marker()
}

proof fn lemma_pieces_short_concat(a: Seq<(Seq<char>, SpanKind)>, b: Seq<(Seq<char>, SpanKind)>, n: nat)
    requires
        pieces_short(a, n),
        pieces_short(b, n),
    ensures
        pieces_short(a + b, n),
{
    assert forall|i: int| 0 <= i < (a + b).len() implies (#[trigger] (a + b)[i]).0.len() <= n
        || (a + b)[i].0 == end_marker() by {
        if i < a.len() {
            assert((a + b)[i] == a[i]);
        } else {
            assert((a + b)[i] == b[i - a.len()]);
        }
    }
}

/// Every piece of a reply is no longer than the reply, except the end marker, which is
/// 20 characters long.
pub proof fn lemma_think_spans_short(r: Seq<char>)
    ensures
        pieces_short(think_spans_of(r), r.len()),
        end_marker().len() == 20,
{
    reveal_strlit("\n\n--end thinking--\n\n");
    lemma_think_pieces_short(r);
}

proof fn lemma_think_pieces_short(r: Seq<char>)
    ensures
        pieces_short(think_pieces(r), r.len()),
    decreases r.len(),
{
    if r.len() == 0 {
        lemma_pieces_empty(r);
    } else {
        match find_seq(r, think_open()) {
            None => lemma_pieces_plain(r),
            Some(k) => {
                lemma_find_bounds(r, think_open());
                let rest = r.skip(k + 7);
                let pre = plain_before(r, k);
                assert(pieces_short(pre, r.len()));
                match find_seq(rest, think_close()) {
                    None => {
                        lemma_pieces_unclosed(r, k);
                        let t: Seq<(Seq<char>, SpanKind)> = if rest.len() > 0 {
                            seq![(rest, SpanKind::Thinking)]
                        } else {
                            Seq::empty()
                        };
                        assert(pieces_short(t, r.len()));
                        lemma_pieces_short_concat(pre, t, r.len());
                    },
                    Some(e) => {
                        lemma_find_bounds(rest, think_close());
                        lemma_pieces_closed(r, k, e);
                        let rest2 = rest.skip(e + 8);
                        lemma_think_pieces_short(rest2);
                        let t: Seq<(Seq<char>, SpanKind)> = if e > 0 {
                            seq![(rest.take(e), SpanKind::Thinking)]
                        } else {
                            Seq::empty()
                        };
                        let mk = seq![(end_marker(), SpanKind::EndMarker)];
                        assert(pieces_short(t, r.len()));
                        assert(pieces_short(mk, r.len()));
                        let tail = think_pieces(rest2);
                        assert(pieces_short(tail, r.len())) by {
                            assert forall|i: int| 0 <= i < tail.len() implies (#[trigger] tail[i]).0.len() <= r.len()
                                || tail[i].0 == end_marker() by {}
                        }
                        lemma_pieces_short_concat(pre, t, r.len());
                        lemma_pieces_short_concat(pre + t, mk, r.len());
                        lemma_pieces_short_concat(pre + t + mk, tail, r.len());
                    },
                }
            },
        }
    }
}

/// The pieces of a reply as the conversation draws them; a reply with no pieces at all
/// is drawn as itself.
pub open spec fn think_spans_of(text: Seq<char>) -> Seq<(Seq<char>, SpanKind)> {
    if think_pieces(text).len() == 0 {
        seq![(text, SpanKind::Plain)]
    } else {
        think_pieces(text)
    }
}

/// The pieces as text.
pub open spec fn pieces_view(v: Seq<(String, SpanKind)>) -> Seq<(Seq<char>, SpanKind)> {
    v.map_values(|p: (String, SpanKind)| (p.0@, p.1))
}

fn push_piece(v: &mut Vec<(String, SpanKind)>, text: &[char], kind: SpanKind)
    ensures
        pieces_view(final(v)@) == pieces_view(old(v)@).push((text@, kind)),
{
    let ghost before = v@;
    v.push((string_of(text), kind));
    assert(pieces_view(v@) =~= pieces_view(before).push((text@, kind)));
}

/// Splits an assistant reply into the pieces the conversation draws: answer text,
/// reasoning between `<think>` and `</think>` (an unclosed block runs to the end), and an
/// end marker after each closed block; a reply with no pieces is drawn as itself.
pub fn think_spans(text: &str) -> (v: Vec<(String, SpanKind)>)
    ensures
        pieces_view(v@) == think_spans_of(text@),
{
    let open = chars_of("<think>");
    let close = chars_of("</think>");
    proof {
        reveal_strlit("<think>");
        reveal_strlit("</think>");
        assert(open@ =~= think_open());
        assert(close@ =~= think_close());
    }
    let marker = chars_of("\n\n--end thinking--\n\n");
    let mut v: Vec<(String, SpanKind)> = Vec::new();
    let mut rem = chars_of(text);
    assert(pieces_view(v@) + think_pieces(rem@) =~= think_pieces(text@));
    loop
        invariant_except_break
            think_pieces(text@) == pieces_view(v@) + think_pieces(rem@),
        invariant
            open@ == think_open(),
            close@ == think_close(),
            marker@ == end_marker(),
        ensures
            think_pieces(text@) == pieces_view(v@),
        decreases rem@.len(),
    {
        let ghost v0 = pieces_view(v@);
        let ghost r = rem@;
        if rem.len() == 0 {
            proof {
                lemma_pieces_empty(r);
            }
            assert(v0 + think_pieces(r) =~= v0);
            break;
        }
        match find_chars(&rem, &open) {
            None => {
                proof {
                    lemma_pieces_plain(r);
                }
                push_piece(&mut v, &rem, SpanKind::Plain);
                break;
            },
            Some(k) => {
                proof {
                    lemma_find_bounds(r, think_open());
                }
                let n = rem.len();
                if k > 0 {
                    let before = sub_chars(&rem, 0, k);
                    assert(before@ =~= r.take(k as int));
                    push_piece(&mut v, &before, SpanKind::Plain);
                }
                assert(pieces_view(v@) == v0 + plain_before(r, k as int));
                let ghost v1 = pieces_view(v@);
                let rest = sub_chars(&rem, k + 7, n);
                assert(rest@ =~= r.skip(k + 7));
                match find_chars(&rest, &close) {
                    None => {
                        proof {
                            lemma_pieces_unclosed(r, k as int);
                        }
                        if rest.len() > 0 {
                            push_piece(&mut v, &rest, SpanKind::Thinking);
                            assert(think_pieces(text@) =~= pieces_view(v@));
                        } else {
                            assert(think_pieces(text@) =~= pieces_view(v@));
                        }
                        break;
                    },
                    Some(e) => {
                        proof {
                            lemma_find_bounds(rest@, think_close());
                            lemma_pieces_closed(r, k as int, e as int);
                        }
                        let m = rest.len();
                        if e > 0 {
                            let thinking = sub_chars(&rest, 0, e);
                            assert(thinking@ =~= rest@.take(e as int));
                            push_piece(&mut v, &thinking, SpanKind::Thinking);
                        }
                        let ghost v2 = pieces_view(v@);
                        assert(v2 == v1 + (if e > 0 {
                            seq![(r.skip(k + 7).take(e as int), SpanKind::Thinking)]
                        } else {
                            Seq::<(Seq<char>, SpanKind)>::empty()
                        }));
                        push_piece(&mut v, &marker, SpanKind::EndMarker);
                        let after = sub_chars(&rest, e + 8, m);
                        assert(after@ =~= r.skip(k + 7).skip(e + 8));
                        assert(think_pieces(text@) =~= pieces_view(v@) + think_pieces(after@));
                        rem = after;
                    },
                }
            },
        }
    }
    if v.len() == 0 {
        let mut one: Vec<(String, SpanKind)> = Vec::new();
        one.push((text.to_string(), SpanKind::Plain));
        assert(pieces_view(one@) =~= seq![(text@, SpanKind::Plain)]);
        return one;
    }
    v
}

/// The total length in bytes of the texts of `c`.
pub open spec fn spans_bytes(c: Seq<(Seq<char>, SpanKind)>) -> nat
    decreases c.len(),
{
    if c.len() == 0 {
        0
    } else {
        spans_bytes(c.drop_last()) + byte_len(c.last().0)
    }
}

/// Lines of pieces being filled: the finished lines and the line being filled.
pub struct WrapState {
    pub lines: Seq<Seq<(Seq<char>, SpanKind)>>,
    pub cur: Seq<(Seq<char>, SpanKind)>,
}

/// Ends the line being filled, if it holds anything.
pub open spec fn flush(st: WrapState) -> WrapState {
    if st.cur.len() > 0 {
        WrapState { lines: st.lines.push(st.cur), cur: Seq::empty() }
    } else {
        st
    }
}

/// Places the word `w` drawn as `kind`: after a space on the current line when that stays
/// within `width` bytes, else at the start of a new line.
pub open spec fn add_word(st: WrapState, w: Seq<char>, kind: SpanKind, width: nat) -> WrapState {
    if st.cur.len() == 0 {
        WrapState { cur: seq![(w, kind)], ..st }
    } else if spans_bytes(st.cur) + 1 + byte_len(w) > width {
        WrapState { lines: st.lines.push(st.cur), cur: seq![(w, kind)] }
    } else {
        WrapState { cur: st.cur.push((seq![' '] + w, kind)), ..st }
    }
}

/// Places the words `ws` in order.
pub open spec fn add_words(st: WrapState, ws: Seq<Seq<char>>, kind: SpanKind, width: nat) -> WrapState
    decreases ws.len(),
{
    if ws.len() == 0 {
        st
    } else {
        add_word(add_words(st, ws.drop_last(), kind, width), ws.last(), kind, width)
    }
}

/// Places the lines `parts` of one piece: each after the first starts a new line.
pub open spec fn add_parts(st: WrapState, parts: Seq<Seq<char>>, kind: SpanKind, width: nat) -> WrapState
    decreases parts.len(),
{
    if parts.len() == 0 {
        st
    } else {
        let s1 = add_parts(st, parts.drop_last(), kind, width);
        let s2 = if parts.len() > 1 {
            flush(s1)
        } else {
            s1
        };
        add_words(s2, words(parts.last()), kind, width)
    }
}

/// Places the pieces `spans` in order, each split at its line breaks.
pub open spec fn add_spans(spans: Seq<(Seq<char>, SpanKind)>, width: nat) -> WrapState
    decreases spans.len(),
{
    if spans.len() == 0 {
        WrapState { lines: Seq::empty(), cur: Seq::empty() }
    } else {
        add_parts(add_spans(spans.drop_last(), width), split_on(spans.last().0, '\n'), spans.last().1, width)
    }
}

/// The pieces `spans` wrapped into lines of at most `width` bytes where the words allow,
/// breaking at line breaks; blank lines are dropped.
pub open spec fn wrapped_spans(spans: Seq<(Seq<char>, SpanKind)>, width: nat) -> Seq<Seq<(Seq<char>, SpanKind)>> {
    let st = add_spans(spans, width);
    if st.cur.len() > 0 {
        st.lines.push(st.cur)
    } else {
        st.lines
    }
}

/// Lines of pieces as text.
pub open spec fn lines_view(v: Seq<Vec<(String, SpanKind)>>) -> Seq<Seq<(Seq<char>, SpanKind)>> {
    v.map_values(|l: Vec<(String, SpanKind)>| pieces_view(l@))
}

/// The state of `wrap_spans` as the contracts see it.
pub open spec fn state_of(lines: Seq<Vec<(String, SpanKind)>>, cur: Seq<(String, SpanKind)>) -> WrapState {
    WrapState { lines: lines_view(lines), cur: pieces_view(cur) }
}

proof fn lemma_space_word_bytes(w: Seq<char>)
    ensures
        byte_len(seq![' '] + w) == 1 + byte_len(w),
{
    lemma_byte_len_concat(seq![' '], w);
    assert(seq![' '].drop_last() =~= Seq::<char>::empty());
    assert(seq![' '].last() == ' ');
    assert((' ' as u32) == 32);
    assert(byte_len(Seq::<char>::empty()) == 0);
}

fn wrap_add_word(
    lines: &mut Vec<Vec<(String, SpanKind)>>,
    cur: &mut Vec<(String, SpanKind)>,
    cur_len: &mut usize,
    w: &Vec<char>,
    kind: SpanKind,
    width: usize,
)
    requires
        4 * w@.len() <= usize::MAX,
        *old(cur_len) == spans_bytes(pieces_view(old(cur)@)),
    ensures
        state_of(final(lines)@, final(cur)@) == add_word(state_of(old(lines)@, old(cur)@), w@, kind, width as nat),
        *final(cur_len) == spans_bytes(pieces_view(final(cur)@)),
{
    proof {
        lemma_byte_len_bound(w@);
    }
    let wlen = byte_length(w);
    let ghost st = state_of(lines@, cur@);
    if cur.len() == 0 {
        push_piece(cur, w, kind);
        assert(pieces_view(cur@) =~= seq![(w@, kind)]);
        assert(spans_bytes(seq![(w@, kind)]) == byte_len(w@)) by {
            assert(seq![(w@, kind)].drop_last() =~= Seq::<(Seq<char>, SpanKind)>::empty());
            assert(seq![(w@, kind)].last() == (w@, kind));
            assert(spans_bytes(Seq::<(Seq<char>, SpanKind)>::empty()) == 0);
        }
        *cur_len = wlen;
    } else if *cur_len >= width || wlen >= width - *cur_len {
        let ghost old_lines = lines@;
        let mut fresh: Vec<(String, SpanKind)> = Vec::new();
        push_piece(&mut fresh, w, kind);
        let mut full = fresh;
        std::mem::swap(cur, &mut full);
        lines.push(full);
        assert(lines_view(lines@) =~= lines_view(old_lines).push(st.cur));
        assert(pieces_view(cur@) =~= seq![(w@, kind)]);
        assert(spans_bytes(seq![(w@, kind)]) == byte_len(w@)) by {
            assert(seq![(w@, kind)].drop_last() =~= Seq::<(Seq<char>, SpanKind)>::empty());
            assert(seq![(w@, kind)].last() == (w@, kind));
            assert(spans_bytes(Seq::<(Seq<char>, SpanKind)>::empty()) == 0);
        }
        *cur_len = wlen;
    } else {
        let mut spaced: Vec<char> = Vec::new();
        spaced.push(' ');
        let mut k: usize = 0;
        while k < w.len()
            invariant
                k <= w@.len(),
                spaced@ == seq![' '] + w@.take(k as int),
            decreases w@.len() - k,
        {
            spaced.push(w[k]);
            assert(w@.take(k + 1) =~= w@.take(k as int).push(w@[k as int]));
            k = k + 1;
        }
        assert(w@.take(w@.len() as int) =~= w@);
        let ghost c0 = pieces_view(cur@);
        push_piece(cur, &spaced, kind);
        proof {
            lemma_space_word_bytes(w@);
            assert(pieces_view(cur@).drop_last() =~= c0);
        }
        *cur_len = *cur_len + 1 + wlen;
    }
}

/// Wraps the pieces of a reply into lines of at most `width` bytes where the words allow:
/// words are separated by single spaces and keep how their piece is drawn, line breaks in
/// a piece start a new line, and blank lines are dropped.
pub fn wrap_spans(spans: &Vec<(String, SpanKind)>, width: usize) -> (lines: Vec<Vec<(String, SpanKind)>>)
    requires
        forall|i: int| 0 <= i < spans@.len() ==> 4 * (#[trigger] spans@[i]).0@.len() <= usize::MAX,
    ensures
        lines_view(lines@) == wrapped_spans(pieces_view(spans@), width as nat),
{
    let ghost sv = pieces_view(spans@);
    let mut lines: Vec<Vec<(String, SpanKind)>> = Vec::new();
    let mut cur: Vec<(String, SpanKind)> = Vec::new();
    let mut cur_len: usize = 0;
    let mut i: usize = 0;
    assert(sv.take(0) =~= Seq::<(Seq<char>, SpanKind)>::empty());
    assert(lines_view(lines@) =~= Seq::<Seq<(Seq<char>, SpanKind)>>::empty());
    assert(pieces_view(cur@) =~= Seq::<(Seq<char>, SpanKind)>::empty());
    assert(state_of(lines@, cur@) == add_spans(sv.take(0), width as nat));
    while i < spans.len()
        invariant
            i <= spans@.len(),
            sv == pieces_view(spans@),
            forall|q: int| 0 <= q < spans@.len() ==> 4 * (#[trigger] spans@[q]).0@.len() <= usize::MAX,
            state_of(lines@, cur@) == add_spans(sv.take(i as int), width as nat),
            cur_len == spans_bytes(pieces_view(cur@)),
        decreases spans@.len() - i,
    {
        let kind = spans[i].1;
        let text = chars_of(spans[i].0.as_str());
        let parts = split_chars(&text, '\n');
        let ghost st0 = state_of(lines@, cur@);
        let ghost ps = split_on(text@, '\n');
        proof {
            lemma_split_on_bounds(text@, '\n');
            assert(sv.take(i + 1).drop_last() =~= sv.take(i as int));
            assert(sv.take(i + 1).last() == (spans@[i as int].0@, kind));
            assert(parts@.map_values(|p: Vec<char>| p@) =~= ps);
        }
        let mut j: usize = 0;
        assert(ps.take(0) =~= Seq::<Seq<char>>::empty());
        while j < parts.len()
            invariant
                j <= parts@.len(),
                parts@.len() == ps.len(),
                forall|q: int| 0 <= q < parts@.len() ==> #[trigger] parts@[q]@ == ps[q],
                text@.len() == spans@[i as int].0@.len(),
                4 * text@.len() <= usize::MAX,
                forall|q: int| 0 <= q < ps.len() ==> (#[trigger] ps[q]).len() <= text@.len(),
                state_of(lines@, cur@) == add_parts(st0, ps.take(j as int), kind, width as nat),
                cur_len == spans_bytes(pieces_view(cur@)),
            decreases parts@.len() - j,
        {
            proof {
                assert(ps.take(j + 1).drop_last() =~= ps.take(j as int));
                assert(ps.take(j + 1).last() == ps[j as int]);
            }
            if j > 0 {
                if cur.len() > 0 {
                    let ghost old_lines = lines@;
                    let ghost old_cur = pieces_view(cur@);
                    let mut full: Vec<(String, SpanKind)> = Vec::new();
                    std::mem::swap(&mut cur, &mut full);
                    lines.push(full);
                    assert(lines_view(lines@) =~= lines_view(old_lines).push(old_cur));
                    assert(pieces_view(cur@) =~= Seq::<(Seq<char>, SpanKind)>::empty());
                    cur_len = 0;
                }
            }
            let ghost st1 = state_of(lines@, cur@);
            let ws = split_words(&parts[j]);
            let ghost wv = words(ps[j as int]);
            proof {
                lemma_words(ps[j as int]);
            }
            let mut t: usize = 0;
            assert(wv.take(0) =~= Seq::<Seq<char>>::empty());
            while t < ws.len()
                invariant
                    t <= ws@.len(),
                    ws@.map_values(|w: Vec<char>| w@) == wv,
                    forall|q: int| 0 <= q < wv.len() ==> (#[trigger] wv[q]).len() <= ps[j as int].len(),
                    ps[j as int].len() <= text@.len(),
                    4 * text@.len() <= usize::MAX,
                    state_of(lines@, cur@) == add_words(st1, wv.take(t as int), kind, width as nat),
                    cur_len == spans_bytes(pieces_view(cur@)),
                decreases ws@.len() - t,
            {
                proof {
                    assert(wv.take(t + 1).drop_last() =~= wv.take(t as int));
                    assert(wv.take(t + 1).last() == wv[t as int]);
                    assert(ws@[t as int]@ == wv[t as int]);
                }
                wrap_add_word(&mut lines, &mut cur, &mut cur_len, &ws[t], kind, width);
                t = t + 1;
            }
            assert(wv.take(wv.len() as int) =~= wv);
            j = j + 1;
        }
        assert(ps.take(ps.len() as int) =~= ps);
        i = i + 1;
    }
    assert(sv.take(sv.len() as int) =~= sv);
    if cur.len() > 0 {
        let ghost old_lines = lines@;
        let ghost old_cur = pieces_view(cur@);
        lines.push(cur);
        assert(lines_view(lines@) =~= lines_view(old_lines).push(old_cur));
    }
    lines
}

proof fn lemma_split_on_bounds(s: Seq<char>, sep: char)
    ensures
        forall|q: int| 0 <= q < split_on(s, sep).len() ==> (#[trigger] split_on(s, sep)[q]).len() <= s.len(),
        split_on(s, sep).len() > 0,
    decreases s.len(),
{
    if s.len() > 0 {
        let p = split_on(s.drop_last(), sep);
        lemma_split_on_bounds(s.drop_last(), sep);
        let r = split_on(s, sep);
        assert forall|q: int| 0 <= q < r.len() implies (#[trigger] r[q]).len() <= s.len() by {
            if q < p.len() && !(s.last() != sep && q == p.len() - 1) {
                assert(r[q] == p[q]);
            }
        }
    }
}

/// The text that ends a streamed reply.
pub open spec fn done_token() -> Seq<char> {
    "DONE"@
}

/// A conversation as it starts generating a reply: nothing received yet.
pub open spec fn generation_started(v: ChatStateView) -> ChatStateView {
    match v {
        ChatStateView::Active(m) => ChatStateView::Active(ChatModel { generating: true, response: Seq::empty(), ..m }),
        ChatStateView::Error(_) => v,
    }
}

/// Marks an active conversation as generating a reply, with nothing received yet.
pub fn start_generation(state: ChatState) -> (r: ChatState)
    ensures
        r@ == generation_started(state@),
{
    match state {
        ChatState::Active { messages, input_buffer, cursor_position, scroll_offset, max_tokens, .. } => ChatState::Active {
            messages,
            input_buffer,
            cursor_position,
            is_generating: true,
            current_response: String::new(),
            scroll_offset,
            max_tokens,
        },
        other => other,
    }
}

/// What a piece of a streamed reply does to the conversation, with `ts` the time a finished
/// reply is stamped with: the end marker `DONE` ends the generation (keeping the reply as a
/// message when it is not empty); any other text is added to the reply.
pub open spec fn token_step(v: ChatStateView, token: Seq<char>, ts: Seq<char>) -> (ChatStateView, bool) {
    match v {
        ChatStateView::Active(m) => if token == done_token() {
            (ChatStateView::Active(stop_generation(m, ts)), true)
        } else {
            (ChatStateView::Active(ChatModel { response: m.response + token, ..m }), false)
        },
        ChatStateView::Error(_) => (v, false),
    }
}

/// Takes in one piece of a streamed reply; says whether the reply is finished.
pub fn receive_token(state: ChatState, token: &str) -> (r: (ChatState, bool))
    ensures
        exists|ts: Seq<char>| #[trigger] is_clock_text(ts) && token_step(state@, token@, ts) == (r.0@, r.1),
{
    let ghost v = state@;
    let ghost mut ts = midnight();
    proof {
        lemma_midnight();
    }
    let done = "DONE".to_string();
    let tok = token.to_string();
    match state {
        ChatState::Active {
            mut messages,
            input_buffer,
            cursor_position,
            is_generating,
            current_response,
            scroll_offset,
            max_tokens,
        } => {
            if tok == done {
                if current_response.as_str().is_empty() == false {
                    let role = "assistant".to_string();
                    proof {
                        reveal_strlit("assistant");
                    }
                    let msg = ChatMessage { role, content: current_response.clone(), timestamp: local_time_hhmm() };
                    proof {
                        ts = msg.timestamp@;
                        lemma_push_view(messages@, msg);
                        assert(msg.role@ =~= role_assistant());
                    }
                    messages.push_back(msg);
                }
                let st = ChatState::Active {
                    messages,
                    input_buffer,
                    cursor_position,
                    is_generating: false,
                    current_response: String::new(),
                    scroll_offset,
                    max_tokens,
                };
                assert(is_clock_text(ts) && token_step(v, token@, ts) == (st@, true));
                (st, true)
            } else {
                let mut response = current_response;
                crate::views::menu::push_text(&mut response, token);
                let st = ChatState::Active {
                    messages,
                    input_buffer,
                    cursor_position,
                    is_generating,
                    current_response: response,
                    scroll_offset,
                    max_tokens,
                };
                assert(is_clock_text(ts) && token_step(v, token@, ts) == (st@, false));
                (st, false)
            }
        },
        other => {
            assert(is_clock_text(ts) && token_step(v, token@, ts) == (other@, false));
            (other, false)
        },
    }
}


/// Taking a line out of a buffer loses nothing: the line, the `\n` and what stays in the
/// buffer make up the buffer as it was, and the line holds no `\n`.
pub proof fn lemma_take_line_rebuild(buffer: Seq<char>)
    ensures
        find_seq(buffer, seq!['\n']) matches Some(k) ==> {
            &&& buffer == buffer.take(k) + seq!['\n'] + buffer.skip(k + 1)
            &&& !buffer.take(k).contains('\n')
        },
{
    if let Some(k) = find_seq(buffer, seq!['\n']) {
        let c = choose|i: int| first_occurrence(buffer, seq!['\n'], i);
        assert(first_occurrence(buffer, seq!['\n'], c));
        assert(k == c);
        assert(buffer.subrange(k, k + 1) == seq!['\n']);
        assert(buffer[k] == buffer.subrange(k, k + 1)[0]);
        assert(buffer =~= buffer.take(k) + seq!['\n'] + buffer.skip(k + 1));
        if buffer.take(k).contains('\n') {
            let j = choose|j: int| 0 <= j < buffer.take(k).len() && buffer.take(k)[j] == '\n';
            assert(buffer.subrange(j, j + 1) =~= seq!['\n']);
            assert(occurs_at(buffer, seq!['\n'], j));
        }
    }
}

} // verus!
