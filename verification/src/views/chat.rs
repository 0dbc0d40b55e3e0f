use vstd::prelude::*;

use crate::clock::{is_clock_text, local_time_hhmm};
use crate::text::{chars_of, find_chars, find_seq, first_occurrence, occurs_at, string_of, sub_chars};

verus! {

broadcast use vstd::string::group_string_axioms;

/// One message of a conversation.
#[derive(Debug)]
pub struct ChatMessage {
    pub role: String,
    pub content: String,
    pub timestamp: String,
}

/// The text `user`.
pub open spec fn role_user() -> Seq<char> {
    seq!['u', 's', 'e', 'r']
}

/// The text `assistant`.
pub open spec fn role_assistant() -> Seq<char> {
    seq!['a', 's', 's', 'i', 's', 't', 'a', 'n', 't']
}

/// The text `system`.
pub open spec fn role_system() -> Seq<char> {
    seq!['s', 'y', 's', 't', 'e', 'm']
}

impl ChatMessage {
    /// A message written by the user now.
    pub fn new_user(content: &str) -> (m: ChatMessage)
        ensures
            m.role@ == role_user(),
            m.content@ == content@,
            is_clock_text(m.timestamp@),
    {
        let role = "user".to_string();
        proof {
            reveal_strlit("user");
        }
        ChatMessage { role, content: content.to_string(), timestamp: local_time_hhmm() }
    }

    /// A message written by the assistant now.
    pub fn new_assistant(content: &str) -> (m: ChatMessage)
        ensures
            m.role@ == role_assistant(),
            m.content@ == content@,
            is_clock_text(m.timestamp@),
    {
        let role = "assistant".to_string();
        proof {
            reveal_strlit("assistant");
        }
        ChatMessage { role, content: content.to_string(), timestamp: local_time_hhmm() }
    }
}

/// A message as the chat completion API takes it.
#[derive(Debug)]
pub struct ApiMessage {
    pub role: String,
    pub content: String,
}

impl ApiMessage {
    /// The role and content of `msg`, without its timestamp.
    pub fn from_message(msg: &ChatMessage) -> (m: ApiMessage)
        ensures
            m.role@ == msg.role@,
            m.content@ == msg.content@,
    {
        ApiMessage { role: msg.role.clone(), content: msg.content.clone() }
    }
}

/// One server-sent chunk of a streamed chat completion.
#[derive(Debug)]
pub struct StreamChunk {
    pub id: String,
    pub object: String,
    pub created: u64,
    pub model: String,
    pub choices: Vec<StreamChoice>,
}

/// One choice of a streamed chunk.
#[derive(Debug)]
pub struct StreamChoice {
    pub index: usize,
    pub delta: StreamDelta,
    pub finish_reason: Option<String>,
}

/// The new text of a streamed choice.
#[derive(Debug)]
pub struct StreamDelta {
    pub role: Option<String>,
    pub content: Option<String>,
}

/// The text `<think>`.
pub open spec fn think_open() -> Seq<char> {
    seq!['<', 't', 'h', 'i', 'n', 'k', '>']
}

/// The text `</think>`.
pub open spec fn think_close() -> Seq<char> {
    seq!['<', '/', 't', 'h', 'i', 'n', 'k', '>']
}

/// How a reply splits around its reasoning: the text before the first `<think>`, the
/// text between it and the first `</think>` after it, and the text after that.
/// Without `<think>` everything is "after"; with an unclosed `<think>` the rest is "after".
pub open spec fn think_parts(t: Seq<char>) -> (Seq<char>, Seq<char>, Seq<char>) {
    match find_seq(t, think_open()) {
        None => (Seq::empty(), Seq::empty(), t),
        Some(k) => {
            let rest = t.skip(k + 7);
            match find_seq(rest, think_close()) {
                Some(e) => (t.take(k), rest.take(e), rest.skip(e + 8)),
                None => (t.take(k), Seq::empty(), rest),
            }
        },
    }
}

/// Splits `text` into `(before_think, thinking, after_think)` around `<think>` tags.
pub fn parse_think_tags(text: &str) -> (r: (String, String, String))
    ensures
        (r.0@, r.1@, r.2@) == think_parts(text@),
{
    let t = chars_of(text);
    let open = chars_of("<think>");
    let close = chars_of("</think>");
    proof {
        reveal_strlit("<think>");
        reveal_strlit("</think>");
        assert(open@ =~= think_open());
        assert(close@ =~= think_close());
    }
    match find_chars(&t, &open) {
        None => (String::new(), String::new(), string_of(&t)),
        Some(k) => {
            assert(occurs_at(t@, open@, k as int));
            let n = t.len();
            assert(k + 7 <= n);
            let before = sub_chars(&t, 0, k);
            let rest = sub_chars(&t, k + 7, n);
            assert(rest@ =~= t@.skip(k + 7));
            assert(before@ =~= t@.take(k as int));
            match find_chars(&rest, &close) {
                Some(e) => {
                    assert(occurs_at(rest@, close@, e as int));
                    let m = rest.len();
                    assert(e + 8 <= m);
                    let thinking = sub_chars(&rest, 0, e);
                    let after = sub_chars(&rest, e + 8, m);
                    assert(thinking@ =~= rest@.take(e as int));
                    assert(after@ =~= rest@.skip(e + 8));
                    (string_of(&before), string_of(&thinking), string_of(&after))
                },
                None => (string_of(&before), String::new(), string_of(&rest)),
            }
        },
    }
}


/// Splitting a reply loses nothing: without `<think>` the reply is all "after"; with a
/// closed block the reply is "before", `<think>`, the reasoning, `</think>` and "after";
/// with an unclosed block it is "before", `<think>` and "after".
pub proof fn lemma_think_parts_rebuild(t: Seq<char>)
    ensures
        find_seq(t, think_open()) is None ==> think_parts(t) == (Seq::<char>::empty(), Seq::<char>::empty(), t),
        find_seq(t, think_open()) is Some ==> {
            let (b, m, a) = think_parts(t);
            let rest = t.skip(b.len() as int + 7);
            if find_seq(rest, think_close()) is Some {
                t == b + think_open() + m + think_close() + a
            } else {
                m.len() == 0 && t == b + think_open() + a
            }
        },
{
    if let Some(k) = find_seq(t, think_open()) {
        let c = choose|i: int| first_occurrence(t, think_open(), i);
        assert(first_occurrence(t, think_open(), c));
        assert(k == c);
        let rest = t.skip(k + 7);
        assert(t.take(k).len() == k);
        assert(t.subrange(k, k + 7) == think_open());
        if let Some(e) = find_seq(rest, think_close()) {
            let d = choose|i: int| first_occurrence(rest, think_close(), i);
            assert(first_occurrence(rest, think_close(), d));
            assert(e == d);
            assert(rest.subrange(e, e + 8) == think_close());
            assert(t =~= t.take(k) + think_open() + rest.take(e) + think_close() + rest.skip(e + 8));
        } else {
            assert(t =~= t.take(k) + think_open() + rest);
        }
    }
}

} // verus!
