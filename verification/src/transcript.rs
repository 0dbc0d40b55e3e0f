//! The lines of a drawn conversation: for each message a header, its text wrapped to the
//! width and a blank line; then the reply being generated, if any.
use vstd::prelude::*;

use std::collections::VecDeque;

use crate::chat::{
    end_marker, lemma_think_spans_short, lines_view, message_view, messages_view, pieces_short,
    pieces_view, role_assistant, think_spans, think_spans_of, wrap_spans, wrap_text, wrapped,
    wrapped_spans, ChatMessage, SpanKind,
};
use crate::text::{chars_of, lemma_split_nonempty, split_chars, split_on, string_of, sub_chars};

verus! {

broadcast use vstd::string::group_string_axioms;

/// One line of the drawn conversation.
#[derive(Debug, Clone, PartialEq)]
pub enum ConversationLine {
    /// A message's header: its time stamp and its role (drawn upper-cased).
    Header { timestamp: String, role: String },
    /// The header of the reply being generated, stamped with the time it is drawn.
    ReplyHeader,
    /// A line of an assistant reply, as styled pieces.
    Pieces(Vec<(String, SpanKind)>),
    /// A line of any other message's text.
    Text(String),
    /// The blank line after a message.
    Blank,
    /// The marker after a reply still being generated.
    Cursor,
}

/// A line of the drawn conversation as the contracts see it.
pub enum LineView {
    Header(Seq<char>, Seq<char>),
    ReplyHeader,
    Pieces(Seq<(Seq<char>, SpanKind)>),
    Text(Seq<char>),
    Blank,
    Cursor,
}

impl View for ConversationLine {
    type V = LineView;

    open spec fn view(&self) -> LineView {
        match self {
            ConversationLine::Header { timestamp, role } => LineView::Header(timestamp@, role@),
            ConversationLine::ReplyHeader => LineView::ReplyHeader,
            ConversationLine::Pieces(p) => LineView::Pieces(pieces_view(p@)),
            ConversationLine::Text(t) => LineView::Text(t@),
            ConversationLine::Blank => LineView::Blank,
            ConversationLine::Cursor => LineView::Cursor,
        }
    }
}

/// The lines as the contracts see them.
pub open spec fn lines_of(v: Seq<ConversationLine>) -> Seq<LineView> {
    v.map_values(|l: ConversationLine| l@)
}

/// `l` without one trailing carriage return.
pub open spec fn strip_cr(l: Seq<char>) -> Seq<char> {
    if l.len() > 0 && l.last() == '\r' {
        l.drop_last()
    } else {
        l
    }
}

/// The lines of `s` (`str::lines`): split at `\n`, each `\r\n` ending counting as one;
/// a final line ending adds no empty line, and the empty text has no lines.
pub open spec fn text_lines(s: Seq<char>) -> Seq<Seq<char>> {
    let p = split_on(s, '\n');
    let ended = p.drop_last().map_values(|l: Seq<char>| strip_cr(l));
    if p.last().len() > 0 {
        ended.push(p.last())
    } else {
        ended
    }
}

/// The drawn lines of one line of text: an empty line stays empty, any other is wrapped.
pub open spec fn text_line_block(l: Seq<char>, width: nat) -> Seq<LineView> {
    if l.len() == 0 {
        seq![LineView::Text(Seq::empty())]
    } else {
        wrapped(l, width).map_values(|w: Seq<char>| LineView::Text(w))
    }
}

/// The drawn lines of the lines of text `ls`.
pub open spec fn text_block(ls: Seq<Seq<char>>, width: nat) -> Seq<LineView>
    decreases ls.len(),
{
    if ls.len() == 0 {
        Seq::empty()
    } else {
        text_block(ls.drop_last(), width) + text_line_block(ls.last(), width)
    }
}

/// The drawn lines of a reply: its pieces wrapped to the width.
pub open spec fn reply_block(text: Seq<char>, width: nat) -> Seq<LineView> {
    wrapped_spans(think_spans_of(text), width).map_values(
        |l: Seq<(Seq<char>, SpanKind)>| LineView::Pieces(l),
    )
}

/// The drawn lines of a message `(role, content, timestamp)`: its header, its content
/// (an assistant's as styled pieces, any other's line by line) and a blank line.
pub open spec fn message_block(m: (Seq<char>, Seq<char>, Seq<char>), width: nat) -> Seq<LineView> {
    seq![LineView::Header(m.2, m.0)] + (if m.0 == role_assistant() {
        reply_block(m.1, width)
    } else {
        text_block(text_lines(m.1), width)
    }) + seq![LineView::Blank]
}

/// The drawn lines of the messages `ms`, in order.
pub open spec fn messages_block(ms: Seq<(Seq<char>, Seq<char>, Seq<char>)>, width: nat) -> Seq<LineView>
    decreases ms.len(),
{
    if ms.len() == 0 {
        Seq::empty()
    } else {
        messages_block(ms.drop_last(), width) + message_block(ms.last(), width)
    }
}

/// The drawn conversation: the messages, then, while a reply is generated or one has
/// text, its header, its lines and (while generating) the cursor.
pub open spec fn transcript(
    ms: Seq<(Seq<char>, Seq<char>, Seq<char>)>,
    generating: bool,
    response: Seq<char>,
    width: nat,
) -> Seq<LineView> {
    messages_block(ms, width) + if generating || response.len() > 0 {
        seq![LineView::ReplyHeader] + reply_block(response, width) + if generating {
            seq![LineView::Cursor]
        } else {
            Seq::empty()
        }
    } else {
        Seq::empty()
    }
}

fn push_line(out: &mut Vec<ConversationLine>, l: ConversationLine)
    ensures
        lines_of(final(out)@) == lines_of(old(out)@).push(l@),
{
    let ghost before = out@;
    out.push(l);
    assert(lines_of(out@) =~= lines_of(before).push(l@));
}

/// Appends the lines of a reply.
fn push_reply(out: &mut Vec<ConversationLine>, text: &str, width: usize)
    requires
        4 * text@.len() <= usize::MAX,
    ensures
        lines_of(final(out)@) == lines_of(old(out)@) + reply_block(text@, width as nat),
{
    let spans = think_spans(text);
    proof {
        lemma_think_spans_short(text@);
        assert forall|i: int| 0 <= i < spans@.len() implies 4 * (#[trigger] spans@[i]).0@.len() <= usize::MAX by {
            assert(pieces_view(spans@)[i] == (spans@[i].0@, spans@[i].1));
            assert(pieces_short(think_spans_of(text@), text@.len()));
            assert(think_spans_of(text@)[i].0.len() <= text@.len() || think_spans_of(text@)[i].0 == end_marker());
        }
    }
    let mut wl = wrap_spans(&spans, width);
    let ghost all = lines_view(wl@);
    let ghost start = lines_of(out@);
    let ghost blk = all.map_values(|l: Seq<(Seq<char>, SpanKind)>| LineView::Pieces(l));
    let n = wl.len();
    let mut k: usize = 0;
    while k < n
        invariant
            k <= n,
            n == all.len(),
            lines_view(wl@) == all.skip(k as int),
            blk == all.map_values(|l: Seq<(Seq<char>, SpanKind)>| LineView::Pieces(l)),
            lines_of(out@) == start + blk.take(k as int),
        decreases n - k,
    {
        assert(lines_view(wl@).len() == wl@.len());
        assert(wl@.len() == n - k);
        let ghost old_wl = wl@;
        let l = wl.remove(0);
        proof {
            assert(lines_view(old_wl)[0] == pieces_view(old_wl[0]@));
            assert(all.skip(k as int)[0] == pieces_view(l@));
            assert forall|j: int| 0 <= j < wl@.len() implies lines_view(wl@)[j] == all.skip(k + 1)[j] by {
                assert(wl@[j] == old_wl[j + 1]);
                assert(lines_view(old_wl)[j + 1] == pieces_view(old_wl[j + 1]@));
                assert(all.skip(k as int)[j + 1] == all[k + 1 + j]);
            }
            assert(lines_view(wl@) =~= all.skip(k + 1));
        }
        push_line(out, ConversationLine::Pieces(l));
        assert(start + blk.take(k + 1) =~= (start + blk.take(k as int)).push(blk[k as int]));
        k = k + 1;
    }
    assert(blk.take(n as int) =~= blk);
}

/// Strings as text.
pub open spec fn strings_view(v: Seq<String>) -> Seq<Seq<char>> {
    v.map_values(|l: String| l@)
}

/// Appends the drawn lines of one line of text.
fn push_text_line(out: &mut Vec<ConversationLine>, line: &Vec<char>, width: usize)
    requires
        4 * line@.len() <= usize::MAX,
    ensures
        lines_of(final(out)@) == lines_of(old(out)@) + text_line_block(line@, width as nat),
{
    let ghost start = lines_of(out@);
    if line.len() == 0 {
        push_line(out, ConversationLine::Text(String::new()));
        assert(start.push(LineView::Text(Seq::empty())) =~= start + text_line_block(line@, width as nat));
        return;
    }
    let s = string_of(line);
    let mut ws = wrap_text(s.as_str(), width);
    let ghost all = wrapped(line@, width as nat);
    let ghost blk = all.map_values(|w: Seq<char>| LineView::Text(w));
    let n = ws.len();
    let mut k: usize = 0;
    while k < n
        invariant
            k <= n,
            n == all.len(),
            strings_view(ws@) == all.skip(k as int),
            blk == all.map_values(|w: Seq<char>| LineView::Text(w)),
            lines_of(out@) == start + blk.take(k as int),
        decreases n - k,
    {
        assert(strings_view(ws@).len() == ws@.len());
        assert(ws@.len() == n - k);
        let ghost old_ws = ws@;
        let w = ws.remove(0);
        proof {
            assert(strings_view(old_ws)[0] == old_ws[0]@);
            assert(all.skip(k as int)[0] == w@);
            assert forall|j: int| 0 <= j < ws@.len() implies #[trigger] strings_view(ws@)[j] == all.skip(k + 1)[j] by {
                assert(ws@[j] == old_ws[j + 1]);
                assert(strings_view(old_ws)[j + 1] == old_ws[j + 1]@);
                assert(all.skip(k as int)[j + 1] == all[k + 1 + j]);
            }
            assert(strings_view(ws@) =~= all.skip(k + 1));
        }
        push_line(out, ConversationLine::Text(w));
        assert(start + blk.take(k + 1) =~= (start + blk.take(k as int)).push(blk[k as int]));
        k = k + 1;
    }
    assert(blk.take(n as int) =~= blk);
}

/// The lines of `cs` (`str::lines`).
fn split_text_lines(cs: &Vec<char>) -> (ls: Vec<Vec<char>>)
    ensures
        ls@.map_values(|l: Vec<char>| l@) == text_lines(cs@),
        forall|i: int| 0 <= i < ls@.len() ==> (#[trigger] ls@[i])@.len() <= cs@.len(),
{
    let parts = split_chars(cs, '\n');
    let ghost p = split_on(cs@, '\n');
    proof {
        lemma_split_nonempty(cs@, '\n');
        lemma_split_pieces_short(cs@, '\n');
    }
    let n = parts.len();
    let ghost ended = p.drop_last().map_values(|l: Seq<char>| strip_cr(l));
    let mut ls: Vec<Vec<char>> = Vec::new();
    let mut i: usize = 0;
    while i + 1 < n
        invariant
            n == p.len(),
            n >= 1,
            i + 1 <= n,
            parts@.len() == n,
            forall|k: int| 0 <= k < n ==> #[trigger] parts@[k]@ == p[k],
            forall|k: int| 0 <= k < n ==> (#[trigger] p[k]).len() <= cs@.len(),
            ended == p.drop_last().map_values(|l: Seq<char>| strip_cr(l)),
            ls@.map_values(|l: Vec<char>| l@) == ended.take(i as int),
            forall|k: int| 0 <= k < ls@.len() ==> (#[trigger] ls@[k])@.len() <= cs@.len(),
        decreases n - i,
    {
        let part = &parts[i];
        let m = part.len();
        let end = if m > 0 && part[m - 1] == '\r' {
            m - 1
        } else {
            m
        };
        let piece = sub_chars(part, 0, end);
        proof {
            assert(part@ == p[i as int]);
            if m > 0 && part@[m - 1] == '\r' {
                assert(piece@ =~= p[i as int].drop_last());
            } else {
                assert(piece@ =~= p[i as int]);
            }
            assert(piece@ == strip_cr(p[i as int]));
            assert(ended[i as int] == strip_cr(p.drop_last()[i as int]));
            assert(p.drop_last()[i as int] == p[i as int]);
        }
        let ghost before = ls@;
        ls.push(piece);
        assert(ls@.map_values(|l: Vec<char>| l@) =~= before.map_values(|l: Vec<char>| l@).push(piece@));
        assert(ended.take(i + 1) =~= ended.take(i as int).push(ended[i as int]));
        i = i + 1;
    }
    assert(ended.take(i as int) =~= ended);
    let last = &parts[n - 1];
    assert(last@ == p.last());
    if last.len() > 0 {
        let piece = sub_chars(last, 0, last.len());
        assert(piece@ =~= p.last());
        let ghost before = ls@;
        ls.push(piece);
        assert(ls@.map_values(|l: Vec<char>| l@) =~= before.map_values(|l: Vec<char>| l@).push(piece@));
    }
    ls
}

proof fn lemma_split_pieces_short(s: Seq<char>, c: char)
    ensures
        forall|k: int| 0 <= k < split_on(s, c).len() ==> (#[trigger] split_on(s, c)[k]).len() <= s.len(),
    decreases s.len(),
{
    if s.len() > 0 {
        lemma_split_pieces_short(s.drop_last(), c);
        lemma_split_nonempty(s.drop_last(), c);
    }
}

/// Appends the drawn lines of one message.
fn push_message(out: &mut Vec<ConversationLine>, m: &ChatMessage, width: usize)
    requires
        4 * m.content@.len() <= usize::MAX,
    ensures
        lines_of(final(out)@) == lines_of(old(out)@) + message_block(message_view(*m), width as nat),
{
    let ghost start = lines_of(out@);
    let ghost mv = message_view(*m);
    push_line(out, ConversationLine::Header { timestamp: m.timestamp.clone(), role: m.role.clone() });
    let ghost after_header = lines_of(out@);
    let assistant = "assistant".to_string();
    proof {
        reveal_strlit("assistant");
        assert(assistant@ =~= role_assistant());
    }
    if m.role == assistant {
        push_reply(out, m.content.as_str(), width);
    } else {
        let cs = chars_of(m.content.as_str());
        let ls = split_text_lines(&cs);
        let ghost lv = ls@.map_values(|l: Vec<char>| l@);
        let n = ls.len();
        let mut i: usize = 0;
        while i < n
            invariant
                i <= n,
                n == ls@.len(),
                lv == ls@.map_values(|l: Vec<char>| l@),
                cs@ == m.content@,
                4 * cs@.len() <= usize::MAX,
                forall|k: int| 0 <= k < ls@.len() ==> (#[trigger] ls@[k])@.len() <= cs@.len(),
                lines_of(out@) == after_header + text_block(lv.take(i as int), width as nat),
            decreases n - i,
        {
            assert(ls@[i as int]@.len() <= cs@.len());
            push_text_line(out, &ls[i], width);
            assert(lv.take(i + 1).drop_last() =~= lv.take(i as int));
            assert(lv.take(i + 1).last() == ls@[i as int]@);
            i = i + 1;
        }
        assert(lv.take(n as int) =~= lv);
    }
    push_line(out, ConversationLine::Blank);
    assert(lines_of(out@) =~= start + message_block(mv, width as nat));
}

/// The lines of the conversation `messages` drawn `width` bytes wide, followed by the
/// reply being generated (`current_response`) while `is_generating` or while it has text.
pub fn conversation_lines(
    messages: &VecDeque<ChatMessage>,
    is_generating: bool,
    current_response: &str,
    width: usize,
) -> (lines: Vec<ConversationLine>)
    requires
        forall|i: int| 0 <= i < messages@.len() ==> 4 * (#[trigger] messages@[i]).content@.len() <= usize::MAX,
        4 * current_response@.len() <= usize::MAX,
    ensures
        lines_of(lines@) == transcript(messages_view(messages@), is_generating, current_response@, width as nat),
{
    let ghost mv = messages_view(messages@);
    let mut out: Vec<ConversationLine> = Vec::new();
    let mut i: usize = 0;
    assert(lines_of(out@) =~= Seq::<LineView>::empty());
    while i < messages.len()
        invariant
            i <= messages@.len(),
            mv == messages_view(messages@),
            forall|k: int| 0 <= k < messages@.len() ==> 4 * (#[trigger] messages@[k]).content@.len() <= usize::MAX,
            lines_of(out@) == messages_block(mv.take(i as int), width as nat),
        decreases messages@.len() - i,
    {
        let m = &messages[i];
        proof {
            assert(mv.take(i + 1).drop_last() =~= mv.take(i as int));
            assert(mv.take(i + 1).last() == message_view(*m));
        }
        push_message(&mut out, m, width);
        i = i + 1;
    }
    assert(mv.take(mv.len() as int) =~= mv);
    let ghost base = lines_of(out@);
    assert(base == messages_block(mv, width as nat));
    if is_generating || !current_response.is_empty() {
        push_line(&mut out, ConversationLine::ReplyHeader);
        push_reply(&mut out, current_response, width);
        let ghost r = reply_block(current_response@, width as nat);
        assert(lines_of(out@) == base.push(LineView::ReplyHeader) + r);
        if is_generating {
            push_line(&mut out, ConversationLine::Cursor);
            assert(lines_of(out@) =~= base + (seq![LineView::ReplyHeader] + r + seq![LineView::Cursor]));
        } else {
            assert(lines_of(out@) =~= base + (seq![LineView::ReplyHeader] + r + Seq::<LineView>::empty()));
        }
    } else {
        assert(lines_of(out@) =~= base + Seq::<LineView>::empty());
    }
    assert(lines_of(out@) =~= transcript(mv, is_generating, current_response@, width as nat));
    out
}

} // verus!
