use vstd::prelude::*;

use std::time::Duration;

use crate::chat::{byte_len, byte_length, char_utf8_len, utf8_len};
use crate::text::{chars_of, string_of};

verus! {

broadcast use vstd::string::group_string_axioms;

/// Milliseconds per step of the sliding text; the higher, the slower it slides.
pub const SLIDING_TEXT_OFFSET_MILLIS: usize = 500;

/// Whether `off` bytes into `s` is the start of a character (or the end of `s`).
pub open spec fn on_boundary(s: Seq<char>, off: nat) -> bool {
    exists|k: int| 0 <= k <= s.len() && #[trigger] byte_len(s.take(k)) == off
}

/// The byte offset at which the text starts after `millis` milliseconds.
pub open spec fn sliding_offset(s: Seq<char>, millis: nat) -> nat {
    ((millis / 500) % byte_len(s)) as nat
}

/// The text of a sliding window `window` characters wide over `s`, `millis` milliseconds in:
/// all of `s` when it fits (its length in bytes counted against the width); otherwise `s`
/// rotated to start `sliding_offset` bytes in, the wrapped-around part after a space, cut
/// to the width.
pub open spec fn sliding_text(s: Seq<char>, millis: nat, window: nat) -> Seq<char> {
    if byte_len(s) <= window {
        s
    } else {
        let k = choose|k: int| 0 <= k <= s.len() && #[trigger] byte_len(s.take(k)) == sliding_offset(s, millis);
        let rotated = s.skip(k) + seq![' '] + s.take(k);
        rotated.take(if window <= rotated.len() { window as int } else { rotated.len() as int })
    }
}

proof fn lemma_byte_len_take_mono(s: Seq<char>, i: int, j: int)
    requires
        0 <= i < j <= s.len(),
    ensures
        byte_len(s.take(i)) < byte_len(s.take(j)),
    decreases j - i,
{
    assert(s.take(j).drop_last() =~= s.take(j - 1));
    if i < j - 1 {
        lemma_byte_len_take_mono(s, i, j - 1);
    }
}

/// The sliding window over `full_text` after `millis` milliseconds.
pub fn sliding_text_at(millis: usize, full_text: &str, window_size: usize) -> (r: String)
    requires
        4 * full_text@.len() <= usize::MAX,
        byte_len(full_text@) > window_size ==> on_boundary(
            full_text@,
            sliding_offset(full_text@, millis as nat),
        ),
    ensures
        r@ == sliding_text(full_text@, millis as nat, window_size as nat),
{
    let cs = chars_of(full_text);
    let bytes = byte_length(&cs);
    if bytes <= window_size {
        return full_text.to_string();
    }
    let off = (millis / SLIDING_TEXT_OFFSET_MILLIS) % bytes;
    let ghost s = cs@;
    let ghost kk = choose|k: int| 0 <= k <= s.len() && #[trigger] byte_len(s.take(k)) == off;
    let mut k: usize = 0;
    let mut acc: usize = 0;
    while acc < off
        invariant
            s == cs@,
            s == full_text@,
            4 * s.len() <= usize::MAX,
            0 <= kk <= s.len(),
            byte_len(s.take(kk)) == off,
            k <= kk,
            acc == byte_len(s.take(k as int)),
        decreases kk - k,
    {
        proof {
            assert(k != kk);
            lemma_byte_len_take_mono(s, k as int, kk);
            assert(s.take(k + 1).drop_last() =~= s.take(k as int));
            assert(byte_len(s.take(k + 1)) == acc + utf8_len(s[k as int]));
            if k + 1 < kk {
                lemma_byte_len_take_mono(s, k + 1, kk);
            }
            assert(byte_len(s.take(k + 1)) <= off);
        }
        assert(k < cs.len());
        acc = acc + char_utf8_len(cs[k]);
        k = k + 1;
        proof {
            if (k as int) < kk {
                lemma_byte_len_take_mono(s, k as int, kk);
            }
        }
    }
    proof {
        if (k as int) < kk {
            lemma_byte_len_take_mono(s, k as int, kk);
        }
        assert(k == kk);
    }
    let n = cs.len();
    let mut rotated: Vec<char> = Vec::new();
    let mut i: usize = k;
    while i < n
        invariant
            k <= i <= n,
            n == s.len(),
            s == cs@,
            rotated@ == s.subrange(k as int, i as int),
        decreases n - i,
    {
        rotated.push(cs[i]);
        i = i + 1;
    }
    rotated.push(' ');
    let mut j: usize = 0;
    while j < k
        invariant
            j <= k <= n,
            n == s.len(),
            s == cs@,
            rotated@ == s.skip(k as int) + seq![' '] + s.take(j as int),
        decreases k - j,
    {
        proof {
            assert(s.take(j + 1) =~= s.take(j as int).push(s[j as int]));
        }
        rotated.push(cs[j]);
        j = j + 1;
    }
    let total = rotated.len();
    let w = if window_size <= total {
        window_size
    } else {
        total
    };
    let mut out: Vec<char> = Vec::new();
    let mut t: usize = 0;
    while t < w
        invariant
            t <= w <= rotated@.len(),
            out@ == rotated@.take(t as int),
        decreases w - t,
    {
        out.push(rotated[t]);
        assert(rotated@.take(t + 1) =~= rotated@.take(t as int).push(rotated@[t as int]));
        t = t + 1;
    }
    proof {
        let rot = s.skip(kk) + seq![' '] + s.take(kk);
        assert(rotated@ =~= rot);
    }
    string_of(&out)
}

/// How many whole milliseconds the duration `d` holds, as `Duration::as_millis` counts them.
pub uninterp spec fn duration_millis(d: Duration) -> u128;

/// `Duration::as_millis`: the whole milliseconds that `d` holds.
/// Claimed: the result is `duration_millis(d)`, a function of `d` alone.
#[verifier::external_body]
fn elapsed_millis(d: &Duration) -> (m: u128)
    ensures
        m == duration_millis(*d),
{
    d.as_millis()
}

/// The milliseconds that `duration` holds, cut to `usize` as the sliding text counts them.
pub open spec fn sliding_millis(duration: Duration) -> nat {
    (duration_millis(duration) as usize) as nat
}

/// The sliding window over `full_text` after `duration`: the text steps one byte every
/// 500 ms and wraps around after a space.
///
/// Where the text is wider than the window, the byte offset reached must start a character.
pub fn get_sliding_text(duration: Duration, full_text: &str, window_size: usize) -> (r: String)
    requires
        4 * full_text@.len() <= usize::MAX,
        byte_len(full_text@) > window_size ==> on_boundary(
            full_text@,
            sliding_offset(full_text@, sliding_millis(duration)),
        ),
    ensures
        r@ == sliding_text(full_text@, sliding_millis(duration), window_size as nat),
{
    let m = elapsed_millis(&duration);
    #[verifier::truncate]
    let millis = m as usize;
    sliding_text_at(millis, full_text, window_size)
}

/// Whether `off` bytes into the characters `cs` is the start of a character (or their end).
fn starts_char(cs: &Vec<char>, off: usize) -> (b: bool)
    requires
        4 * cs@.len() <= usize::MAX,
    ensures
        b == on_boundary(cs@, off as nat),
{
    let ghost s = cs@;
    let n = cs.len();
    let mut k: usize = 0;
    let mut acc: usize = 0;
    while k < n && acc < off
        invariant
            s == cs@,
            n == s.len(),
            4 * s.len() <= usize::MAX,
            k <= n,
            acc == byte_len(s.take(k as int)),
            acc <= 4 * k,
            forall|j: int| 0 <= j < k ==> #[trigger] byte_len(s.take(j)) < off,
        decreases n - k,
    {
        proof {
            assert(s.take(k + 1).drop_last() =~= s.take(k as int));
            lemma_byte_len_take_mono(s, k as int, k + 1);
        }
        acc = acc + char_utf8_len(cs[k]);
        k = k + 1;
    }
    proof {
        if acc != off {
            assert forall|j: int| 0 <= j <= s.len() implies #[trigger] byte_len(s.take(j)) != off by {
                if j < k {
                } else if j > k {
                    lemma_byte_len_take_mono(s, k as int, j);
                    if acc < off {
                        assert(k == n);
                    }
                }
            }
        } else {
            assert(byte_len(s.take(k as int)) == off);
        }
    }
    acc == off
}

/// The sliding window over `full_text` after `duration`, or `None` where the text is wider
/// than the window and the byte offset reached falls inside a character (where
/// `get_sliding_text` has no result).
pub fn sliding_text_checked(duration: Duration, full_text: &str, window_size: usize) -> (r: Option<String>)
    requires
        4 * full_text@.len() <= usize::MAX,
    ensures
        match r {
            Some(t) => t@ == sliding_text(full_text@, sliding_millis(duration), window_size as nat),
            None => byte_len(full_text@) > window_size && !on_boundary(
                full_text@,
                sliding_offset(full_text@, sliding_millis(duration)),
            ),
        },
{
    let cs = chars_of(full_text);
    let bytes = byte_length(&cs);
    if bytes > window_size {
        let m = elapsed_millis(&duration);
        #[verifier::truncate]
        let millis = m as usize;
        let off = (millis / SLIDING_TEXT_OFFSET_MILLIS) % bytes;
        if !starts_char(&cs, off) {
            return None;
        }
    }
    Some(get_sliding_text(duration, full_text, window_size))
}

/// What `serde_json` reads as the unsigned integer at key `key` of the JSON object `text`:
/// `None` when the text is not JSON, is not an object, lacks the key, or holds there
/// something other than an integer that fits in `u64`.
pub uninterp spec fn json_u64_at(text: Seq<char>, key: Seq<char>) -> Option<u64>;

/// Reads the unsigned integer at `key` of the JSON object `text`
/// (`serde_json::from_str::<Value>`, then `Value::get` and `Value::as_u64`).
/// Claimed: the result is a function of the text and the key alone.
#[verifier::external_body]
fn json_u64_field(text: &str, key: &str) -> (r: Option<u64>)
    ensures
        r == json_u64_at(text@, key@),
{
    match serde_json::from_str::<serde_json::Value>(text) {
        Ok(v) => v.get(key).and_then(|x| x.as_u64()),
        Err(_) => None,
    }
}

/// The first of three readings that holds a number.
pub open spec fn first_number(a: Option<u64>, b: Option<u64>, c: Option<u64>) -> Option<u64> {
    if a is Some {
        a
    } else if b is Some {
        b
    } else {
        c
    }
}

/// The layer count of a model given the readings of `num_hidden_layers`, `num_layers` and
/// `num_hidden`, tried in that order.
pub fn layers_from_readings(hidden_layers: Option<u64>, layers: Option<u64>, hidden: Option<u64>) -> (r: Option<u64>)
    ensures
        r == first_number(hidden_layers, layers, hidden),
{
    match hidden_layers {
        Some(n) => Some(n),
        None => match layers {
            Some(n) => Some(n),
            None => hidden,
        },
    }
}

/// A model's `config.json` from HuggingFace, as text. Its shape varies from model to model,
/// so only the fields of interest are read from it.
#[derive(Debug)]
pub struct ModelConfig {
    pub json: String,
}

impl ModelConfig {
    /// The config with the JSON text `json`.
    pub fn new(json: String) -> (c: ModelConfig)
        ensures
            c.json@ == json@,
    {
        ModelConfig { json }
    }

    /// The number of layers: the first of `num_hidden_layers`, `num_layers`, `num_hidden`
    /// that holds an unsigned integer.
    pub fn num_layers(&self) -> (r: Option<u64>)
        ensures
            r == first_number(
                json_u64_at(self.json@, "num_hidden_layers"@),
                json_u64_at(self.json@, "num_layers"@),
                json_u64_at(self.json@, "num_hidden"@),
            ),
    {
        let a = json_u64_field(self.json.as_str(), "num_hidden_layers");
        let b = json_u64_field(self.json.as_str(), "num_layers");
        let c = json_u64_field(self.json.as_str(), "num_hidden");
        layers_from_readings(a, b, c)
    }
}

/// A text that fits in the window does not slide at all.
pub proof fn lemma_sliding_text_fits(s: Seq<char>, millis: nat, window: nat)
    requires
        byte_len(s) <= window,
    ensures
        sliding_text(s, millis, window) == s,
{
}

/// The text comes back to where it started after one step per byte: sliding is periodic
/// with period 500 ms times the text's length in bytes.
pub proof fn lemma_sliding_text_cycles(s: Seq<char>, millis: nat, window: nat)
    requires
        byte_len(s) > 0,
    ensures
        sliding_text(s, millis + 500 * byte_len(s), window) == sliding_text(s, millis, window),
{
    let n = byte_len(s);
    let m2 = millis + 500 * n;
    assert(m2 / 500 == millis / 500 + n) by (nonlinear_arith)
        requires
            m2 == millis + 500 * n,
    ;
    assert((millis / 500 + n) % n == (millis / 500) % n) by (nonlinear_arith)
        requires
            n > 0,
    ;
    assert(sliding_offset(s, m2) == sliding_offset(s, millis));
}

} // verus!
