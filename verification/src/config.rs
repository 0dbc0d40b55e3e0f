use vstd::prelude::*;

use crate::text::{
    chars_of, decimal, lemma_parse_decimal, trim_end, trim_start, decimal_string, parse_error_kind, parse_unsigned, parse_unsigned_detail,
    push_char, push_decimal, string_of, trim, trim_chars, IntErrorKind, int_error_text,
};
use crate::views::settings::SettingsField;

verus! {

broadcast use vstd::string::group_string_axioms;

/// Precision of the attention key/value cache.
#[derive(Debug, Clone, Copy, PartialEq, Eq, Structural)]
pub enum KVBits {
    Bits4,
    Bits8,
    FP16,
}

/// The name of a cache precision: `4bit`, `8bit` or `fp16`.
pub open spec fn kv_bits_text(k: KVBits) -> Seq<char> {
    match k {
        KVBits::Bits4 => seq!['4', 'b', 'i', 't'],
        KVBits::Bits8 => seq!['8', 'b', 'i', 't'],
        KVBits::FP16 => seq!['f', 'p', '1', '6'],
    }
}

/// `c` with ASCII upper case letters made lower case.
pub open spec fn ascii_lower(c: char) -> char {
    if 'A' <= c && c <= 'Z' {
        ((c as u32) + 32) as char
    } else {
        c
    }
}

/// Whether `s` equals the lower-case ASCII text `t` once lower-cased.
/// (`t` holds no `k`, so no character outside ASCII lower-cases into it.)
pub open spec fn lower_equals(s: Seq<char>, t: Seq<char>) -> bool {
    s.len() == t.len() && forall|i: int| 0 <= i < s.len() ==> ascii_lower(#[trigger] s[i]) == t[i]
}

/// The cache precision that `s` names once trimmed and lower-cased.
pub open spec fn parse_kv_bits(s: Seq<char>) -> Option<KVBits> {
    let t = trim(s);
    if lower_equals(t, kv_bits_text(KVBits::Bits4)) {
        Some(KVBits::Bits4)
    } else if lower_equals(t, kv_bits_text(KVBits::Bits8)) {
        Some(KVBits::Bits8)
    } else if lower_equals(t, kv_bits_text(KVBits::FP16)) {
        Some(KVBits::FP16)
    } else {
        None
    }
}

/// A text that names no cache precision.
#[derive(Debug, Clone)]
pub struct InvalidKVBits {
    pub value: String,
}

fn lower_equals_exec(s: &Vec<char>, t: &Vec<char>) -> (b: bool)
    ensures
        b == lower_equals(s@, t@),
{
    if s.len() != t.len() {
        return false;
    }
    let mut i: usize = 0;
    while i < s.len()
        invariant
            i <= s@.len(),
            s@.len() == t@.len(),
            forall|j: int| 0 <= j < i ==> ascii_lower(#[trigger] s@[j]) == t@[j],
        decreases s@.len() - i,
    {
        let c = s[i];
        let l = if 'A' <= c && c <= 'Z' {
            proof {
                assert(65 <= c as u32 <= 90);
            }
            char_from_ascii((c as u32 + 32) as u8)
        } else {
            c
        };
        assert(l == ascii_lower(c));
        if l != t[i] {
            return false;
        }
        i = i + 1;
    }
    true
}

/// The character with ASCII code `b` (`char::from`).
fn char_from_ascii(b: u8) -> (c: char)
    requires
        b < 128,
    ensures
        c as u32 == b as u32,
{
    b as char
}

impl KVBits {
    /// The default precision, 8 bits.
    pub fn default() -> (k: KVBits)
        ensures
            k == KVBits::Bits8,
    {
        KVBits::Bits8
    }

    /// The name of this precision: `4bit`, `8bit` or `fp16`.
    pub fn to_string(&self) -> (s: String)
        ensures
            s@ == kv_bits_text(*self),
    {
        let r = match self {
            KVBits::Bits4 => "4bit".to_string(),
            KVBits::Bits8 => "8bit".to_string(),
            KVBits::FP16 => "fp16".to_string(),
        };
        proof {
            reveal_strlit("4bit");
            reveal_strlit("8bit");
            reveal_strlit("fp16");
        }
        r
    }

    /// Reads a precision name; surrounding whitespace and letter case are ignored.
    pub fn from_str(s: &str) -> (r: Result<KVBits, InvalidKVBits>)
        ensures
            match parse_kv_bits(s@) {
                Some(k) => r == Ok::<KVBits, InvalidKVBits>(k),
                None => r.is_err() && r->Err_0.value@ == s@,
            },
    {
        let t = trim_chars(&chars_of(s));
        let b4 = chars_of("4bit");
        let b8 = chars_of("8bit");
        let fp_text = chars_of("fp16");
        proof {
            reveal_strlit("4bit");
            reveal_strlit("8bit");
            reveal_strlit("fp16");
            assert(b4@ =~= kv_bits_text(KVBits::Bits4));
            assert(b8@ =~= kv_bits_text(KVBits::Bits8));
            assert(fp_text@ =~= kv_bits_text(KVBits::FP16));
        }
        if lower_equals_exec(&t, &b4) {
            Ok(KVBits::Bits4)
        } else if lower_equals_exec(&t, &b8) {
            Ok(KVBits::Bits8)
        } else if lower_equals_exec(&t, &fp_text) {
            Ok(KVBits::FP16)
        } else {
            Err(InvalidKVBits { value: s.to_string() })
        }
    }
}

/// Connection and generation settings (all but the sampling temperature, which is a
/// floating-point value kept beside them).
#[derive(Debug, Clone)]
pub struct Config {
    pub api_host: String,
    pub api_port: u16,
    pub max_tokens: u32,
    pub devices_refresh_interval: u64,
    pub kv_bits: KVBits,
    pub max_batch_exp: u8,
    pub seq_len: u32,
}

/// Default cap on tokens of a chat reply.
pub fn default_max_tokens() -> (n: u32)
    ensures
        n == 2000,
{
    2000
}

/// Default seconds between refreshes of the device list.
pub fn default_devices_refresh_interval() -> (n: u64)
    ensures
        n == 1,
{
    1
}

/// Default exponent of the largest batch size (a batch of 4).
pub fn default_max_batch_exp() -> (n: u8)
    ensures
        n == 2,
{
    2
}

/// Default sequence length to plan for.
pub fn default_seq_len() -> (n: u32)
    ensures
        n == 4096,
{
    4096
}

/// Why a settings value was refused.
#[derive(Debug, Clone)]
pub enum SettingError {
    /// Not a number of the field's type.
    InvalidNumber(IntErrorKind),
    /// Not a cache precision name.
    InvalidKVBits(InvalidKVBits),
}

/// The message for a refused settings value.
pub open spec fn setting_error_text(e: SettingError) -> Seq<char> {
    match e {
        SettingError::InvalidNumber(k) => int_error_text(k),
        SettingError::InvalidKVBits(b) => "Invalid KV Bits value: "@ + b.value@,
    }
}

impl SettingError {
    /// The message for this error.
    pub fn message(&self) -> (s: String)
        ensures
            s@ == setting_error_text(*self),
    {
        match self {
            SettingError::InvalidNumber(k) => k.message().to_string(),
            SettingError::InvalidKVBits(b) => {
                let mut s = "Invalid KV Bits value: ".to_string();
                crate::views::menu::push_text(&mut s, b.value.as_str());
                s
            },
        }
    }
}

/// `v` limited to `lo..=hi`.
pub open spec fn clamp(v: nat, lo: nat, hi: nat) -> nat {
    if v < lo {
        lo
    } else if v > hi {
        hi
    } else {
        v
    }
}

/// The text `http://`.
pub open spec fn http_prefix() -> Seq<char> {
    seq!['h', 't', 't', 'p', ':', '/', '/']
}

/// The value of `field` as the settings screen shows it.
pub open spec fn setting_text(c: Config, field: SettingsField) -> Seq<char> {
    match field {
        SettingsField::Host => c.api_host@,
        SettingsField::Port => decimal(c.api_port as nat),
        SettingsField::MaxTokens => decimal(c.max_tokens as nat),
        SettingsField::DevicesRefreshInterval => decimal(c.devices_refresh_interval as nat),
        SettingsField::KVBits => kv_bits_text(c.kv_bits),
        SettingsField::MaxBatchExp => decimal(c.max_batch_exp as nat),
        SettingsField::SeqLen => decimal(c.seq_len as nat),
        SettingsField::Temperature => Seq::empty(),
    }
}

/// Whether `post` is `pre` with `field` set from the text `v`, or why that failed.
/// Numbers are parsed as their type and limited: tokens to `1..=100000`, refresh
/// seconds to `1..=3600`, batch exponent to `1..=8`, sequence length to `0..=999999`.
pub open spec fn write_setting_spec(
    pre: Config,
    field: SettingsField,
    v: Seq<char>,
    post: Config,
    r: Result<(), SettingError>,
) -> bool {
    match field {
        SettingsField::Host => r is Ok && post == Config { api_host: post.api_host, ..pre }
            && post.api_host@ == v,
        SettingsField::Port => match parse_unsigned(v, u16::MAX as nat) {
            Some(n) => r is Ok && post == Config { api_port: n as u16, ..pre },
            None => r == Err::<(), SettingError>(SettingError::InvalidNumber(parse_error_kind(v, u16::MAX as nat))) && post == pre,
        },
        SettingsField::MaxTokens => match parse_unsigned(v, u32::MAX as nat) {
            Some(n) => r is Ok && post == Config { max_tokens: clamp(n, 1, 100000) as u32, ..pre },
            None => r == Err::<(), SettingError>(SettingError::InvalidNumber(parse_error_kind(v, u32::MAX as nat))) && post == pre,
        },
        SettingsField::DevicesRefreshInterval => match parse_unsigned(v, u64::MAX as nat) {
            Some(n) => r is Ok && post == Config {
                devices_refresh_interval: clamp(n, 1, 3600) as u64,
                ..pre
            },
            None => r == Err::<(), SettingError>(SettingError::InvalidNumber(parse_error_kind(v, u64::MAX as nat))) && post == pre,
        },
        SettingsField::KVBits => match parse_kv_bits(v) {
            Some(k) => r is Ok && post == Config { kv_bits: k, ..pre },
            None => r is Err && r->Err_0 is InvalidKVBits && post == pre,
        },
        SettingsField::MaxBatchExp => match parse_unsigned(v, u8::MAX as nat) {
            Some(n) => r is Ok && post == Config { max_batch_exp: clamp(n, 1, 8) as u8, ..pre },
            None => r == Err::<(), SettingError>(SettingError::InvalidNumber(parse_error_kind(v, u8::MAX as nat))) && post == pre,
        },
        SettingsField::SeqLen => match parse_unsigned(v, u32::MAX as nat) {
            Some(n) => r is Ok && post == Config { seq_len: clamp(n, 0, 999999) as u32, ..pre },
            None => r == Err::<(), SettingError>(SettingError::InvalidNumber(parse_error_kind(v, u32::MAX as nat))) && post == pre,
        },
        SettingsField::Temperature => false,
    }
}

impl Config {
    /// The default settings: API at `127.0.0.1:8080`, 2000 tokens, 1 s refresh,
    /// 8-bit cache, batch exponent 2, sequence length 4096.
    pub fn default() -> (c: Config)
        ensures
            c.api_host@ == seq!['1', '2', '7', '.', '0', '.', '0', '.', '1'],
            c.api_port == 8080,
            c.max_tokens == 2000,
            c.devices_refresh_interval == 1,
            c.kv_bits == KVBits::Bits8,
            c.max_batch_exp == 2,
            c.seq_len == 4096,
    {
        let host = "127.0.0.1".to_string();
        proof {
            reveal_strlit("127.0.0.1");
        }
        Config {
            api_host: host,
            api_port: 8080,
            max_tokens: default_max_tokens(),
            devices_refresh_interval: default_devices_refresh_interval(),
            kv_bits: KVBits::default(),
            max_batch_exp: default_max_batch_exp(),
            seq_len: default_seq_len(),
        }
    }

    /// The value of `field` as text (the temperature is shown by its owner).
    pub fn read_setting(&self, selection: SettingsField) -> (s: String)
        requires
            selection != SettingsField::Temperature,
        ensures
            s@ == setting_text(*self, selection),
    {
        match selection {
            SettingsField::Host => self.api_host.clone(),
            SettingsField::Port => decimal_string(self.api_port as u64),
            SettingsField::MaxTokens => decimal_string(self.max_tokens as u64),
            SettingsField::DevicesRefreshInterval => decimal_string(self.devices_refresh_interval),
            SettingsField::KVBits => self.kv_bits.to_string(),
            SettingsField::MaxBatchExp => decimal_string(self.max_batch_exp as u64),
            SettingsField::SeqLen => decimal_string(self.seq_len as u64),
            SettingsField::Temperature => String::new(),
        }
    }

    /// Sets `field` from the text `value`, or says why it cannot.
    pub fn write_setting(&mut self, selection: SettingsField, value: &str) -> (r: Result<(), SettingError>)
        requires
            selection != SettingsField::Temperature,
        ensures
            write_setting_spec(*old(self), selection, value@, *final(self), r),
    {
        let v = chars_of(value);
        match selection {
            SettingsField::Host => {
                self.api_host = value.to_string();
                Ok(())
            },
            SettingsField::Port => match parse_unsigned_detail(&v, u16::MAX as u64) {
                Ok(n) => {
                    self.api_port = n as u16;
                    Ok(())
                },
                Err(k) => Err(SettingError::InvalidNumber(k)),
            },
            SettingsField::MaxTokens => match parse_unsigned_detail(&v, u32::MAX as u64) {
                Ok(n) => {
                    let t = n as u32;
                    self.max_tokens = if t < 1 { 1 } else if t > 100000 { 100000 } else { t };
                    Ok(())
                },
                Err(k) => Err(SettingError::InvalidNumber(k)),
            },
            SettingsField::DevicesRefreshInterval => match parse_unsigned_detail(&v, u64::MAX) {
                Ok(t) => {
                    self.devices_refresh_interval = if t < 1 { 1 } else if t > 3600 { 3600 } else { t };
                    Ok(())
                },
                Err(k) => Err(SettingError::InvalidNumber(k)),
            },
            SettingsField::KVBits => match KVBits::from_str(value) {
                Ok(k) => {
                    self.kv_bits = k;
                    Ok(())
                },
                Err(e) => Err(SettingError::InvalidKVBits(e)),
            },
            SettingsField::MaxBatchExp => match parse_unsigned_detail(&v, u8::MAX as u64) {
                Ok(n) => {
                    let t = n as u8;
                    self.max_batch_exp = if t < 1 { 1 } else if t > 8 { 8 } else { t };
                    Ok(())
                },
                Err(k) => Err(SettingError::InvalidNumber(k)),
            },
            SettingsField::SeqLen => match parse_unsigned_detail(&v, u32::MAX as u64) {
                Ok(n) => {
                    let t = n as u32;
                    self.seq_len = if t > 999999 { 999999 } else { t };
                    Ok(())
                },
                Err(k) => Err(SettingError::InvalidNumber(k)),
            },
            SettingsField::Temperature => Ok(()),
        }
    }

    /// The API address, `http://{host}:{port}`.
    pub fn api_url(&self) -> (s: String)
        ensures
            s@ == http_prefix() + self.api_host@ + seq![':'] + decimal(self.api_port as nat),
    {
        let mut s = "http://".to_string();
        proof {
            reveal_strlit("http://");
            assert(s@ =~= http_prefix());
        }
        let host = chars_of(self.api_host.as_str());
        let mut i: usize = 0;
        while i < host.len()
            invariant
                i <= host@.len(),
                host@ == self.api_host@,
                s@ == http_prefix() + host@.take(i as int),
            decreases host@.len() - i,
        {
            push_char(&mut s, host[i]);
            assert(http_prefix() + host@.take(i + 1) =~= http_prefix() + host@.take(i as int) + seq![host@[i as int]]);
            i = i + 1;
        }
        assert(host@.take(host@.len() as int) =~= host@);
        push_char(&mut s, ':');
        push_decimal(&mut s, self.api_port as u64);
        s
    }
}

/// The text a setting reads back after the text `v` was written to it: the host as written,
/// numbers parsed and limited as `write_setting` does, the cache precision by its name.
pub open spec fn written_text(field: SettingsField, v: Seq<char>) -> Seq<char> {
    match field {
        SettingsField::Host => v,
        SettingsField::Port => decimal(parse_unsigned(v, u16::MAX as nat).unwrap()),
        SettingsField::MaxTokens => decimal(clamp(parse_unsigned(v, u32::MAX as nat).unwrap(), 1, 100000)),
        SettingsField::DevicesRefreshInterval => decimal(clamp(parse_unsigned(v, u64::MAX as nat).unwrap(), 1, 3600)),
        SettingsField::KVBits => kv_bits_text(parse_kv_bits(v).unwrap()),
        SettingsField::MaxBatchExp => decimal(clamp(parse_unsigned(v, u8::MAX as nat).unwrap(), 1, 8)),
        SettingsField::SeqLen => decimal(clamp(parse_unsigned(v, u32::MAX as nat).unwrap(), 0, 999999)),
        SettingsField::Temperature => Seq::empty(),
    }
}

/// A setting that took a written value reads back that value (as `written_text` puts it),
/// and every other setting reads as before.
pub proof fn lemma_write_then_read(pre: Config, field: SettingsField, v: Seq<char>, post: Config, r: Result<(), SettingError>, other: SettingsField)
    requires
        field != SettingsField::Temperature,
        write_setting_spec(pre, field, v, post, r),
        r is Ok,
    ensures
        setting_text(post, field) == written_text(field, v),
        other != field ==> setting_text(post, other) == setting_text(pre, other),
{
}

/// A refused value changes no setting.
pub proof fn lemma_refused_write_changes_nothing(pre: Config, field: SettingsField, v: Seq<char>, post: Config, r: Result<(), SettingError>)
    requires
        field != SettingsField::Temperature,
        write_setting_spec(pre, field, v, post, r),
        r is Err,
    ensures
        post == pre,
{
}

/// Whether the stored value of `field` lies within the limits that writing it applies.
pub open spec fn setting_in_range(c: Config, field: SettingsField) -> bool {
    match field {
        SettingsField::MaxTokens => 1 <= c.max_tokens <= 100000,
        SettingsField::DevicesRefreshInterval => 1 <= c.devices_refresh_interval <= 3600,
        SettingsField::MaxBatchExp => 1 <= c.max_batch_exp <= 8,
        SettingsField::SeqLen => c.seq_len <= 999999,
        _ => true,
    }
}

/// A cache precision's name reads back as that precision.
pub proof fn lemma_parse_kv_bits_text(k: KVBits)
    ensures
        parse_kv_bits(kv_bits_text(k)) == Some(k),
{
    let t = kv_bits_text(k);
    assert(trim_start(t) == t);
    assert(trim_end(t) == t);
    assert(lower_equals(t, t));
    assert(ascii_lower(t[0]) == t[0]);
}

/// Writing back the text that a setting reads as is accepted and changes nothing (the
/// host is written anew with the same text), when the stored value lies within the
/// field's limits.
pub proof fn lemma_write_back_changes_nothing(pre: Config, field: SettingsField, post: Config, r: Result<(), SettingError>)
    requires
        field != SettingsField::Temperature,
        setting_in_range(pre, field),
        write_setting_spec(pre, field, setting_text(pre, field), post, r),
    ensures
        (r is Ok),
        field != SettingsField::Host ==> post == pre,
        field == SettingsField::Host ==> post == (Config { api_host: post.api_host, ..pre }),
        field == SettingsField::Host ==> post.api_host@ == pre.api_host@,
{
    match field {
        SettingsField::Port => lemma_parse_decimal(pre.api_port as nat, u16::MAX as nat),
        SettingsField::MaxTokens => lemma_parse_decimal(pre.max_tokens as nat, u32::MAX as nat),
        SettingsField::DevicesRefreshInterval => lemma_parse_decimal(
            pre.devices_refresh_interval as nat,
            u64::MAX as nat,
        ),
        SettingsField::KVBits => lemma_parse_kv_bits_text(pre.kv_bits),
        SettingsField::MaxBatchExp => lemma_parse_decimal(pre.max_batch_exp as nat, u8::MAX as nat),
        SettingsField::SeqLen => lemma_parse_decimal(pre.seq_len as nat, u32::MAX as nat),
        _ => {},
    }
}

} // verus!
