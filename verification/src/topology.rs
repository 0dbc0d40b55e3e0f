use vstd::prelude::*;

use crate::common::devices::ThunderboltInfo;
use crate::common::topology::TopologyInfo;
use crate::text::{chars_of, contains_seq, decimal, find_chars, occurs_at, string_of, sub_chars};
use crate::views::menu::push_text;
use crate::input::{KeyCode, KeyPress};
use crate::views::topology::ring::{rounds_text, select_down, select_up};
use crate::text::push_decimal;

verus! {

broadcast use vstd::string::group_string_axioms;

/// The layers one service holds, in rounds, and the service after it in the ring.
#[derive(Debug)]
pub struct Assignment {
    pub service: String,
    pub layers: Vec<Vec<u32>>,
    pub next_service: String,
    pub window_size: u32,
}

/// The device sets of an optimized solution.
#[derive(Debug)]
pub struct SolutionSets {
    pub m1: Vec<u32>,
    pub m2: Vec<u32>,
    pub m3: Vec<u32>,
}

impl SolutionSets {
    /// Empty sets.
    pub fn new() -> (s: SolutionSets)
        ensures
            s.m1@.len() == 0 && s.m2@.len() == 0 && s.m3@.len() == 0,
    {
        SolutionSets { m1: Vec::new(), m2: Vec::new(), m3: Vec::new() }
    }
}

/// A device of a topology as the `/v1/topology` endpoint reports it.
#[derive(Debug)]
pub struct Device {
    pub is_manager: bool,
    pub is_busy: bool,
    pub instance: String,
    pub host: String,
    pub server_port: u16,
    pub shard_port: u16,
    pub local_ip: String,
    pub thunderbolt: Option<ThunderboltInfo>,
}

/// A topology as the `/v1/topology` endpoint reports it (the solver's solution, which
/// holds a floating-point objective, stays with the application).
#[derive(Debug)]
pub struct TopologyResponse {
    pub model: String,
    pub num_layers: u32,
    pub devices: Vec<Device>,
    pub assignments: Vec<Assignment>,
}

/// The part of a device name before its first dot.
pub open spec fn short_name(s: Seq<char>) -> Seq<char> {
    match crate::text::find_seq(s, seq!['.']) {
        Some(k) => s.take(k),
        None => s,
    }
}

impl TopologyResponse {
    /// The part of a device name before its first dot.
    pub fn device_short_name(device: &str) -> (s: String)
        ensures
            s@ == short_name(device@),
    {
        let cs = chars_of(device);
        let mut dot: Vec<char> = Vec::new();
        dot.push('.');
        assert(dot@ =~= seq!['.']);
        match find_chars(&cs, &dot) {
            Some(k) => {
                assert(occurs_at(cs@, dot@, k as int));
                let head = sub_chars(&cs, 0, k);
                string_of(&head)
            },
            None => device.to_string(),
        }
    }

    /// The layer rounds of a service written compactly, e.g. `[0..11, 12..23, 24..35]`.
    pub fn format_layers(layers: &[Vec<u32>]) -> (s: String)
        ensures
            s@ == rounds_text(layers@.map_values(|v: Vec<u32>| v@)),
    {
        TopologyInfo::format_layers(layers)
    }
}

/// What `serde_json` reads as the string at key `key` of the JSON object `text`: `None`
/// when the text is not JSON, is not an object, lacks the key, or holds there something
/// other than a string.
pub uninterp spec fn json_str_at(text: Seq<char>, key: Seq<char>) -> Option<Seq<char>>;

/// Reads the string at `key` of the JSON object `text` (`serde_json::from_str::<Value>`,
/// then `Value::get` and `Value::as_str`).
/// Claimed: the result is a function of the text and the key alone.
#[verifier::external_body]
fn json_str_field(text: &str, key: &str) -> (r: Option<String>)
    ensures
        match r {
            Some(s) => json_str_at(text@, key@) == Some(s@),
            None => json_str_at(text@, key@) is None,
        },
{
    match serde_json::from_str::<serde_json::Value>(text) {
        Ok(v) => v.get(key).and_then(|d| d.as_str()).map(|d| d.to_string()),
        Err(_) => None,
    }
}

/// Why a topology reply is an error, given its status, the `detail` message it carries if
/// any, and the reason phrase of its status: `None` when the body is to be read as a topology.
pub open spec fn topology_reply_error(status: u16, success: bool, detail: Option<Seq<char>>, reason: Seq<char>) -> Option<Seq<char>> {
    match detail {
        Some(d) if contains_seq(d, "No topology configured"@) || contains_seq(d, "prepare_topology"@) => Some(
            "No topology configured"@,
        ),
        Some(d) if !success => Some(d),
        _ => if success {
            None
        } else if status == 404 {
            Some("No topology found - model not loaded"@)
        } else {
            Some("API returned error: "@ + decimal(status as nat) + " "@ + reason)
        },
    }
}

/// Decides on a topology reply from its status code, whether that code is a success, its
/// body, and the reason phrase of the code (`Unknown error` where there is none): the error
/// to report, or `None` when the body is to be read as a topology.
pub fn topology_reply_check(status: u16, success: bool, body: &str, reason: &str) -> (r: Option<String>)
    ensures
        match r {
            Some(e) => topology_reply_error(status, success, json_str_at(body@, "detail"@), reason@) == Some(e@),
            None => topology_reply_error(status, success, json_str_at(body@, "detail"@), reason@) is None,
        },
{
    let detail = json_str_field(body, "detail");
    topology_detail_check(status, success, detail, reason)
}

/// The decision of `topology_reply_check` once the `detail` message of the body is known.
pub fn topology_detail_check(status: u16, success: bool, detail: Option<String>, reason: &str) -> (r: Option<String>)
    ensures
        match r {
            Some(e) => topology_reply_error(status, success, match detail { Some(d) => Some(d@), None => None }, reason@) == Some(e@),
            None => topology_reply_error(status, success, match detail { Some(d) => Some(d@), None => None }, reason@) is None,
        },
{
    match detail {
        Some(d) => {
            let dc = chars_of(d.as_str());
            let a = chars_of("No topology configured");
            let b = chars_of("prepare_topology");
            let ha = match find_chars(&dc, &a) {
                Some(i) => {
                    assert(occurs_at(dc@, a@, i as int));
                    true
                },
                None => false,
            };
            let hb = match find_chars(&dc, &b) {
                Some(i) => {
                    assert(occurs_at(dc@, b@, i as int));
                    true
                },
                None => false,
            };
            if ha || hb {
                return Some("No topology configured".to_string());
            }
            if !success {
                return Some(d);
            }
            None
        },
        None => {
            if success {
                None
            } else if status == 404 {
                Some("No topology found - model not loaded".to_string())
            } else {
                let mut m = "API returned error: ".to_string();
                push_decimal(&mut m, status as u64);
                push_text(&mut m, " ");
                push_text(&mut m, reason);
                Some(m)
            }
        },
    }
}

/// Whether a topology body names a loaded model: its `model` is a non-empty string.
pub fn model_loaded_in(body: &str) -> (b: bool)
    ensures
        b == (json_str_at(body@, "model"@) matches Some(m) && m.len() > 0),
{
    match json_str_field(body, "model") {
        Some(m) => m.as_str().is_empty() == false,
        None => false,
    }
}

/// The topology screen of the compact client: loading, showing a topology, or an error.
#[derive(Debug)]
pub enum TopologyState {
    Loading,
    Loaded(TopologyResponse),
    Error(String),
}

/// What the compact topology screen asks of the application after a key.
#[derive(Debug)]
pub enum TopologyCommand {
    Stay,
    /// Back to the menu (the selection returns to the first device).
    ToMenu,
    Quit,
    /// Open the interaction screen of this device.
    OpenShard(String),
}

/// Handles a key on the compact topology screen: Esc goes back, Control-C quits, Up and
/// Down move around the ring of devices, Enter opens the selected device.
pub fn handle_topology_input(key: KeyPress, state: &TopologyState, selected: &mut usize) -> (c: TopologyCommand)
    requires
        key.code is Down && state is Loaded && state->Loaded_0.devices@.len() > 0 ==> *old(selected) < usize::MAX,
    ensures
        match key.code {
            KeyCode::Esc => c is ToMenu && *final(selected) == 0,
            KeyCode::Char(ch) => *final(selected) == *old(selected) && if key.ctrl && (ch == 'c' || ch == 'C') {
                c is Quit
            } else {
                c is Stay
            },
            KeyCode::Up => c is Stay && *final(selected) == match *state {
                TopologyState::Loaded(t) => select_up(*old(selected) as nat, t.devices@.len()) as int,
                _ => *old(selected) as int,
            },
            KeyCode::Down => c is Stay && *final(selected) == match *state {
                TopologyState::Loaded(t) => select_down(*old(selected) as nat, t.devices@.len()) as int,
                _ => *old(selected) as int,
            },
            KeyCode::Enter => *final(selected) == *old(selected) && match *state {
                TopologyState::Loaded(t) => if *old(selected) < t.devices@.len() {
                    c matches TopologyCommand::OpenShard(n) && n@ == t.devices@[*old(selected) as int].instance@
                } else {
                    c is Stay
                },
                _ => c is Stay,
            },
            _ => c is Stay && *final(selected) == *old(selected),
        },
{
    match key.code {
        KeyCode::Esc => {
            *selected = 0;
            TopologyCommand::ToMenu
        },
        KeyCode::Char(ch) => {
            if key.ctrl && (ch == 'c' || ch == 'C') {
                TopologyCommand::Quit
            } else {
                TopologyCommand::Stay
            }
        },
        KeyCode::Up => {
            if let TopologyState::Loaded(t) = state {
                let count = t.devices.len();
                if count > 0 {
                    *selected = if *selected == 0 {
                        count - 1
                    } else {
                        *selected - 1
                    };
                }
            }
            TopologyCommand::Stay
        },
        KeyCode::Down => {
            if let TopologyState::Loaded(t) = state {
                let count = t.devices.len();
                if count > 0 {
                    *selected = (*selected + 1) % count;
                }
            }
            TopologyCommand::Stay
        },
        KeyCode::Enter => {
            if let TopologyState::Loaded(t) = state {
                if *selected < t.devices.len() {
                    return TopologyCommand::OpenShard(t.devices[*selected].instance.clone());
                }
            }
            TopologyCommand::Stay
        },
        _ => TopologyCommand::Stay,
    }
}

/// Handles a key on the compact shard interaction screen: Esc goes back to the menu,
/// Control-C quits.
pub fn handle_shard_interaction_input(key: KeyPress) -> (c: TopologyCommand)
    ensures
        match key.code {
            KeyCode::Esc => c is ToMenu,
            KeyCode::Char(ch) => if key.ctrl && (ch == 'c' || ch == 'C') {
                c is Quit
            } else {
                c is Stay
            },
            _ => c is Stay,
        },
{
    match key.code {
        KeyCode::Esc => TopologyCommand::ToMenu,
        KeyCode::Char(ch) => {
            if key.ctrl && (ch == 'c' || ch == 'C') {
                TopologyCommand::Quit
            } else {
                TopologyCommand::Stay
            }
        },
        _ => TopologyCommand::Stay,
    }
}

} // verus!
