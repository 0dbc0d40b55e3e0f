use vstd::prelude::*;

use crate::common::devices::DeviceProperties;
use crate::common::topology::{AssignmentInfo, TopologyInfo};
use crate::input::{KeyCode, KeyPress};
use crate::text::{
    chars_of, contains_seq, decimal, find_chars, occurs_at, push_decimal, same_chars, string_of, sub_chars,
};
use crate::views::developer::utils::join;
use crate::views::menu::push_text;

verus! {

broadcast use vstd::string::group_string_axioms;

/// The ring screen: loading the topology, showing it, or why it could not be loaded.
#[derive(Debug)]
pub enum TopologyRingState {
    Loading,
    Loaded,
    Error(String),
}

/// One round of layers written out: `a..b` for first and last, `a` for a single layer,
/// `[]` for none.
pub open spec fn round_text(r: Seq<u32>) -> Seq<char> {
    if r.len() == 0 {
        "[]"@
    } else if r.len() == 1 {
        decimal(r[0] as nat)
    } else {
        decimal(r[0] as nat) + ".."@ + decimal(r.last() as nat)
    }
}

/// The rounds of layers of an instance, e.g. `[0..11, 12..23, 36]`.
pub open spec fn rounds_text(rounds: Seq<Seq<u32>>) -> Seq<char> {
    "["@ + join(rounds.map_values(|r: Seq<u32>| round_text(r)), ", "@) + "]"@
}

fn push_round(s: &mut String, r: &Vec<u32>)
    ensures
        final(s)@ == old(s)@ + round_text(r@),
{
    if r.len() == 0 {
        push_text(s, "[]");
    } else if r.len() == 1 {
        push_decimal(s, r[0] as u64);
    } else {
        push_decimal(s, r[0] as u64);
        push_text(s, "..");
        push_decimal(s, r[r.len() - 1] as u64);
        assert(r@.last() == r@[r.len() - 1]);
    }
}

impl TopologyInfo {
    /// The layer rounds of an instance written compactly, e.g. `[0..11, 12..23, 24..35]`.
    pub fn format_layers(layers: &[Vec<u32>]) -> (s: String)
        ensures
            s@ == rounds_text(layers@.map_values(|v: Vec<u32>| v@)),
    {
        let ghost rounds = layers@.map_values(|v: Vec<u32>| v@);
        let ghost texts = rounds.map_values(|r: Seq<u32>| round_text(r));
        let mut s = "[".to_string();
        let mut i: usize = 0;
        while i < layers.len()
            invariant
                i <= layers@.len(),
                rounds == layers@.map_values(|v: Vec<u32>| v@),
                texts == rounds.map_values(|r: Seq<u32>| round_text(r)),
                s@ == "["@ + join(texts.take(i as int), ", "@),
            decreases layers@.len() - i,
        {
            let ghost before = s@;
            if i > 0 {
                push_text(&mut s, ", ");
            }
            push_round(&mut s, &layers[i]);
            proof {
                let t = texts.take(i + 1);
                assert(t.drop_last() =~= texts.take(i as int));
                assert(t.last() == round_text(layers@[i as int]@));
                if i == 0 {
                    assert(texts.take(0) =~= Seq::<Seq<char>>::empty());
                    assert(join(texts.take(0), ", "@) =~= Seq::<char>::empty());
                    assert(s@ =~= "["@ + join(t, ", "@));
                } else {
                    assert(s@ =~= "["@ + join(t, ", "@));
                }
            }
            i = i + 1;
        }
        assert(texts.take(layers@.len() as int) =~= texts);
        push_text(&mut s, "]");
        s
    }
}

/// Whether `text` contains `pat`.
fn has_text(text: &[char], pat: &str) -> (b: bool)
    ensures
        b == contains_seq(text@, pat@),
{
    let p = chars_of(pat);
    match find_chars(text, &p) {
        Some(i) => {
            assert(occurs_at(text@, p@, i as int));
            true
        },
        None => false,
    }
}

/// The message shown when the topology could not be fetched, from the error's text.
pub open spec fn friendly_error(e: Seq<char>) -> Seq<char> {
    if contains_seq(e, "No topology configured"@) || contains_seq(e, "No topology found"@)
        || contains_seq(e, "model not loaded"@) || contains_seq(e, "prepare_topology"@)
        || contains_seq(e, "404"@) || contains_seq(e, "Not Found"@) {
        "No topology configured yet. Please load a model first to create a topology."@
    } else if contains_seq(e, "connection"@) || contains_seq(e, "refused"@) || contains_seq(
        e,
        "error sending request"@,
    ) {
        "Cannot connect to API server. Please check your settings and ensure the server is running."@
    } else {
        "Error: "@ + e
    }
}

/// Turns the error of a failed topology fetch into the message the ring screen shows: no
/// topology yet (nothing loaded, not found), no connection, or the error itself.
pub fn topology_error_message(error: &str) -> (m: String)
    ensures
        m@ == friendly_error(error@),
{
    let e = chars_of(error);
    if has_text(&e, "No topology configured") || has_text(&e, "No topology found") || has_text(&e, "model not loaded")
        || has_text(&e, "prepare_topology") || has_text(&e, "404") || has_text(&e, "Not Found") {
        "No topology configured yet. Please load a model first to create a topology.".to_string()
    } else if has_text(&e, "connection") || has_text(&e, "refused") || has_text(&e, "error sending request") {
        "Cannot connect to API server. Please check your settings and ensure the server is running.".to_string()
    } else {
        let mut m = "Error: ".to_string();
        push_text(&mut m, error);
        m
    }
}

/// How the ring screen presents an error message.
#[derive(Debug, Clone, Copy, PartialEq, Eq, Structural)]
pub enum RingErrorKind {
    /// No topology has been set up: explain how to load a model.
    NoTopology,
    /// The API cannot be reached: list what to check.
    Connection,
    /// Anything else: show the message.
    Other,
}

/// How the ring screen presents the error message `err`.
pub fn ring_error_kind(err: &str) -> (k: RingErrorKind)
    ensures
        k == (if contains_seq(err@, "No topology configured"@) || contains_seq(err@, "No topology available"@) {
            RingErrorKind::NoTopology
        } else if contains_seq(err@, "Cannot connect to API server"@) {
            RingErrorKind::Connection
        } else {
            RingErrorKind::Other
        }),
{
    let e = chars_of(err);
    if has_text(&e, "No topology configured") || has_text(&e, "No topology available") {
        RingErrorKind::NoTopology
    } else if has_text(&e, "Cannot connect to API server") {
        RingErrorKind::Connection
    } else {
        RingErrorKind::Other
    }
}

/// The device above `sel` in a ring of `count` devices, the last above the first.
pub open spec fn select_up(sel: nat, count: nat) -> nat {
    if count == 0 {
        sel
    } else if sel == 0 {
        (count - 1) as nat
    } else {
        (sel - 1) as nat
    }
}

/// The device below `sel` in a ring of `count` devices, the first below the last.
pub open spec fn select_down(sel: nat, count: nat) -> nat {
    if count == 0 {
        sel
    } else {
        (sel + 1) % count
    }
}

/// What the ring screen asks of the application after a key.
#[derive(Debug)]
pub enum RingAction {
    Stay,
    ToMenu,
    Quit,
    /// Open the health screen of this shard.
    OpenShard(String),
}

/// Whether the ring shows devices to move between.
pub open spec fn ring_ready(state: TopologyRingState, topology: Option<TopologyInfo>) -> bool {
    state is Loaded && topology is Some
}

/// Handles a key on the ring screen: Esc leaves (and the selection goes back to the first
/// device), Control-C quits, Up and Down move through the devices around the ring, Enter
/// opens the selected device's health screen.
pub fn handle_topology_ring_input(
    key: KeyPress,
    state: &TopologyRingState,
    topology: &Option<TopologyInfo>,
    selected: &mut usize,
) -> (action: RingAction)
    requires
        key.code is Down && ring_ready(*state, *topology) && topology->0.devices@.len() > 0
            ==> *old(selected) < usize::MAX,
    ensures
        match key.code {
            KeyCode::Esc => action is ToMenu && *final(selected) == 0,
            KeyCode::Char(c) => *final(selected) == *old(selected) && if key.ctrl && (c == 'c' || c == 'C') {
                action is Quit
            } else {
                action is Stay
            },
            KeyCode::Up => action is Stay && *final(selected) == if ring_ready(*state, *topology) {
                select_up(*old(selected) as nat, topology->0.devices@.len()) as int
            } else {
                *old(selected) as int
            },
            KeyCode::Down => action is Stay && *final(selected) == if ring_ready(*state, *topology) {
                select_down(*old(selected) as nat, topology->0.devices@.len()) as int
            } else {
                *old(selected) as int
            },
            KeyCode::Enter => *final(selected) == *old(selected) && if ring_ready(*state, *topology)
                && *old(selected) < topology->0.devices@.len() {
                action matches RingAction::OpenShard(n) && n@ == topology->0.devices@[*old(selected) as int].instance@
            } else {
                action is Stay
            },
            _ => action is Stay && *final(selected) == *old(selected),
        },
{
    let ready = match state {
        TopologyRingState::Loaded => match topology {
            Some(_) => true,
            None => false,
        },
        _ => false,
    };
    match key.code {
        KeyCode::Esc => {
            *selected = 0;
            RingAction::ToMenu
        },
        KeyCode::Char(c) => {
            if key.ctrl && (c == 'c' || c == 'C') {
                RingAction::Quit
            } else {
                RingAction::Stay
            }
        },
        KeyCode::Up => {
            if ready {
                if let Some(t) = topology {
                    let count = t.devices.len();
                    if count > 0 {
                        *selected = if *selected == 0 {
                            count - 1
                        } else {
                            *selected - 1
                        };
                    }
                }
            }
            RingAction::Stay
        },
        KeyCode::Down => {
            if ready {
                if let Some(t) = topology {
                    let count = t.devices.len();
                    if count > 0 {
                        *selected = (*selected + 1) % count;
                    }
                }
            }
            RingAction::Stay
        },
        KeyCode::Enter => {
            if ready {
                if let Some(t) = topology {
                    if *selected < t.devices.len() {
                        return RingAction::OpenShard(t.devices[*selected].instance.clone());
                    }
                }
            }
            RingAction::Stay
        },
        _ => RingAction::Stay,
    }
}

/// Moving down and then up the ring comes back to the same device, and so does moving up
/// and then down.
pub proof fn lemma_ring_up_down(sel: nat, count: nat)
    requires
        sel < count,
    ensures
        select_up(select_down(sel, count), count) == sel,
        select_down(select_up(sel, count), count) == sel,
{
    if sel + 1 < count {
        assert((sel + 1) % count == sel + 1) by (nonlinear_arith)
            requires
                sel + 1 < count,
        ;
    } else {
        assert((sel + 1) % count == 0) by (nonlinear_arith)
            requires
                sel + 1 == count,
        ;
    }
    if sel == 0 {
        assert(((count - 1) + 1) % (count as int) == 0) by (nonlinear_arith)
            requires
                count > 0,
        ;
    } else {
        assert(((sel - 1) + 1) % (count as int) == sel) by (nonlinear_arith)
            requires
                0 < sel < count,
        ;
    }
}

/// The position of the first assignment whose instance name contains `instance`.
pub open spec fn first_holding(asg: Seq<AssignmentInfo>, instance: Seq<char>) -> Option<int>
    decreases asg.len(),
{
    if asg.len() == 0 {
        None
    } else {
        let r = first_holding(asg.drop_last(), instance);
        if r is Some {
            r
        } else if contains_seq(asg.last().instance@, instance) {
            Some(asg.len() - 1)
        } else {
            None
        }
    }
}

proof fn lemma_first_holding(asg: Seq<AssignmentInfo>, instance: Seq<char>, k: int)
    requires
        0 <= k <= asg.len(),
    ensures
        first_holding(asg.take(k), instance) is Some ==> first_holding(asg, instance) == first_holding(asg.take(k), instance),
        first_holding(asg, instance) matches Some(i) ==> 0 <= i < asg.len(),
    decreases asg.len() - k,
{
    if k < asg.len() {
        assert(asg.take(k + 1).drop_last() =~= asg.take(k));
        lemma_first_holding(asg, instance, k + 1);
    } else {
        assert(asg.take(k) =~= asg);
        lemma_first_holding_bound(asg, instance);
    }
}

proof fn lemma_first_holding_bound(asg: Seq<AssignmentInfo>, instance: Seq<char>)
    ensures
        first_holding(asg, instance) matches Some(i) ==> 0 <= i < asg.len(),
    decreases asg.len(),
{
    if asg.len() > 0 {
        lemma_first_holding_bound(asg.drop_last(), instance);
    }
}

/// The first assignment holding `instance`, if any.
fn find_holding(asg: &Vec<AssignmentInfo>, instance: &str) -> (r: Option<usize>)
    ensures
        match r {
            Some(i) => first_holding(asg@, instance@) == Some(i as int) && i < asg@.len(),
            None => first_holding(asg@, instance@) is None,
        },
{
    let name = chars_of(instance);
    let mut i: usize = 0;
    while i < asg.len()
        invariant
            i <= asg@.len(),
            name@ == instance@,
            first_holding(asg@.take(i as int), instance@) is None,
        decreases asg@.len() - i,
    {
        proof {
            assert(asg@.take(i + 1).drop_last() =~= asg@.take(i as int));
        }
        let inst = chars_of(asg[i].instance.as_str());
        match find_chars(&inst, &name) {
            Some(k) => {
                assert(occurs_at(inst@, name@, k as int));
                assert(first_holding(asg@.take(i + 1), instance@) == Some(i as int));
                proof {
                    lemma_first_holding(asg@, instance@, i + 1);
                }
                return Some(i);
            },
            None => {},
        }
        i = i + 1;
    }
    assert(asg@.take(asg@.len() as int) =~= asg@);
    None
}

/// The text `shard-`.
pub open spec fn shard_prefix() -> Seq<char> {
    "shard-"@
}

/// An instance name without a leading `shard-`.
pub open spec fn short_instance(s: Seq<char>) -> Seq<char> {
    if s.len() >= 6 && s.take(6) == shard_prefix() {
        s.skip(6)
    } else {
        s
    }
}

/// A device as the ring shows it.
#[derive(Debug)]
pub struct RingDevice {
    /// Its position among the topology's devices.
    pub index: usize,
    /// Its instance name without a leading `shard-`.
    pub name: String,
    /// `ip:shard_port (server_port)`.
    pub address: String,
    /// Its layer rounds, written compactly.
    pub layers: String,
    /// Whether it is the selected device.
    pub is_selected: bool,
    /// How many rounds of layers it holds.
    pub num_rounds: u32,
    /// Its window size.
    pub window_size: u32,
}

/// A ring device as the contracts see it.
pub struct RingDeviceView {
    pub index: int,
    pub name: Seq<char>,
    pub address: Seq<char>,
    pub layers: Seq<char>,
    pub is_selected: bool,
    pub num_rounds: u32,
    pub window_size: u32,
}

impl View for RingDevice {
    type V = RingDeviceView;

    open spec fn view(&self) -> RingDeviceView {
        RingDeviceView {
            index: self.index as int,
            name: self.name@,
            address: self.address@,
            layers: self.layers@,
            is_selected: self.is_selected,
            num_rounds: self.num_rounds,
            window_size: self.window_size,
        }
    }
}

/// How the ring shows device `i` of `t`, which the assignment `a` holds.
pub open spec fn ring_device(t: TopologyInfo, i: int, a: AssignmentInfo, selected: nat) -> RingDeviceView {
    let d = t.devices@[i];
    RingDeviceView {
        index: i,
        name: short_instance(d.instance@),
        address: d.local_ip@ + ":"@ + decimal(d.shard_port as nat) + " ("@ + decimal(d.server_port as nat) + ")"@,
        layers: rounds_text(a.layers@.map_values(|v: Vec<u32>| v@)),
        is_selected: i == selected,
        num_rounds: a.layers@.len() as u32,
        window_size: a.window_size,
    }
}

/// The first `n` devices of `t` as the ring shows them: those that an assignment holds,
/// in order, each with the first assignment that holds it.
pub open spec fn ring_devices(t: TopologyInfo, n: int, selected: nat) -> Seq<RingDeviceView>
    decreases n,
{
    if n <= 0 {
        Seq::empty()
    } else {
        let prev = ring_devices(t, n - 1, selected);
        match first_holding(t.assignments@, t.devices@[n - 1].instance@) {
            Some(j) => prev.push(ring_device(t, n - 1, t.assignments@[j], selected)),
            None => prev,
        }
    }
}

/// The devices the ring shows, in order: each device that an assignment holds (its
/// instance name contained in the assignment's), with its short name, address, layers,
/// rounds and window, and whether it is the selected one.
pub fn ring_entries(topology: &TopologyInfo, selected: usize) -> (v: Vec<RingDevice>)
    ensures
        v@.map_values(|d: RingDevice| d@) == ring_devices(*topology, topology.devices@.len() as int, selected as nat),
{
    let mut v: Vec<RingDevice> = Vec::new();
    let mut i: usize = 0;
    while i < topology.devices.len()
        invariant
            i <= topology.devices@.len(),
            v@.map_values(|d: RingDevice| d@) == ring_devices(*topology, i as int, selected as nat),
        decreases topology.devices@.len() - i,
    {
        let d = &topology.devices[i];
        match find_holding(&topology.assignments, d.instance.as_str()) {
            Some(j) => {
                let a = &topology.assignments[j];
                let inst = chars_of(d.instance.as_str());
                let prefix = chars_of("shard-");
                let mut is_prefixed = false;
                if inst.len() >= 6 {
                    let head = sub_chars(&inst, 0, 6);
                    assert(head@ =~= inst@.take(6));
                    is_prefixed = same_chars(&head, &prefix);
                }
                let name = if is_prefixed {
                    let rest = sub_chars(&inst, 6, inst.len());
                    assert(rest@ =~= inst@.skip(6));
                    string_of(&rest)
                } else {
                    d.instance.clone()
                };
                let mut address = d.local_ip.clone();
                push_text(&mut address, ":");
                push_decimal(&mut address, d.shard_port as u64);
                push_text(&mut address, " (");
                push_decimal(&mut address, d.server_port as u64);
                push_text(&mut address, ")");
                #[verifier::truncate]
                let num_rounds = a.layers.len() as u32;
                let entry = RingDevice {
                    index: i,
                    name,
                    address,
                    layers: TopologyInfo::format_layers(a.layers.as_slice()),
                    is_selected: i == selected,
                    num_rounds,
                    window_size: a.window_size,
                };
                let ghost before = v@;
                v.push(entry);
                assert(v@.map_values(|d: RingDevice| d@) =~= before.map_values(|d: RingDevice| d@).push(entry@));
                assert(entry@ == ring_device(*topology, i as int, topology.assignments@[j as int], selected as nat));
            },
            None => {},
        }
        i = i + 1;
    }
    v
}

} // verus!
