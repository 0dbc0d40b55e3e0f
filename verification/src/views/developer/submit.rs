use vstd::prelude::*;

use crate::common::devices::DeviceProperties;
use crate::common::shard::ShardHealth;
use crate::common::topology::AssignmentInfo;
use crate::config::{Config, KVBits};
use super::assignments::Assignments;
use super::manual::{ColumnSelection, ManualAssignmentState, ManualAssignmentView, ShardInfo};
use crate::views::menu::push_text;

verus! {

broadcast use vstd::string::group_string_axioms;

impl ShardInfo {
    /// A shard from its device and, when its health report could be read, what the report
    /// says of the model and the layers it holds; without a report, nothing loaded.
    pub fn from_health(device: DeviceProperties, health: Option<ShardHealth>) -> (s: ShardInfo)
        ensures
            s.device == device,
            match health {
                Some(h) => s.model_loaded == h.model_loaded && s.assigned_layers@ == h.assigned_layers@,
                None => !s.model_loaded && s.assigned_layers@.len() == 0,
            },
    {
        match health {
            Some(h) => ShardInfo { device, model_loaded: h.model_loaded, assigned_layers: h.assigned_layers },
            None => ShardInfo { device, model_loaded: false, assigned_layers: Vec::new() },
        }
    }
}

/// The devices of a listing of named devices.
pub open spec fn listed(ps: Seq<(String, DeviceProperties)>) -> Seq<DeviceProperties> {
    ps.map_values(|p: (String, DeviceProperties)| p.1)
}

/// The devices that can take layers: all but the managers, in order.
pub open spec fn workers(ds: Seq<DeviceProperties>) -> Seq<DeviceProperties>
    decreases ds.len(),
{
    if ds.len() == 0 {
        Seq::empty()
    } else if ds.last().is_manager {
        workers(ds.drop_last())
    } else {
        workers(ds.drop_last()).push(ds.last())
    }
}

/// The devices of a device listing that are shards (not managers), in listing order.
pub fn shard_devices(devices: &Vec<(String, DeviceProperties)>) -> (v: Vec<DeviceProperties>)
    ensures
        v@.len() == workers(listed(devices@)).len(),
        forall|k: int| 0 <= k < v@.len() ==> (#[trigger] v@[k]).same_as(workers(listed(devices@))[k]),
{
    let ghost all = listed(devices@);
    let mut v: Vec<DeviceProperties> = Vec::new();
    let mut i: usize = 0;
    while i < devices.len()
        invariant
            i <= devices@.len(),
            all == listed(devices@),
            v@.len() == workers(all.take(i as int)).len(),
            forall|k: int| 0 <= k < v@.len() ==> (#[trigger] v@[k]).same_as(workers(all.take(i as int))[k]),
        decreases devices@.len() - i,
    {
        let d = &devices[i].1;
        proof {
            assert(all.take(i + 1).drop_last() =~= all.take(i as int));
            assert(all.take(i + 1).last() == *d);
        }
        if !d.is_manager {
            v.push(d.duplicate());
        }
        i = i + 1;
    }
    assert(all.take(all.len() as int) =~= all);
    v
}

/// The body of a request to set up a topology from a manual assignment.
#[derive(Debug)]
pub struct ManualTopologyRequest {
    pub model: String,
    pub devices: Vec<DeviceProperties>,
    pub assignments: Vec<AssignmentInfo>,
    pub num_layers: u32,
    pub kv_bits: KVBits,
    pub seq_len: u32,
    pub max_batch_size: u8,
}

/// The instance that the pairs `next` name after `name` (the first pair for it).
pub open spec fn lookup_next(next: Seq<(Seq<char>, Seq<char>)>, name: Seq<char>) -> Option<Seq<char>>
    decreases next.len(),
{
    if next.len() == 0 {
        None
    } else {
        let r = lookup_next(next.drop_last(), name);
        if r is Some {
            r
        } else if next.last().0 == name {
            Some(next.last().1)
        } else {
            None
        }
    }
}

/// The names of the shards.
pub open spec fn shard_names(shards: Seq<ShardInfo>) -> Seq<Seq<char>> {
    shards.map_values(|s: ShardInfo| s.device.instance@)
}

/// The instance after `name` in the submitted ring: the one `next` names when it is one of
/// the shards, else `name` itself.
pub open spec fn chosen_next(shards: Seq<ShardInfo>, next: Seq<(Seq<char>, Seq<char>)>, name: Seq<char>) -> Seq<char> {
    match lookup_next(next, name) {
        Some(t) => if shard_names(shards).contains(t) {
            t
        } else {
            name
        },
        None => name,
    }
}

/// The positions of the shards that have an assignment, in order.
pub open spec fn assigned_positions(shards: Seq<ShardInfo>, m: Map<Seq<char>, Seq<u32>>) -> Seq<int>
    decreases shards.len(),
{
    if shards.len() == 0 {
        Seq::empty()
    } else {
        let prev = assigned_positions(shards.drop_last(), m);
        if m.dom().contains(shards.last().device.instance@) {
            prev.push(shards.len() - 1)
        } else {
            prev
        }
    }
}

/// The pairs as text.
pub open spec fn pairs_view(next: Seq<(String, String)>) -> Seq<(Seq<char>, Seq<char>)> {
    next.map_values(|p: (String, String)| (p.0@, p.1@))
}

fn find_next(next: &Vec<(String, String)>, name: &String) -> (r: Option<usize>)
    ensures
        match r {
            Some(j) => j < next@.len() && lookup_next(pairs_view(next@), name@) == Some(next@[j as int].1@),
            None => lookup_next(pairs_view(next@), name@) is None,
        },
{
    let ghost pv = pairs_view(next@);
    let mut j: usize = 0;
    while j < next.len()
        invariant
            j <= next@.len(),
            pv == pairs_view(next@),
            lookup_next(pv.take(j as int), name@) is None,
        decreases next@.len() - j,
    {
        proof {
            assert(pv.take(j + 1).drop_last() =~= pv.take(j as int));
        }
        if next[j].0 == *name {
            assert(lookup_next(pv.take(j + 1), name@) == Some(next@[j as int].1@));
            proof {
                lemma_lookup_prefix(pv, name@, j + 1);
            }
            return Some(j);
        }
        j = j + 1;
    }
    assert(pv.take(pv.len() as int) =~= pv);
    None
}

proof fn lemma_lookup_prefix(s: Seq<(Seq<char>, Seq<char>)>, name: Seq<char>, k: int)
    requires
        0 <= k <= s.len(),
        lookup_next(s.take(k), name) is Some,
    ensures
        lookup_next(s, name) == lookup_next(s.take(k), name),
    decreases s.len() - k,
{
    if k < s.len() {
        assert(s.take(k + 1).drop_last() =~= s.take(k));
        lemma_lookup_prefix(s, name, k + 1);
    } else {
        assert(s.take(k) =~= s);
    }
}

fn is_shard_name(shards: &Vec<ShardInfo>, name: &String) -> (b: bool)
    ensures
        b == shard_names(shards@).contains(name@),
{
    let mut i: usize = 0;
    while i < shards.len()
        invariant
            i <= shards@.len(),
            forall|j: int| 0 <= j < i ==> shard_names(shards@)[j] != name@,
        decreases shards@.len() - i,
    {
        if shards[i].device.instance == *name {
            assert(shard_names(shards@)[i as int] == name@);
            return true;
        }
        i = i + 1;
    }
    false
}

/// How the request describes the shard at position `i`, whose layers are `layers`.
pub open spec fn assignment_entry(shards: Seq<ShardInfo>, next: Seq<(Seq<char>, Seq<char>)>, i: int, layers: Seq<u32>, a: AssignmentInfo) -> bool {
    let name = shards[i].device.instance@;
    &&& a.instance@ == name
    &&& a.layers@.len() == 1 && a.layers@[0]@ == layers
    &&& a.next_instance@ == chosen_next(shards, next, name)
    &&& a.window_size == layers.len() as u32
    &&& a.residency_size == layers.len() as u32
}

/// The devices and descriptions collected for the shards at positions `pos`, all below `bound`.
pub open spec fn collected(
    shards: Seq<ShardInfo>,
    nv: Seq<(Seq<char>, Seq<char>)>,
    m: Map<Seq<char>, Seq<u32>>,
    pos: Seq<int>,
    devices: Seq<DeviceProperties>,
    infos: Seq<AssignmentInfo>,
    bound: int,
) -> bool {
    &&& devices.len() == pos.len()
    &&& infos.len() == pos.len()
    &&& forall|k: int| 0 <= k < pos.len() ==> {
        &&& 0 <= #[trigger] pos[k] < bound
        &&& devices[k].same_as(shards[pos[k]].device)
        &&& assignment_entry(shards, nv, pos[k], m[shards[pos[k]].device.instance@], infos[k])
    }
}

/// The request that sets up the manual assignment: the model, the layer count (cut to 32
/// bits), the devices of the shards that have layers and, for each of them in shard order,
/// its layers as one round, the instance after it (as `next` says, when that is a shard,
/// else itself) and a window and residency of its layer count; with the cache precision,
/// sequence length and batch exponent of `config`.
pub fn manual_topology_request(
    config: &Config,
    model: &str,
    num_layers: u64,
    shards: &Vec<ShardInfo>,
    assignments: &Assignments,
    next: &Vec<(String, String)>,
) -> (r: ManualTopologyRequest)
    requires
        assignments.wf(),
    ensures
        r.model@ == model@,
        r.num_layers == num_layers as u32,
        r.kv_bits == config.kv_bits,
        r.seq_len == config.seq_len,
        r.max_batch_size == config.max_batch_exp,
        collected(
            shards@,
            pairs_view(next@),
            assignments.map(),
            assigned_positions(shards@, assignments.map()),
            r.devices@,
            r.assignments@,
            shards@.len() as int,
        ),
{
    let ghost m = assignments.map();
    let ghost nv = pairs_view(next@);
    let mut devices: Vec<DeviceProperties> = Vec::new();
    let mut infos: Vec<AssignmentInfo> = Vec::new();
    let mut i: usize = 0;
    while i < shards.len()
        invariant
            i <= shards@.len(),
            assignments.wf(),
            m == assignments.map(),
            nv == pairs_view(next@),
            collected(shards@, nv, m, assigned_positions(shards@.take(i as int), m), devices@, infos@, i as int),
        decreases shards@.len() - i,
    {
        proof {
            assert(shards@.take(i + 1).drop_last() =~= shards@.take(i as int));
            assert(shards@.take(i + 1).last() == shards@[i as int]);
        }
        let shard = &shards[i];
        let ghost pos0 = assigned_positions(shards@.take(i as int), m);
        let ghost devs0 = devices@;
        let ghost infos0 = infos@;
        match assignments.get(&shard.device.instance) {
            Some(layers) => {
                let name = shard.device.instance.clone();
                let next_instance = match find_next(next, &name) {
                    Some(j) => if is_shard_name(shards, &next[j].1) {
                        next[j].1.clone()
                    } else {
                        name.clone()
                    },
                    None => name.clone(),
                };
                let mut rounds: Vec<Vec<u32>> = Vec::new();
                rounds.push(layers.clone());
                #[verifier::truncate]
                let size = layers.len() as u32;
                let info = AssignmentInfo {
                    instance: name,
                    layers: rounds,
                    next_instance,
                    window_size: size,
                    residency_size: size,
                };
                assert(assignment_entry(shards@, nv, i as int, m[shards@[i as int].device.instance@], info));
                devices.push(shard.device.duplicate());
                infos.push(info);
                proof {
                    let pos1 = assigned_positions(shards@.take(i + 1), m);
                    assert(pos1 == pos0.push(i as int));
                    assert forall|k: int| 0 <= k < pos1.len() implies {
                        &&& 0 <= #[trigger] pos1[k] < i + 1
                        &&& devices@[k].same_as(shards@[pos1[k]].device)
                        &&& assignment_entry(shards@, nv, pos1[k], m[shards@[pos1[k]].device.instance@], infos@[k])
                    } by {
                        if k < pos0.len() {
                            assert(pos1[k] == pos0[k]);
                            assert(devices@[k] == devs0[k]);
                            assert(infos@[k] == infos0[k]);
                        }
                    }
                    assert(collected(shards@, nv, m, pos1, devices@, infos@, i + 1));
                }
            },
            None => {
                proof {
                    let pos1 = assigned_positions(shards@.take(i + 1), m);
                    assert(pos1 == pos0);
                    assert forall|k: int| 0 <= k < pos1.len() implies 0 <= #[trigger] pos1[k] < i + 1 by {
                        assert(pos1[k] == pos0[k]);
                    }
                    assert(collected(shards@, nv, m, pos1, devices@, infos@, i + 1));
                }
            },
        }
        i = i + 1;
    }
    assert(shards@.take(shards@.len() as int) =~= shards@);
    #[verifier::truncate]
    let layer_count = num_layers as u32;
    ManualTopologyRequest {
        model: model.to_string(),
        devices,
        assignments: infos,
        num_layers: layer_count,
        kv_bits: config.kv_bits,
        seq_len: config.seq_len,
        max_batch_size: config.max_batch_exp,
    }
}

/// The screen after fetching the shards and the model's layer count for `model`: with both,
/// a fresh assignment of that model over those shards; otherwise the error's text.
pub fn after_fetching_shards(st: &mut ManualAssignmentState, model: String, fetched: Result<(Vec<ShardInfo>, u64), String>)
    -> (v: ManualAssignmentView)
    requires
        old(st).wf(),
    ensures
        final(st).wf(),
        match fetched {
            Ok((shards, n)) => v is AssigningLayers && final(st).model@ == model@
                && final(st).num_layers == n as u32 && final(st).shards@ == shards@
                && final(st)@.assignments == Map::<Seq<char>, Seq<u32>>::empty()
                && final(st)@.column == ColumnSelection::Unassigned && final(st)@.sel_u == 0
                && final(st)@.sel_a == 0 && !final(st)@.typing,
            Err(e) => (v matches ManualAssignmentView::Error(m) && m@ == e@) && *final(st) == *old(st),
        },
{
    match fetched {
        Ok((shards, n)) => {
            #[verifier::truncate]
            let layers = n as u32;
            *st = ManualAssignmentState {
                model,
                num_layers: layers,
                shards,
                assignments: Assignments::new(),
                selected_column: ColumnSelection::Unassigned,
                selected_unassigned_index: 0,
                selected_assigned_index: 0,
                is_typing: false,
            };
            ManualAssignmentView::AssigningLayers
        },
        Err(e) => ManualAssignmentView::Error(e),
    }
}

/// The screen after submitting the assignment of `model`: loading it, or the error's text.
pub fn after_submit(model: String, outcome: Result<(), String>) -> (v: ManualAssignmentView)
    ensures
        match outcome {
            Ok(_) => v matches ManualAssignmentView::LoadingModel(m) && m@ == model@,
            Err(e) => v matches ManualAssignmentView::Error(m) && m@ == e@,
        },
{
    match outcome {
        Ok(_) => ManualAssignmentView::LoadingModel(model),
        Err(e) => ManualAssignmentView::Error(e),
    }
}

/// The screen after loading the manually assigned model: success, or
/// `Failed to load model: ` and the error's text.
pub fn after_manual_load(outcome: Result<(), String>) -> (v: ManualAssignmentView)
    ensures
        match outcome {
            Ok(_) => v is Success,
            Err(e) => v matches ManualAssignmentView::Error(m) && m@ == "Failed to load model: "@ + e@,
        },
{
    match outcome {
        Ok(_) => ManualAssignmentView::Success,
        Err(e) => {
            let mut m = "Failed to load model: ".to_string();
            push_text(&mut m, e.as_str());
            ManualAssignmentView::Error(m)
        },
    }
}

} // verus!
