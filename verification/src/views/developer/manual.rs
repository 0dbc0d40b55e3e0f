use vstd::prelude::*;

use crate::common::devices::DeviceProperties;
use crate::input::{KeyCode, KeyPress};
use crate::widgets::model_selector::ModelSelectorState;
use super::assignments::Assignments;
use super::utils::{
    ascending_of, find_missing_layers, input_layers, parse_layer_input, strictly_ascending,
};
use crate::text::{pop_char, push_char};
use std::collections::HashSet;

verus! {

broadcast use vstd::string::group_string_axioms;

/// The steps of assigning layers by hand.
#[derive(Debug)]
pub enum ManualAssignmentView {
    SelectingModel,
    FetchingShards(String),
    AssigningLayers,
    Submitting,
    LoadingModel(String),
    Success,
    Error(String),
}

/// The developer screens.
#[derive(Debug)]
pub enum DeveloperView {
    Menu,
    ManualAssignment(ManualAssignmentView),
}

/// Which of the two shard columns has the cursor.
#[derive(Debug, Clone, Copy, PartialEq, Eq, Structural)]
pub enum ColumnSelection {
    Unassigned,
    Assigned,
}

/// A shard that can take layers, with what its health report said.
#[derive(Debug)]
pub struct ShardInfo {
    pub device: DeviceProperties,
    pub model_loaded: bool,
    pub assigned_layers: Vec<u32>,
}

/// The state of the manual assignment screen.
#[derive(Debug)]
pub struct ManualAssignmentState {
    pub model: String,
    pub num_layers: u32,
    pub shards: Vec<ShardInfo>,
    pub assignments: Assignments,
    pub selected_column: ColumnSelection,
    pub selected_unassigned_index: usize,
    pub selected_assigned_index: usize,
    pub is_typing: bool,
}

/// What the assignment logic reads of the manual assignment state.
#[verifier::ext_equal]
pub struct ManualModel {
    pub names: Seq<Seq<char>>,
    pub loaded: Seq<bool>,
    pub assignments: Map<Seq<char>, Seq<u32>>,
    pub num_layers: u32,
    pub column: ColumnSelection,
    pub sel_u: usize,
    pub sel_a: usize,
    pub typing: bool,
}

impl View for ManualAssignmentState {
    type V = ManualModel;

    open spec fn view(&self) -> ManualModel {
        ManualModel {
            names: self.shards@.map_values(|s: ShardInfo| s.device.instance@),
            loaded: self.shards@.map_values(|s: ShardInfo| s.model_loaded),
            assignments: self.assignments.map(),
            num_layers: self.num_layers,
            column: self.selected_column,
            sel_u: self.selected_unassigned_index,
            sel_a: self.selected_assigned_index,
            typing: self.is_typing,
        }
    }
}

impl ManualAssignmentState {
    /// The assignments name no shard twice.
    pub open spec fn wf(&self) -> bool {
        self.assignments.wf()
    }

    /// An empty state: no model, no shards, no assignments, cursor in the left column.
    pub fn new() -> (s: Self)
        ensures
            s.wf(),
            s.model@.len() == 0,
            s@.names.len() == 0,
            s@.assignments == Map::<Seq<char>, Seq<u32>>::empty(),
            s@.num_layers == 0,
            s@.column == ColumnSelection::Unassigned,
            s@.sel_u == 0,
            s@.sel_a == 0,
            !s@.typing,
    {
        let s = ManualAssignmentState {
            model: String::new(),
            num_layers: 0,
            shards: Vec::new(),
            assignments: Assignments::new(),
            selected_column: ColumnSelection::Unassigned,
            selected_unassigned_index: 0,
            selected_assigned_index: 0,
            is_typing: false,
        };
        assert(s@.names =~= Seq::<Seq<char>>::empty());
        s
    }
}

/// The layers assigned to shard `i`, none when it has no entry.
pub open spec fn layers_of(m: ManualModel, i: int) -> Seq<u32> {
    if m.assignments.dom().contains(m.names[i]) {
        m.assignments[m.names[i]]
    } else {
        Seq::empty()
    }
}

/// Whether shard `i` belongs in the left column: no layers assigned and no model loaded.
pub open spec fn is_unassigned(m: ManualModel, i: int) -> bool {
    layers_of(m, i).len() == 0 && !m.loaded[i]
}

/// The indices below `n` of the shards in the left column (`left`) or the right one.
pub open spec fn column_indices(m: ManualModel, n: nat, left: bool) -> Seq<usize>
    decreases n,
{
    if n == 0 {
        Seq::empty()
    } else {
        let rest = column_indices(m, (n - 1) as nat, left);
        if is_unassigned(m, n - 1) == left {
            rest.push((n - 1) as usize)
        } else {
            rest
        }
    }
}

/// The shards in the left column, in shard order.
pub open spec fn unassigned_shards(m: ManualModel) -> Seq<usize> {
    column_indices(m, m.names.len(), true)
}

/// The shards in the right column, in shard order.
pub open spec fn assigned_shards(m: ManualModel) -> Seq<usize> {
    column_indices(m, m.names.len(), false)
}

/// The shard under the cursor, if the cursor is on one.
pub open spec fn selected_shard(m: ManualModel) -> Option<usize> {
    match m.column {
        ColumnSelection::Unassigned => if m.sel_u < unassigned_shards(m).len() {
            Some(unassigned_shards(m)[m.sel_u as int])
        } else {
            None
        },
        ColumnSelection::Assigned => if m.sel_a < assigned_shards(m).len() {
            Some(assigned_shards(m)[m.sel_a as int])
        } else {
            None
        },
    }
}

proof fn lemma_column_indices(m: ManualModel, n: nat, left: bool)
    requires
        n <= m.names.len(),
        n <= usize::MAX,
    ensures
        forall|k: int| 0 <= k < column_indices(m, n, left).len() ==> {
            let i = #[trigger] column_indices(m, n, left)[k];
            &&& i < n
            &&& is_unassigned(m, i as int) == left
        },
    decreases n,
{
    if n > 0 {
        lemma_column_indices(m, (n - 1) as nat, left);
        let rest = column_indices(m, (n - 1) as nat, left);
        assert forall|k: int| 0 <= k < column_indices(m, n, left).len() implies {
            let i = #[trigger] column_indices(m, n, left)[k];
            &&& i < n
            &&& is_unassigned(m, i as int) == left
        } by {
            if k < rest.len() {
                assert(column_indices(m, n, left)[k] == rest[k]);
            } else {
                assert(column_indices(m, n, left)[k] == (n - 1) as usize);
            }
        }
    }
}

proof fn lemma_column_len(m: ManualModel, n: nat, left: bool)
    ensures
        column_indices(m, n, left).len() <= n,
    decreases n,
{
    if n > 0 {
        lemma_column_len(m, (n - 1) as nat, left);
    }
}

proof fn lemma_push_to_set(s: Seq<u32>, x: u32)
    ensures
        s.push(x).to_set() == s.to_set().insert(x),
{
    assert forall|y: u32| s.push(x).to_set().contains(y) <==> s.to_set().insert(x).contains(y) by {
        if s.push(x).to_set().contains(y) {
            let k = choose|k: int| 0 <= k < s.push(x).len() && s.push(x)[k] == y;
            if k < s.len() {
                assert(s[k] == y);
            }
        }
        if s.to_set().contains(y) {
            let k = choose|k: int| 0 <= k < s.len() && s[k] == y;
            assert(s.push(x)[k] == y);
        }
        if y == x {
            assert(s.push(x)[s.len() as int] == x);
        }
    }
    assert(s.push(x).to_set() =~= s.to_set().insert(x));
}

/// Splits the shards into the left column (no layers, no model) and the right column,
/// each as shard indices in shard order.
pub fn partition_shards(state: &ManualAssignmentState) -> (r: (Vec<usize>, Vec<usize>))
    requires
        state.wf(),
    ensures
        r.0@ == unassigned_shards(state@),
        r.1@ == assigned_shards(state@),
{
    let mut unassigned: Vec<usize> = Vec::new();
    let mut assigned: Vec<usize> = Vec::new();
    let mut i: usize = 0;
    while i < state.shards.len()
        invariant
            state.wf(),
            i <= state.shards@.len(),
            unassigned@ == column_indices(state@, i as nat, true),
            assigned@ == column_indices(state@, i as nat, false),
        decreases state.shards@.len() - i,
    {
        let shard = &state.shards[i];
        let empty = match state.assignments.get(&shard.device.instance) {
            Some(l) => l.len() == 0,
            None => true,
        };
        assert(state@.names[i as int] == shard.device.instance@);
        assert(state@.loaded[i as int] == shard.model_loaded);
        if empty && !shard.model_loaded {
            unassigned.push(i);
        } else {
            assigned.push(i);
        }
        i = i + 1;
    }
    (unassigned, assigned)
}

/// The index and name of the shard under the cursor, if any.
pub fn get_selected_shard_info(state: &ManualAssignmentState) -> (r: (Option<usize>, Option<String>))
    requires
        state.wf(),
    ensures
        r.0 == selected_shard(state@),
        r.1.is_some() == r.0.is_some(),
        r.0.is_some() ==> r.0.unwrap() < state@.names.len() && r.1.unwrap()@ == state@.names[
            r.0.unwrap() as int],
{
    let (unassigned, assigned) = partition_shards(state);
    let n = state.shards.len();
    proof {
        assert(state@.names.len() == n);
        lemma_column_indices(state@, n as nat, true);
        lemma_column_indices(state@, n as nat, false);
    }
    match state.selected_column {
        ColumnSelection::Unassigned => {
            if state.selected_unassigned_index < unassigned.len() {
                let i = unassigned[state.selected_unassigned_index];
                (Some(i), Some(state.shards[i].device.instance.clone()))
            } else {
                (None, None)
            }
        },
        ColumnSelection::Assigned => {
            if state.selected_assigned_index < assigned.len() {
                let i = assigned[state.selected_assigned_index];
                (Some(i), Some(state.shards[i].device.instance.clone()))
            } else {
                (None, None)
            }
        },
    }
}

/// Every layer assigned to some shard.
pub open spec fn assigned_layer_set(m: Map<Seq<char>, Seq<u32>>) -> Set<u32> {
    Set::new(|l: u32| exists|k: Seq<char>| m.dom().contains(k) && #[trigger] m[k].contains(l))
}

/// Whether a shard other than `name` already holds one of `layers`.
pub open spec fn collides(m: Map<Seq<char>, Seq<u32>>, name: Seq<char>, layers: Set<u32>) -> bool {
    exists|k: Seq<char>, l: u32|
        m.dom().contains(k) && k != name && layers.contains(l) && #[trigger] m[k].contains(l)
}

/// The layers of `0..num_layers` that no shard holds yet.
pub open spec fn missing_layer_set(m: ManualModel) -> Set<u32> {
    Set::new(|l: u32| l < m.num_layers && !assigned_layer_set(m.assignments).contains(l))
}

/// All layers assigned to some shard.
pub fn all_assigned_layers(state: &ManualAssignmentState) -> (s: HashSet<u32>)
    requires
        state.wf(),
    ensures
        s@ == assigned_layer_set(state@.assignments),
{
    broadcast use vstd::std_specs::hash::group_hash_axioms;

    proof {
        state.assignments.lemma_map();
    }
    let ghost m = state@.assignments;
    let mut s: HashSet<u32> = HashSet::new();
    let mut i: usize = 0;
    while i < state.assignments.len()
        invariant
            state.wf(),
            m == state@.assignments,
            i <= state.assignments.entries().len(),
            s@ == Set::new(|l: u32| exists|k: int| 0 <= k < i && #[trigger] state.assignments.entries()[k].1.contains(l)),
        decreases state.assignments.entries().len() - i,
    {
        let layers = state.assignments.layers_at(i);
        let mut j: usize = 0;
        let ghost before = s@;
        while j < layers.len()
            invariant
                j <= layers@.len(),
                s@ == before.union(layers@.take(j as int).to_set()),
            decreases layers@.len() - j,
        {
            s.insert(layers[j]);
            assert(layers@.take(j + 1).to_set() == layers@.take(j as int).to_set().insert(layers@[j as int])) by {
                assert(layers@.take(j + 1) =~= layers@.take(j as int).push(layers@[j as int]));
                lemma_push_to_set(layers@.take(j as int), layers@[j as int]);
            }
            assert(s@ =~= before.union(layers@.take(j + 1).to_set()));
            j = j + 1;
        }
        assert(layers@.take(layers@.len() as int) =~= layers@);
        assert(s@ =~= Set::new(|l: u32| exists|k: int| 0 <= k < i + 1 && #[trigger] state.assignments.entries()[k].1.contains(l))) by {
            assert forall|l: u32| s@.contains(l) <==> (exists|k: int| 0 <= k < i + 1 && #[trigger] state.assignments.entries()[k].1.contains(l)) by {
                if layers@.to_set().contains(l) {
                    assert(state.assignments.entries()[i as int].1.contains(l));
                }
                if exists|k: int| 0 <= k < i + 1 && #[trigger] state.assignments.entries()[k].1.contains(l) {
                    let k = choose|k: int| 0 <= k < i + 1 && #[trigger] state.assignments.entries()[k].1.contains(l);
                    if k == i {
                        assert(layers@.to_set().contains(l));
                    }
                }
            }
        }
        i = i + 1;
    }
    proof {
        state.assignments.lemma_map();
        assert(s@ =~= assigned_layer_set(m)) by {
            assert forall|l: u32| s@.contains(l) <==> assigned_layer_set(m).contains(l) by {
                if s@.contains(l) {
                    let k = choose|k: int| 0 <= k < i && #[trigger] state.assignments.entries()[k].1.contains(l);
                    let key = state.assignments.entries()[k].0;
                    assert(m.dom().contains(key));
                    assert(m[key].contains(l));
                }
                if assigned_layer_set(m).contains(l) {
                    let key = choose|key: Seq<char>| m.dom().contains(key) && #[trigger] m[key].contains(l);
                    let k = choose|k: int| 0 <= k < state.assignments.entries().len() && state.assignments.entries()[k].0 == key;
                    assert(state.assignments.entries()[k].1.contains(l));
                }
            }
        }
    }
    s
}

/// Whether a shard other than `name` already holds one of `layers`.
pub fn has_collision(state: &ManualAssignmentState, name: &String, layers: &Vec<u32>) -> (b: bool)
    requires
        state.wf(),
    ensures
        b == collides(state@.assignments, name@, layers@.to_set()),
{
    proof {
        state.assignments.lemma_map();
    }
    let ghost m = state@.assignments;
    let mut i: usize = 0;
    while i < state.assignments.len()
        invariant
            state.wf(),
            m == state@.assignments,
            i <= state.assignments.entries().len(),
            forall|k: int, l: u32| 0 <= k < i && state.assignments.entries()[k].0 != name@ && layers@.contains(l)
                ==> !#[trigger] state.assignments.entries()[k].1.contains(l),
        decreases state.assignments.entries().len() - i,
    {
        proof {
            state.assignments.lemma_map();
        }
        if *state.assignments.name_at(i) != *name {
            let other = state.assignments.layers_at(i);
            let mut j: usize = 0;
            while j < layers.len()
                invariant
                    state.wf(),
                    m == state@.assignments,
                    i < state.assignments.entries().len(),
                    other@ == state.assignments.entries()[i as int].1,
                    state.assignments.entries()[i as int].0 != name@,
                    j <= layers@.len(),
                    forall|a: int| 0 <= a < j ==> !other@.contains(#[trigger] layers@[a]),
                decreases layers@.len() - j,
            {
                let mut k: usize = 0;
                while k < other.len()
                    invariant
                        state.wf(),
                        m == state@.assignments,
                        i < state.assignments.entries().len(),
                        other@ == state.assignments.entries()[i as int].1,
                        state.assignments.entries()[i as int].0 != name@,
                        k <= other@.len(),
                        j < layers@.len(),
                        forall|b: int| 0 <= b < k ==> other@[b] != layers@[j as int],
                    decreases other@.len() - k,
                {
                    if other[k] == layers[j] {
                        proof {
                            state.assignments.lemma_map();
                            let key = state.assignments.entries()[i as int].0;
                            assert(m.dom().contains(key));
                            assert(m[key] == other@);
                            assert(other@[k as int] == layers@[j as int]);
                            assert(m[key].contains(layers@[j as int]));
                            assert(layers@.to_set().contains(layers@[j as int]));
                        }
                        return true;
                    }
                    k = k + 1;
                }
                assert(!other@.contains(layers@[j as int]));
                j = j + 1;
            }
            assert forall|l: u32| layers@.contains(l) implies !other@.contains(l) by {
                let a = choose|a: int| 0 <= a < layers@.len() && layers@[a] == l;
                assert(!other@.contains(layers@[a]));
            }
        }
        i = i + 1;
    }
    proof {
        if collides(m, name@, layers@.to_set()) {
            let (key, l) = choose|key: Seq<char>, l: u32| m.dom().contains(key) && key != name@
                && layers@.to_set().contains(l) && #[trigger] m[key].contains(l);
            let k = choose|k: int| 0 <= k < state.assignments.entries().len() && state.assignments.entries()[k].0 == key;
            assert(state.assignments.entries()[k].1.contains(l));
        }
    }
    false
}

/// The message shown when typed layers are already held by another shard.
pub const COLLISION_MESSAGE: &'static str =
    "Error: Layer collision detected! Those layers are already assigned to another shard.";

/// `m` with the cursor moved to the right column when the left one has become empty.
pub open spec fn settle_after_assign(m: ManualModel) -> ManualModel {
    if unassigned_shards(m).len() == 0 && assigned_shards(m).len() > 0 {
        ManualModel { column: ColumnSelection::Assigned, sel_a: 0, ..m }
    } else {
        m
    }
}

/// `m` with the cursor kept on a shard after one has left the right column.
pub open spec fn settle_after_deassign(m: ManualModel) -> ManualModel {
    if assigned_shards(m).len() == 0 && unassigned_shards(m).len() > 0 {
        ManualModel { column: ColumnSelection::Unassigned, sel_u: 0, ..m }
    } else if m.column == ColumnSelection::Assigned && m.sel_a >= assigned_shards(m).len()
        && assigned_shards(m).len() > 0 {
        ManualModel { sel_a: (assigned_shards(m).len() - 1) as usize, ..m }
    } else {
        m
    }
}

/// What confirming typed layer input does: the layers it names (if any) go to the shard
/// under the cursor unless another shard holds one of them, in which case the collision
/// is reported. Returns the new model and whether a collision was reported (`Some(true)`),
/// the status was cleared (`Some(false)`), or it was left alone (`None`).
pub open spec fn confirm_layers(m: ManualModel, input: Seq<char>) -> (ManualModel, Option<bool>) {
    let layers = input_layers(input, m.num_layers as nat);
    let done = ManualModel { typing: false, ..m };
    if !layers.is_empty() && selected_shard(m).is_some() {
        let name = m.names[selected_shard(m).unwrap() as int];
        if collides(m.assignments, name, layers) {
            (done, Some(true))
        } else {
            (
                settle_after_assign(
                    ManualModel {
                        assignments: m.assignments.insert(name, ascending_of(layers)),
                        ..done
                    },
                ),
                Some(false),
            )
        }
    } else {
        (done, None)
    }
}

/// Whether `c` may be typed into layer input: a digit, `,`, `-` or a space.
pub open spec fn layer_input_char(c: char) -> bool {
    ('0' <= c && c <= '9') || c == ',' || c == '-' || c == ' '
}

/// The index `i` clamped into a column of `n` shards (`n > 0`).
pub open spec fn clamp_index(i: usize, n: nat) -> usize {
    if i >= n {
        (n - 1) as usize
    } else {
        i
    }
}

/// What a key does to the shard columns while no layers are being typed
/// (arrows move the cursor; other keys leave the model alone here).
pub open spec fn navigate(m: ManualModel, code: KeyCode) -> ManualModel {
    let nu = unassigned_shards(m).len();
    let na = assigned_shards(m).len();
    match code {
        KeyCode::Left => if nu > 0 {
            ManualModel { column: ColumnSelection::Unassigned, sel_u: clamp_index(m.sel_u, nu), ..m }
        } else {
            m
        },
        KeyCode::Right => if na > 0 {
            ManualModel { column: ColumnSelection::Assigned, sel_a: clamp_index(m.sel_a, na), ..m }
        } else {
            m
        },
        KeyCode::Up => match m.column {
            ColumnSelection::Unassigned => if m.sel_u > 0 {
                ManualModel { sel_u: (m.sel_u - 1) as usize, ..m }
            } else {
                m
            },
            ColumnSelection::Assigned => if m.sel_a > 0 {
                ManualModel { sel_a: (m.sel_a - 1) as usize, ..m }
            } else {
                m
            },
        },
        KeyCode::Down => match m.column {
            ColumnSelection::Unassigned => if nu > 0 && m.sel_u < nu - 1 {
                ManualModel { sel_u: (m.sel_u + 1) as usize, ..m }
            } else {
                m
            },
            ColumnSelection::Assigned => if na > 0 && m.sel_a < na - 1 {
                ManualModel { sel_a: (m.sel_a + 1) as usize, ..m }
            } else {
                m
            },
        },
        _ => m,
    }
}

/// Whether `post` keeps the shards and model of `pre`.
pub open spec fn same_shards(pre: ManualAssignmentState, post: ManualAssignmentState) -> bool {
    post.shards@ == pre.shards@ && post.model@ == pre.model@
}

/// Confirms typed layer input (see [`confirm_layers`]) and leaves typing mode.
pub fn confirm_typed_layers(st: &mut ManualAssignmentState, input: &String, status: &mut String)
    requires
        old(st).wf(),
    ensures
        final(st).wf(),
        same_shards(*old(st), *final(st)),
        final(st)@ == confirm_layers(old(st)@, input@).0,
        match confirm_layers(old(st)@, input@).1 {
            Some(true) => final(status)@ == COLLISION_MESSAGE@,
            Some(false) => final(status)@.len() == 0,
            None => final(status)@ == old(status)@,
        },
{
    let ghost pre = st@;
    let shard_info = get_selected_shard_info(st);
    if let Some(layers) = parse_layer_input(input.as_str(), st.num_layers) {
        if let (Some(_idx), Some(name)) = shard_info {
            if has_collision(st, &name, &layers) {
                assert(input_layers(input@, pre.num_layers as nat).contains(layers@[0]));
                *status = COLLISION_MESSAGE.to_string();
                st.is_typing = false;
                assert(st@ =~= confirm_layers(pre, input@).0);
            } else {
                let ghost key = name@;
                let ghost set = input_layers(input@, pre.num_layers as nat);
                assert(key == pre.names[selected_shard(pre).unwrap() as int]);
                assert(set.contains(layers@[0]));
                assert(!set.is_empty());
                assert(!collides(pre.assignments, key, set));
                st.assignments.insert(name, layers);
                *status = String::new();
                let ghost mid = st@;
                let ghost inner = ManualModel {
                    assignments: pre.assignments.insert(key, ascending_of(input_layers(input@, pre.num_layers as nat))),
                    typing: false,
                    ..pre
                };
                assert(mid.assignments =~= inner.assignments);
                let (u, a) = partition_shards(st);
                if u.len() == 0 && a.len() > 0 {
                    st.selected_column = ColumnSelection::Assigned;
                    st.selected_assigned_index = 0;
                }
                st.is_typing = false;
                proof {
                    lemma_column_indices_typing(mid, inner, mid.names.len(), true);
                    lemma_column_indices_typing(mid, inner, mid.names.len(), false);
                }
                assert(st@ =~= settle_after_assign(inner));
                assert(st@ =~= confirm_layers(pre, input@).0);
            }
        } else {
            assert(selected_shard(pre).is_none());
            st.is_typing = false;
            assert(st@ =~= ManualModel { typing: false, ..pre });
            assert(st@ =~= confirm_layers(pre, input@).0);
        }
    } else {
        st.is_typing = false;
        assert(st@ =~= confirm_layers(pre, input@).0);
    }
}

/// Column membership depends only on names, loaded models and assignments.
proof fn lemma_column_indices_typing(a: ManualModel, b: ManualModel, n: nat, left: bool)
    requires
        a.names == b.names,
        a.loaded == b.loaded,
        a.assignments == b.assignments,
    ensures
        column_indices(a, n, left) == column_indices(b, n, left),
    decreases n,
{
    if n > 0 {
        lemma_column_indices_typing(a, b, (n - 1) as nat, left);
    }
}

/// Drops the layers of shard `name` and keeps the cursor on a shard.
pub fn deassign(st: &mut ManualAssignmentState, name: &String)
    requires
        old(st).wf(),
    ensures
        final(st).wf(),
        same_shards(*old(st), *final(st)),
        final(st)@ == settle_after_deassign(
            ManualModel { assignments: old(st)@.assignments.remove(name@), ..old(st)@ },
        ),
{
    let ghost pre = st@;
    st.assignments.remove(name);
    let ghost mid = st@;
    assert(mid =~= ManualModel { assignments: pre.assignments.remove(name@), ..pre });
    let (u, a) = partition_shards(st);
    if a.len() == 0 && u.len() > 0 {
        st.selected_column = ColumnSelection::Unassigned;
        st.selected_unassigned_index = 0;
    } else if st.selected_column == ColumnSelection::Assigned {
        if st.selected_assigned_index >= a.len() && a.len() > 0 {
            st.selected_assigned_index = a.len() - 1;
        }
    }
    proof {
        lemma_column_indices_typing(mid, st@, mid.names.len(), true);
        lemma_column_indices_typing(mid, st@, mid.names.len(), false);
    }
    assert(st@ =~= settle_after_deassign(mid));
}

/// Up and Down move the cursor exactly one shard within its column, onto the neighbouring
/// shard, and change nothing else; at either end of the column they do nothing.
pub proof fn lemma_arrows_step_one_shard(m: ManualModel)
    requires
        m.names.len() <= usize::MAX,
    ensures
        m.column == ColumnSelection::Unassigned && m.sel_u + 1 < unassigned_shards(m).len() ==> {
            &&& navigate(m, KeyCode::Down) == (ManualModel { sel_u: (m.sel_u + 1) as usize, ..m })
            &&& selected_shard(navigate(m, KeyCode::Down)) == Some(unassigned_shards(m)[m.sel_u + 1])
        },
        m.column == ColumnSelection::Unassigned && 0 < m.sel_u < unassigned_shards(m).len() ==> {
            &&& navigate(m, KeyCode::Up) == (ManualModel { sel_u: (m.sel_u - 1) as usize, ..m })
            &&& selected_shard(navigate(m, KeyCode::Up)) == Some(unassigned_shards(m)[m.sel_u - 1])
        },
        m.column == ColumnSelection::Assigned && m.sel_a + 1 < assigned_shards(m).len() ==> {
            &&& navigate(m, KeyCode::Down) == (ManualModel { sel_a: (m.sel_a + 1) as usize, ..m })
            &&& selected_shard(navigate(m, KeyCode::Down)) == Some(assigned_shards(m)[m.sel_a + 1])
        },
        m.column == ColumnSelection::Assigned && 0 < m.sel_a < assigned_shards(m).len() ==> {
            &&& navigate(m, KeyCode::Up) == (ManualModel { sel_a: (m.sel_a - 1) as usize, ..m })
            &&& selected_shard(navigate(m, KeyCode::Up)) == Some(assigned_shards(m)[m.sel_a - 1])
        },
        m.column == ColumnSelection::Unassigned && m.sel_u + 1 == unassigned_shards(m).len()
            ==> navigate(m, KeyCode::Down) == m,
        m.column == ColumnSelection::Unassigned && m.sel_u == 0 ==> navigate(m, KeyCode::Up) == m,
        m.column == ColumnSelection::Assigned && m.sel_a + 1 == assigned_shards(m).len()
            ==> navigate(m, KeyCode::Down) == m,
        m.column == ColumnSelection::Assigned && m.sel_a == 0 ==> navigate(m, KeyCode::Up) == m,
{
    let n = m.names.len();
    lemma_column_len(m, n, true);
    lemma_column_len(m, n, false);
    let d = navigate(m, KeyCode::Down);
    let u = navigate(m, KeyCode::Up);
    lemma_column_indices_typing(m, d, n, true);
    lemma_column_indices_typing(m, d, n, false);
    lemma_column_indices_typing(m, u, n, true);
    lemma_column_indices_typing(m, u, n, false);
}

/// Applies an arrow key to the shard columns (see [`navigate`]).
pub fn navigate_columns(st: &mut ManualAssignmentState, code: KeyCode)
    requires
        old(st).wf(),
    ensures
        final(st).wf(),
        same_shards(*old(st), *final(st)),
        final(st)@ == navigate(old(st)@, code),
{
    let ghost pre = st@;
    let (u, a) = partition_shards(st);
    let nu = u.len();
    let na = a.len();
    match code {
        KeyCode::Left => {
            if nu > 0 {
                st.selected_column = ColumnSelection::Unassigned;
                if st.selected_unassigned_index >= nu {
                    st.selected_unassigned_index = nu - 1;
                }
            }
        },
        KeyCode::Right => {
            if na > 0 {
                st.selected_column = ColumnSelection::Assigned;
                if st.selected_assigned_index >= na {
                    st.selected_assigned_index = na - 1;
                }
            }
        },
        KeyCode::Up => {
            match st.selected_column {
                ColumnSelection::Unassigned => {
                    if st.selected_unassigned_index > 0 {
                        st.selected_unassigned_index -= 1;
                    }
                },
                ColumnSelection::Assigned => {
                    if st.selected_assigned_index > 0 {
                        st.selected_assigned_index -= 1;
                    }
                },
            }
        },
        KeyCode::Down => {
            match st.selected_column {
                ColumnSelection::Unassigned => {
                    if nu > 0 && st.selected_unassigned_index < nu - 1 {
                        st.selected_unassigned_index += 1;
                    }
                },
                ColumnSelection::Assigned => {
                    if na > 0 && st.selected_assigned_index < na - 1 {
                        st.selected_assigned_index += 1;
                    }
                },
            }
        },
        _ => {},
    }
    assert(st@ =~= navigate(pre, code));
}

/// Whether the assignment is sound: each shard's layers are listed in strictly ascending
/// order, no layer is held by two shards, and every held layer is below the model's layer count.
pub open spec fn assignment_sound(m: ManualModel) -> bool {
    &&& forall|k: Seq<char>| #[trigger] m.assignments.dom().contains(k) ==> strictly_ascending(m.assignments[k])
    &&& forall|k1: Seq<char>, k2: Seq<char>, l: u32|
        m.assignments.dom().contains(k1) && m.assignments.dom().contains(k2) && k1 != k2
            && #[trigger] m.assignments[k1].contains(l) ==> !#[trigger] m.assignments[k2].contains(l)
    &&& forall|k: Seq<char>, l: u32|
        m.assignments.dom().contains(k) && #[trigger] m.assignments[k].contains(l) ==> l < m.num_layers
}

proof fn lemma_input_layers_below(input: Seq<char>, max: nat)
    ensures
        forall|l: u32| input_layers(input, max).contains(l) ==> l < max,
{
    let ps = crate::text::split_on(input, ',');
    lemma_pieces_below(ps, max);
}

proof fn lemma_pieces_below(ps: Seq<Seq<char>>, max: nat)
    ensures
        forall|l: u32| super::utils::pieces_layers(ps, max).contains(l) ==> l < max,
    decreases ps.len(),
{
    if ps.len() > 0 {
        lemma_pieces_below(ps.drop_last(), max);
        assert forall|l: u32| super::utils::pieces_layers(ps, max).contains(l) implies l < max by {
            assert(super::utils::pieces_layers(ps, max) == super::utils::pieces_layers(
                ps.drop_last(),
                max,
            ).union(super::utils::piece_layers(ps.last(), max)));
            if super::utils::piece_layers(ps.last(), max).contains(l) {
                let p = crate::text::trim(ps.last());
                if p.len() > 0 {
                    match crate::text::find_seq(p, seq!['-']) {
                        Some(d) => {},
                        None => {},
                    }
                }
            }
        }
    }
}

/// Confirming typed layers keeps the assignment sound: layers another shard holds are
/// refused, and only layers below the layer count are ever named.
pub proof fn lemma_confirm_keeps_sound(m: ManualModel, input: Seq<char>)
    requires
        assignment_sound(m),
    ensures
        assignment_sound(confirm_layers(m, input).0),
{
    let layers = input_layers(input, m.num_layers as nat);
    lemma_input_layers_below(input, m.num_layers as nat);
    if !layers.is_empty() && selected_shard(m).is_some() {
        let name = m.names[selected_shard(m).unwrap() as int];
        if !collides(m.assignments, name, layers) {
            let v = ascending_of(layers);
            super::utils::lemma_ascending_of(layers);
            let a = m.assignments.insert(name, v);
            let mid = ManualModel { assignments: a, typing: false, ..m };
            assert forall|k: Seq<char>, l: u32| a.dom().contains(k) && #[trigger] a[k].contains(l)
                implies l < m.num_layers by {
                if k == name {
                    assert(v.to_set().contains(l));
                }
            }
            assert forall|k1: Seq<char>, k2: Seq<char>, l: u32|
                a.dom().contains(k1) && a.dom().contains(k2) && k1 != k2
                    && #[trigger] a[k1].contains(l) implies !#[trigger] a[k2].contains(l) by {
                if k1 == name {
                    assert(v.to_set().contains(l));
                    if a[k2].contains(l) {
                        assert(collides(m.assignments, name, layers));
                    }
                } else if k2 == name {
                    if a[k2].contains(l) {
                        assert(v.to_set().contains(l));
                        assert(collides(m.assignments, name, layers));
                    }
                }
            }
            assert(assignment_sound(mid));
            assert(assignment_sound(settle_after_assign(mid)));
        }
    }
}

/// Whether `next` switches to the manual assignment step `SelectingModel`.
pub open spec fn goes_to_model_selection(next: Option<DeveloperView>) -> bool {
    next matches Some(DeveloperView::ManualAssignment(ManualAssignmentView::SelectingModel))
}

/// Whether `next` switches to the manual assignment step `Submitting`.
pub open spec fn goes_to_submitting(next: Option<DeveloperView>) -> bool {
    next matches Some(DeveloperView::ManualAssignment(ManualAssignmentView::Submitting))
}

/// Whether `next` switches to the developer menu.
pub open spec fn goes_to_menu(next: Option<DeveloperView>) -> bool {
    next matches Some(DeveloperView::Menu)
}

/// Handles a key on the manual assignment screen. `input` is the text being typed,
/// `status` the status line, `selector` the model list and `model_ids` the models it
/// lists. Returns the screen to switch to, or `None` to stay.
pub fn handle_manual_assignment_input(
    st: &mut ManualAssignmentState,
    view: &ManualAssignmentView,
    key: KeyPress,
    input: &mut String,
    status: &mut String,
    selector: &mut ModelSelectorState,
    model_ids: &Vec<String>,
) -> (next: Option<DeveloperView>)
    requires
        old(st).wf(),
        (view is SelectingModel && key.code is Enter) ==> old(selector).selected < model_ids@.len(),
    ensures
        final(st).wf(),
        same_shards(*old(st), *final(st)),
        assignment_sound(old(st)@) ==> assignment_sound(final(st)@),
        // choosing a model
        view is SelectingModel ==> {
            &&& final(st)@ == old(st)@
            &&& final(input)@ == old(input)@
            &&& final(status)@ == old(status)@
            &&& match key.code {
                KeyCode::Esc => goes_to_menu(next) && *final(selector) == *old(selector),
                KeyCode::Up => next.is_none() && final(selector).offset == old(selector).offset
                    && final(selector).selected == (if old(selector).selected > 0 {
                    (old(selector).selected - 1) as usize
                } else if model_ids@.len() > 0 {
                    (model_ids@.len() - 1) as usize
                } else {
                    old(selector).selected
                }),
                KeyCode::Down => next.is_none() && final(selector).offset == old(selector).offset
                    && final(selector).selected == (if model_ids@.len() == 0 {
                    old(selector).selected
                } else if old(selector).selected < model_ids@.len() - 1 {
                    (old(selector).selected + 1) as usize
                } else {
                    0
                }),
                KeyCode::Enter => *final(selector) == *old(selector) && (next matches Some(
                    DeveloperView::ManualAssignment(ManualAssignmentView::FetchingShards(m)),
                ) && m@ == model_ids@[old(selector).selected as int]@),
                _ => next.is_none() && *final(selector) == *old(selector),
            }
        },
        // typing layers
        (view is AssigningLayers && old(st)@.typing) ==> {
            &&& next.is_none()
            &&& *final(selector) == *old(selector)
            &&& match key.code {
                KeyCode::Esc => final(st)@ == ManualModel { typing: false, ..old(st)@ }
                    && final(input)@.len() == 0 && final(status)@ == old(status)@,
                KeyCode::Enter => {
                    &&& final(st)@ == confirm_layers(old(st)@, old(input)@).0
                    &&& final(input)@.len() == 0
                    &&& match confirm_layers(old(st)@, old(input)@).1 {
                        Some(true) => final(status)@ == COLLISION_MESSAGE@,
                        Some(false) => final(status)@.len() == 0,
                        None => final(status)@ == old(status)@,
                    }
                },
                KeyCode::Backspace => final(st)@ == old(st)@ && final(status)@ == old(status)@
                    && final(input)@ == (if old(input)@.len() > 0 {
                    old(input)@.drop_last()
                } else {
                    old(input)@
                }),
                KeyCode::Char(c) => final(st)@ == old(st)@ && final(status)@ == old(status)@
                    && final(input)@ == (if layer_input_char(c) {
                    old(input)@.push(c)
                } else {
                    old(input)@
                }),
                _ => final(st)@ == old(st)@ && final(input)@ == old(input)@ && final(status)@
                    == old(status)@,
            }
        },
        // moving between shards
        (view is AssigningLayers && !old(st)@.typing) ==> {
            &&& *final(selector) == *old(selector)
            &&& match key.code {
                KeyCode::Esc => goes_to_model_selection(next) && final(st)@ == old(st)@
                    && final(input)@ == old(input)@ && final(status)@ == old(status)@,
                KeyCode::Left | KeyCode::Right | KeyCode::Up | KeyCode::Down => next.is_none()
                    && final(st)@ == navigate(old(st)@, key.code) && final(input)@ == old(input)@
                    && final(status)@ == old(status)@,
                KeyCode::Enter => if missing_layer_set(old(st)@).is_empty() {
                    goes_to_submitting(next) && final(st)@ == old(st)@ && final(input)@
                        == old(input)@ && final(status)@ == old(status)@
                } else {
                    next.is_none() && final(st)@ == ManualModel { typing: true, ..old(st)@ }
                        && final(input)@.len() == 0 && final(status)@.len() == 0
                },
                KeyCode::Char(c) => {
                    &&& next.is_none()
                    &&& final(input)@ == old(input)@
                    &&& final(status)@ == old(status)@
                    &&& if key.ctrl && c == 'd' && selected_shard(old(st)@).is_some() {
                        final(st)@ == settle_after_deassign(
                            ManualModel {
                                assignments: old(st)@.assignments.remove(
                                    old(st)@.names[selected_shard(old(st)@).unwrap() as int],
                                ),
                                ..old(st)@
                            },
                        )
                    } else {
                        final(st)@ == old(st)@
                    }
                },
                _ => next.is_none() && final(st)@ == old(st)@ && final(input)@ == old(input)@
                    && final(status)@ == old(status)@,
            }
        },
        // finished or failed
        (view is Success || view is Error) ==> {
            &&& final(st)@ == old(st)@
            &&& final(input)@ == old(input)@
            &&& final(status)@ == old(status)@
            &&& *final(selector) == *old(selector)
            &&& if key.code is Esc {
                goes_to_menu(next)
            } else {
                next.is_none()
            }
        },
        // waiting
        (view is FetchingShards || view is Submitting || view is LoadingModel) ==> {
            &&& next.is_none()
            &&& final(st)@ == old(st)@
            &&& final(input)@ == old(input)@
            &&& final(status)@ == old(status)@
            &&& *final(selector) == *old(selector)
        },
{
    match view {
        ManualAssignmentView::SelectingModel => match key.code {
            KeyCode::Esc => Some(DeveloperView::Menu),
            KeyCode::Up => {
                selector.move_up(model_ids.len());
                None
            },
            KeyCode::Down => {
                selector.move_down(model_ids.len());
                None
            },
            KeyCode::Enter => {
                let model = model_ids[selector.selected()].clone();
                Some(DeveloperView::ManualAssignment(ManualAssignmentView::FetchingShards(model)))
            },
            _ => None,
        },
        ManualAssignmentView::AssigningLayers => {
            let shard_info = get_selected_shard_info(st);
            if st.is_typing {
                match key.code {
                    KeyCode::Esc => {
                        st.is_typing = false;
                        *input = String::new();
                    },
                    KeyCode::Enter => {
                        proof {
                            if assignment_sound(st@) {
                                lemma_confirm_keeps_sound(st@, input@);
                            }
                        }
                        confirm_typed_layers(st, input, status);
                        *input = String::new();
                    },
                    KeyCode::Backspace => {
                        pop_char(input);
                    },
                    KeyCode::Char(c) => {
                        if ('0' <= c && c <= '9') || c == ',' || c == '-' || c == ' ' {
                            push_char(input, c);
                        }
                    },
                    _ => {},
                }
                None
            } else {
                match key.code {
                    KeyCode::Esc => {
                        Some(DeveloperView::ManualAssignment(ManualAssignmentView::SelectingModel))
                    },
                    KeyCode::Left | KeyCode::Right | KeyCode::Up | KeyCode::Down => {
                        navigate_columns(st, key.code);
                        None
                    },
                    KeyCode::Enter => {
                        let all = all_assigned_layers(st);
                        let missing = find_missing_layers(&all, st.num_layers);
                        proof {
                            assert(missing_layer_set(st@) =~= missing@.to_set());
                        }
                        if missing.len() == 0 {
                            assert(missing@.to_set() =~= Set::<u32>::empty());
                            Some(DeveloperView::ManualAssignment(ManualAssignmentView::Submitting))
                        } else {
                            assert(missing@.to_set().contains(missing@[0]));
                            st.is_typing = true;
                            *input = String::new();
                            *status = String::new();
                            None
                        }
                    },
                    KeyCode::Char(c) => {
                        if key.ctrl && c == 'd' {
                            if let (_, Some(name)) = shard_info {
                                deassign(st, &name);
                            }
                        }
                        None
                    },
                    _ => None,
                }
            }
        },
        ManualAssignmentView::Success | ManualAssignmentView::Error(_) => {
            if let KeyCode::Esc = key.code {
                Some(DeveloperView::Menu)
            } else {
                None
            }
        },
        _ => None,
    }
}

/// How one layer is drawn in the layer strip.
#[derive(Debug, Clone, Copy, PartialEq, Eq, Structural)]
pub enum LayerCell {
    /// Held by the highlighted shard.
    Selected,
    /// Held by some other shard.
    Assigned,
    /// Held by no shard.
    Free,
}

/// The layers of the highlighted shard `sel`, none when there is none.
pub open spec fn highlighted_layers(m: ManualModel, sel: Option<usize>) -> Seq<u32> {
    match sel {
        Some(i) => if i < m.names.len() {
            layers_of(m, i as int)
        } else {
            Seq::empty()
        },
        None => Seq::empty(),
    }
}

/// How layer `l` is drawn with shard `sel` highlighted.
pub open spec fn layer_cell(m: ManualModel, sel: Option<usize>, l: u32) -> LayerCell {
    if highlighted_layers(m, sel).contains(l) {
        LayerCell::Selected
    } else if assigned_layer_set(m.assignments).contains(l) {
        LayerCell::Assigned
    } else {
        LayerCell::Free
    }
}

/// The shard whose layers the strip highlights: the one under the cursor in the right
/// column, if any.
pub fn highlighted_shard(state: &ManualAssignmentState) -> (r: Option<usize>)
    requires
        state.wf(),
    ensures
        r == (if state@.column == ColumnSelection::Assigned && (state@.sel_a as int) < assigned_shards(state@).len() {
            Some(assigned_shards(state@)[state@.sel_a as int])
        } else {
            None::<usize>
        }),
{
    let (_, assigned) = partition_shards(state);
    if state.selected_column == ColumnSelection::Assigned && state.selected_assigned_index < assigned.len() {
        Some(assigned[state.selected_assigned_index])
    } else {
        None
    }
}

/// The layer strip: for each layer `0..num_layers`, whether the highlighted shard `sel`
/// holds it, another shard does, or none.
pub fn layer_cells(state: &ManualAssignmentState, sel: Option<usize>) -> (cells: Vec<LayerCell>)
    requires
        state.wf(),
    ensures
        cells@.len() == state.num_layers,
        forall|l: int| 0 <= l < cells@.len() ==> #[trigger] cells@[l] == layer_cell(state@, sel, l as u32),
{
    broadcast use vstd::std_specs::hash::group_hash_axioms;

    let all = all_assigned_layers(state);
    let empty: Vec<u32> = Vec::new();
    let mine: &Vec<u32> = match sel {
        Some(i) => if i < state.shards.len() {
            match state.assignments.get(&state.shards[i].device.instance) {
                Some(l) => l,
                None => &empty,
            }
        } else {
            &empty
        },
        None => &empty,
    };
    assert(mine@ == highlighted_layers(state@, sel)) by {
        if let Some(i) = sel {
            if i < state.shards@.len() {
                assert(state@.names[i as int] == state.shards@[i as int].device.instance@);
            }
        }
    }
    let mut cells: Vec<LayerCell> = Vec::new();
    let mut l: u32 = 0;
    while l < state.num_layers
        invariant
            l <= state.num_layers,
            mine@ == highlighted_layers(state@, sel),
            all@ == assigned_layer_set(state@.assignments),
            cells@.len() == l,
            forall|k: int| 0 <= k < cells@.len() ==> #[trigger] cells@[k] == layer_cell(state@, sel, k as u32),
        decreases state.num_layers - l,
    {
        let mut held = false;
        let mut j: usize = 0;
        while j < mine.len()
            invariant
                j <= mine@.len(),
                held == mine@.take(j as int).contains(l),
            decreases mine@.len() - j,
        {
            let ghost pre = mine@.take(j as int);
            let ghost post = mine@.take(j + 1);
            proof {
                assert(post =~= pre.push(mine@[j as int]));
                if post.contains(l) {
                    let k = choose|k: int| 0 <= k < post.len() && post[k] == l;
                    if k < pre.len() {
                        assert(pre[k] == l);
                    }
                }
                if pre.contains(l) {
                    let k = choose|k: int| 0 <= k < pre.len() && pre[k] == l;
                    assert(post[k] == l);
                }
                if mine@[j as int] == l {
                    assert(post[j as int] == l);
                }
            }
            if mine[j] == l {
                held = true;
            }
            j = j + 1;
        }
        assert(mine@.take(mine@.len() as int) =~= mine@);
        let cell = if held {
            LayerCell::Selected
        } else if all.contains(&l) {
            LayerCell::Assigned
        } else {
            LayerCell::Free
        };
        cells.push(cell);
        l = l + 1;
    }
    cells
}

} // verus!
