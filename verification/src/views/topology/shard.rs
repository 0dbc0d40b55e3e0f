use vstd::prelude::*;

use crate::common::shard::ShardHealth;
use crate::common::devices::DeviceProperties;
use crate::common::topology::TopologyInfo;
use crate::input::{KeyCode, KeyPress};
use crate::views::developer::utils::{compact_layer_ranges, layer_ranges_text, max_layer_at_most_once};
use crate::views::menu::push_text;

verus! {

broadcast use vstd::string::group_string_axioms;

/// The health screen of one shard.
#[derive(Debug)]
pub enum ShardView {
    Loading,
    Loaded(ShardHealth),
    Error(String),
}

/// Layer numbers as ascending runs, e.g. `0-5, 10-15, 20`; `none` when there are none.
pub fn format_layer_ranges(layers: &[u32]) -> (out: String)
    requires
        max_layer_at_most_once(layers@),
    ensures
        out@ == layer_ranges_text(layers@, ", "@, "none"@),
{
    compact_layer_ranges(layers, ", ", "none")
}

/// How a shard's status line reads.
#[derive(Debug, Clone, Copy, PartialEq, Eq, Structural)]
pub enum ShardStatusKind {
    /// Status `ok` and running.
    Healthy,
    /// Running, with another status.
    Degraded,
    /// Not running.
    Stopped,
}

/// How the status line of `health` reads.
pub fn shard_status_kind(health: &ShardHealth) -> (k: ShardStatusKind)
    ensures
        k == (if health.status@ == "ok"@ && health.running {
            ShardStatusKind::Healthy
        } else if health.running {
            ShardStatusKind::Degraded
        } else {
            ShardStatusKind::Stopped
        }),
{
    let ok = "ok".to_string();
    if health.status == ok && health.running {
        ShardStatusKind::Healthy
    } else if health.running {
        ShardStatusKind::Degraded
    } else {
        ShardStatusKind::Stopped
    }
}

/// How busy a shard's activation queue is.
#[derive(Debug, Clone, Copy, PartialEq, Eq, Structural)]
pub enum QueueLevel {
    /// Empty.
    Idle,
    /// One to nine activations.
    Active,
    /// Ten or more.
    Busy,
}

/// How busy a queue of `size` activations is.
pub fn queue_level(size: u32) -> (l: QueueLevel)
    ensures
        l == (if size == 0 {
            QueueLevel::Idle
        } else if size <= 9 {
            QueueLevel::Active
        } else {
            QueueLevel::Busy
        }),
{
    if size == 0 {
        QueueLevel::Idle
    } else if size <= 9 {
        QueueLevel::Active
    } else {
        QueueLevel::Busy
    }
}

/// The position of the first device named `name` in `ds`.
pub open spec fn first_named(ds: Seq<DeviceProperties>, name: Seq<char>) -> Option<int>
    decreases ds.len(),
{
    if ds.len() == 0 {
        None
    } else {
        let r = first_named(ds.drop_last(), name);
        if r is Some {
            r
        } else if ds.last().instance@ == name {
            Some(ds.len() - 1)
        } else {
            None
        }
    }
}

/// Where the health of the shard `device` is to be fetched from.
pub open spec fn shard_target(topology: Option<TopologyInfo>, device: Seq<char>) -> Result<(Seq<char>, u16), Seq<char>> {
    match topology {
        None => Err("No topology information available"@),
        Some(t) => match first_named(t.devices@, device) {
            Some(i) => Ok((t.devices@[i].local_ip@, t.devices@[i].server_port)),
            None => Err("Device '"@ + device + "' not found in topology"@),
        },
    }
}

proof fn lemma_first_named_bound(ds: Seq<DeviceProperties>, name: Seq<char>)
    ensures
        first_named(ds, name) matches Some(i) ==> 0 <= i < ds.len() && ds[i].instance@ == name,
    decreases ds.len(),
{
    if ds.len() > 0 {
        lemma_first_named_bound(ds.drop_last(), name);
    }
}

/// The address (IP and HTTP port) of the first device of the topology named `device`, or
/// the message to show when there is no topology or no such device.
pub fn shard_fetch_target(topology: &Option<TopologyInfo>, device: &str) -> (r: Result<(String, u16), String>)
    ensures
        match r {
            Ok((ip, port)) => shard_target(*topology, device@) == Ok::<(Seq<char>, u16), Seq<char>>((ip@, port)),
            Err(m) => shard_target(*topology, device@) == Err::<(Seq<char>, u16), Seq<char>>(m@),
        },
{
    match topology {
        None => {
            let m = "No topology information available".to_string();
            assert(shard_target(*topology, device@) == Err::<(Seq<char>, u16), Seq<char>>(m@));
            Err(m)
        },
        Some(t) => {
            let name = device.to_string();
            let ghost ds = t.devices@;
            let mut i: usize = 0;
            while i < t.devices.len()
                invariant
                    i <= ds.len(),
                    ds == t.devices@,
                    *topology == Some(*t),
                    name@ == device@,
                    first_named(ds.take(i as int), device@) is None,
                decreases ds.len() - i,
            {
                proof {
                    assert(ds.take(i + 1).drop_last() =~= ds.take(i as int));
                }
                if t.devices[i].instance == name {
                    assert(first_named(ds.take(i + 1), device@) == Some(i as int));
                    proof {
                        lemma_prefix_first_named(ds, device@, i + 1);
                    }
                    let ip = t.devices[i].local_ip.clone();
                    assert(shard_target(*topology, device@) == Ok::<(Seq<char>, u16), Seq<char>>((ip@, t.devices[i as int].server_port)));
                    return Ok((ip, t.devices[i].server_port));
                }
                i = i + 1;
            }
            assert(ds.take(ds.len() as int) =~= ds);
            let mut m = "Device '".to_string();
            push_text(&mut m, device);
            push_text(&mut m, "' not found in topology");
            assert(shard_target(*topology, device@) == Err::<(Seq<char>, u16), Seq<char>>(m@));
            Err(m)
        },
    }
}

proof fn lemma_prefix_first_named(ds: Seq<DeviceProperties>, name: Seq<char>, k: int)
    requires
        0 <= k <= ds.len(),
        first_named(ds.take(k), name) is Some,
    ensures
        first_named(ds, name) == first_named(ds.take(k), name),
    decreases ds.len() - k,
{
    if k < ds.len() {
        assert(ds.take(k + 1).drop_last() =~= ds.take(k));
        lemma_prefix_first_named(ds, name, k + 1);
    } else {
        assert(ds.take(k) =~= ds);
    }
}

/// Whether a key on the shard screen goes back to the ring (Esc does).
pub fn shard_key_goes_back(key: KeyPress) -> (b: bool)
    ensures
        b == key.code is Esc,
{
    match key.code {
        KeyCode::Esc => true,
        _ => false,
    }
}

} // verus!
