//! The screen listing the devices of the cluster.

use vstd::prelude::*;

use std::time::Instant;

use crate::common::devices::DeviceProperties;
use crate::input::{KeyCode, KeyPress};
use crate::text::{chars_of, decimal, push_decimal, string_of};
use crate::views::menu::push_text;

verus! {

broadcast use vstd::string::group_string_axioms;

#[verifier::external_type_specification]
#[verifier::external_body]
pub struct ExInstant(Instant);

/// What the devices screen remembers between frames.
#[derive(Debug)]
pub struct DevicesState {
    /// When the list was last refreshed.
    pub refreshed_at: Instant,
}

/// The devices screen.
#[derive(Debug)]
pub enum DevicesView {
    Loading,
    /// The devices by name, as listed.
    Loaded(Vec<(String, DeviceProperties)>),
    Error(String),
}

/// Whether the list is to be fetched again: while loading, or once `interval_secs` seconds
/// have passed since the last refresh (`elapsed_secs` whole seconds have).
pub fn refresh_due(loading: bool, elapsed_secs: u64, interval_secs: u64) -> (b: bool)
    ensures
        b == (loading || elapsed_secs >= interval_secs),
{
    loading || elapsed_secs >= interval_secs
}

/// The screen after fetching the devices, or the error's text.
pub fn after_devices_load(outcome: Result<Vec<(String, DeviceProperties)>, String>) -> (v: DevicesView)
    ensures
        match outcome {
            Ok(ds) => v == DevicesView::Loaded(ds),
            Err(e) => v matches DevicesView::Error(m) && m@ == e@,
        },
{
    match outcome {
        Ok(ds) => DevicesView::Loaded(ds),
        Err(e) => DevicesView::Error(e),
    }
}

/// Whether a key on the devices screen goes back to the menu (Esc does).
pub fn handle_devices_input(key: KeyPress) -> (to_menu: bool)
    ensures
        to_menu == key.code is Esc,
{
    match key.code {
        KeyCode::Esc => true,
        _ => false,
    }
}

/// Whether `a` comes before `b` in the order of their characters' code points (which is
/// the order of their UTF-8 bytes); a proper prefix comes first.
pub open spec fn text_lt(a: Seq<char>, b: Seq<char>) -> bool
    decreases a.len(),
{
    if a.len() == 0 {
        b.len() > 0
    } else if b.len() == 0 {
        false
    } else if a[0] != b[0] {
        a[0] < b[0]
    } else {
        text_lt(a.drop_first(), b.drop_first())
    }
}

proof fn lemma_text_lt_irrefl_asym(a: Seq<char>, b: Seq<char>)
    ensures
        !text_lt(a, a),
        !(text_lt(a, b) && text_lt(b, a)),
    decreases a.len(),
{
    if a.len() > 0 {
        lemma_text_lt_irrefl_asym(a.drop_first(), a.drop_first());
        if b.len() > 0 {
            lemma_text_lt_irrefl_asym(a.drop_first(), b.drop_first());
        }
    }
}

proof fn lemma_text_lt_total(a: Seq<char>, b: Seq<char>)
    ensures
        a != b ==> (text_lt(a, b) || text_lt(b, a)),
    decreases a.len(),
{
    if a.len() > 0 && b.len() > 0 {
        lemma_text_lt_total(a.drop_first(), b.drop_first());
        if a[0] == b[0] && a.drop_first() == b.drop_first() {
            assert(a =~= seq![a[0]] + a.drop_first());
            assert(b =~= seq![b[0]] + b.drop_first());
        }
    } else if a.len() == 0 && b.len() == 0 {
        assert(a =~= b);
    }
}

proof fn lemma_text_lt_trans(a: Seq<char>, b: Seq<char>, c: Seq<char>)
    requires
        text_lt(a, b),
        text_lt(b, c),
    ensures
        text_lt(a, c),
    decreases a.len(),
{
    if a.len() > 0 && b.len() > 0 && c.len() > 0 && a[0] == b[0] && b[0] == c[0] {
        lemma_text_lt_trans(a.drop_first(), b.drop_first(), c.drop_first());
    }
}

fn text_less(a: &[char], b: &[char]) -> (r: bool)
    ensures
        r == text_lt(a@, b@),
{
    let mut k: usize = 0;
    assert(a@.skip(0) =~= a@);
    assert(b@.skip(0) =~= b@);
    while k < a.len() && k < b.len()
        invariant
            k <= a@.len(),
            k <= b@.len(),
            text_lt(a@, b@) == text_lt(a@.skip(k as int), b@.skip(k as int)),
        decreases a@.len() - k,
    {
        proof {
            assert(a@.skip(k as int).drop_first() =~= a@.skip(k + 1));
            assert(b@.skip(k as int).drop_first() =~= b@.skip(k + 1));
            assert(a@.skip(k as int)[0] == a@[k as int]);
            assert(b@.skip(k as int)[0] == b@[k as int]);
        }
        if a[k] != b[k] {
            return a[k] < b[k];
        }
        k = k + 1;
    }
    proof {
        assert(a@.skip(k as int).len() == a@.len() - k);
        assert(b@.skip(k as int).len() == b@.len() - k);
    }
    k >= a.len() && k < b.len()
}

/// The key the device list is sorted by: `ip:port` of the HTTP server.
pub open spec fn device_key(d: DeviceProperties) -> Seq<char> {
    d.local_ip@ + ":"@ + decimal(d.server_port as nat)
}

/// The sort keys of a device listing.
pub open spec fn listing_keys(ds: Seq<(String, DeviceProperties)>) -> Seq<Seq<char>> {
    ds.map_values(|p: (String, DeviceProperties)| device_key(p.1))
}

/// Whether `ord` lists the positions `0..n` of `keys` once each, ordered by key, positions
/// with equal keys in their own order.
pub open spec fn stably_sorted(keys: Seq<Seq<char>>, ord: Seq<usize>, n: int) -> bool {
    &&& ord.len() == n
    &&& forall|k: int| 0 <= k < n ==> #[trigger] ord[k] < n
    &&& forall|a: int, b: int| 0 <= a < b < n ==> ord[a] != ord[b]
    &&& forall|a: int, b: int| 0 <= a < b < n ==> !text_lt(keys[ord[b] as int], keys[ord[a] as int])
    &&& forall|a: int, b: int| 0 <= a < b < n && keys[ord[a] as int] == keys[ord[b] as int] ==> ord[a] < ord[b]
}

proof fn lemma_insert_sorted(keys: Seq<Seq<char>>, ord: Seq<usize>, i: int, p: int)
    requires
        0 <= i < keys.len(),
        i < usize::MAX,
        stably_sorted(keys, ord, i),
        0 <= p <= i,
        forall|q: int| p <= q < i ==> text_lt(keys[i], keys[ord[q] as int]),
        p > 0 ==> !text_lt(keys[i], keys[ord[p - 1] as int]),
    ensures
        stably_sorted(keys, ord.insert(p, i as usize), i + 1),
{
    let n = ord.insert(p, i as usize);
    assert forall|q: int| 0 <= q < p - 1 implies !text_lt(keys[i], keys[ord[q] as int]) by {
        let x = keys[ord[q] as int];
        let y = keys[ord[p - 1] as int];
        let z = keys[i];
        assert(!text_lt(y, x));
        if text_lt(z, x) {
            lemma_text_lt_total(x, y);
            if x == y {
            } else {
                lemma_text_lt_trans(z, x, y);
            }
        }
    }
    assert forall|a: int, b: int| 0 <= a < b < i + 1 implies !text_lt(keys[n[b] as int], keys[n[a] as int]) by {
        if b < p {
            assert(n[a] == ord[a] && n[b] == ord[b]);
        } else if b == p {
            assert(n[a] == ord[a]);
        } else if a < p {
            assert(n[a] == ord[a] && n[b] == ord[b - 1]);
            lemma_text_lt_irrefl_asym(keys[i], keys[ord[b - 1] as int]);
            if text_lt(keys[ord[b - 1] as int], keys[ord[a] as int]) {
                if a == p - 1 {
                } else {
                }
                assert(!text_lt(keys[i], keys[ord[a] as int]));
                lemma_text_lt_total(keys[i], keys[ord[a] as int]);
                if keys[i] == keys[ord[a] as int] {
                } else {
                    lemma_text_lt_trans(keys[ord[a] as int], keys[i], keys[ord[b - 1] as int]);
                    lemma_text_lt_irrefl_asym(keys[ord[b - 1] as int], keys[ord[a] as int]);
                }
            }
        } else if a == p {
            assert(n[a] == i && n[b] == ord[b - 1]);
            lemma_text_lt_irrefl_asym(keys[i], keys[ord[b - 1] as int]);
        } else {
            assert(n[a] == ord[a - 1] && n[b] == ord[b - 1]);
        }
    }
    assert forall|a: int, b: int| 0 <= a < b < i + 1 && keys[n[a] as int] == keys[n[b] as int] implies n[a] < n[b] by {
        if b < p {
            assert(n[a] == ord[a] && n[b] == ord[b]);
        } else if b == p {
            assert(n[a] == ord[a] && n[b] == i);
        } else if a < p {
            assert(n[a] == ord[a] && n[b] == ord[b - 1]);
        } else if a == p {
            assert(n[a] == i && n[b] == ord[b - 1]);
            lemma_text_lt_irrefl_asym(keys[i], keys[i]);
        } else {
            assert(n[a] == ord[a - 1] && n[b] == ord[b - 1]);
        }
    }
    assert forall|a: int, b: int| 0 <= a < b < i + 1 implies n[a] != n[b] by {
        if b < p {
            assert(n[a] == ord[a] && n[b] == ord[b]);
        } else if b == p {
            assert(n[a] == ord[a] && n[b] == i);
        } else if a < p {
            assert(n[a] == ord[a] && n[b] == ord[b - 1]);
        } else if a == p {
            assert(n[a] == i && n[b] == ord[b - 1]);
        } else {
            assert(n[a] == ord[a - 1] && n[b] == ord[b - 1]);
        }
    }
    assert forall|k: int| 0 <= k < i + 1 implies #[trigger] n[k] < i + 1 by {
        if k < p {
            assert(n[k] == ord[k]);
        } else if k > p {
            assert(n[k] == ord[k - 1]);
        }
    }
}

/// The order in which the devices of a listing are shown: by `ip:port` of their HTTP
/// server, devices with the same address in listing order. The result lists positions in
/// `devices`.
pub fn device_order(devices: &Vec<(String, DeviceProperties)>) -> (ord: Vec<usize>)
    ensures
        stably_sorted(listing_keys(devices@), ord@, devices@.len() as int),
{
    let ghost keys = listing_keys(devices@);
    let mut ks: Vec<Vec<char>> = Vec::new();
    let mut j: usize = 0;
    while j < devices.len()
        invariant
            j <= devices@.len(),
            keys == listing_keys(devices@),
            ks@.len() == j,
            forall|k: int| 0 <= k < j ==> #[trigger] ks@[k]@ == keys[k],
        decreases devices@.len() - j,
    {
        let d = &devices[j].1;
        let mut key = d.local_ip.clone();
        push_text(&mut key, ":");
        push_decimal(&mut key, d.server_port as u64);
        ks.push(chars_of(key.as_str()));
        j = j + 1;
    }
    let mut ord: Vec<usize> = Vec::new();
    let mut i: usize = 0;
    while i < ks.len()
        invariant
            i <= ks@.len(),
            ks@.len() == keys.len(),
            forall|k: int| 0 <= k < ks@.len() ==> #[trigger] ks@[k]@ == keys[k],
            stably_sorted(keys, ord@, i as int),
        decreases ks@.len() - i,
    {
        let mut p: usize = ord.len();
        while p > 0 && text_less(&ks[i], &ks[ord[p - 1]])
            invariant
                i < ks@.len(),
                ks@.len() == keys.len(),
                forall|k: int| 0 <= k < ks@.len() ==> #[trigger] ks@[k]@ == keys[k],
                stably_sorted(keys, ord@, i as int),
                0 <= p <= ord@.len(),
                forall|q: int| p <= q < i ==> text_lt(keys[i as int], keys[ord@[q] as int]),
            decreases p,
        {
            p = p - 1;
        }
        proof {
            lemma_insert_sorted(keys, ord@, i as int, p as int);
        }
        ord.insert(p, i);
        i = i + 1;
    }
    ord
}

/// How a device's row is highlighted.
#[derive(Debug, Clone, Copy, PartialEq, Eq, Structural)]
pub enum RowStyle {
    /// A manager node (the API).
    Manager,
    /// A busy shard.
    Busy,
    /// An idle shard.
    Idle,
}

/// A row of the device table: instance, IP, HTTP port, gRPC port, highlight.
#[derive(Debug)]
pub struct DeviceRow {
    pub instance: String,
    pub ip: String,
    pub http_port: String,
    pub grpc_port: String,
    pub style: RowStyle,
}

/// Whether `r` is the row of the device `d`.
pub open spec fn row_of(r: DeviceRow, d: DeviceProperties) -> bool {
    &&& r.instance@ == d.instance@
    &&& r.ip@ == d.local_ip@
    &&& r.http_port@ == decimal(d.server_port as nat)
    &&& r.grpc_port@ == decimal(d.shard_port as nat)
    &&& r.style == (if d.is_manager {
        RowStyle::Manager
    } else if d.is_busy {
        RowStyle::Busy
    } else {
        RowStyle::Idle
    })
}

/// The rows of the device table for the devices at the positions `ord`, in that order.
pub fn device_rows(devices: &Vec<(String, DeviceProperties)>, ord: &Vec<usize>) -> (rows: Vec<DeviceRow>)
    requires
        forall|k: int| 0 <= k < ord@.len() ==> #[trigger] ord@[k] < devices@.len(),
    ensures
        rows@.len() == ord@.len(),
        forall|k: int| 0 <= k < ord@.len() ==> row_of(#[trigger] rows@[k], devices@[ord@[k] as int].1),
{
    let mut rows: Vec<DeviceRow> = Vec::new();
    let mut k: usize = 0;
    while k < ord.len()
        invariant
            k <= ord@.len(),
            forall|q: int| 0 <= q < ord@.len() ==> #[trigger] ord@[q] < devices@.len(),
            rows@.len() == k,
            forall|q: int| 0 <= q < k ==> row_of(#[trigger] rows@[q], devices@[ord@[q] as int].1),
        decreases ord@.len() - k,
    {
        let d = &devices[ord[k]].1;
        let style = if d.is_manager {
            RowStyle::Manager
        } else if d.is_busy {
            RowStyle::Busy
        } else {
            RowStyle::Idle
        };
        let mut http_port = String::new();
        push_decimal(&mut http_port, d.server_port as u64);
        let mut grpc_port = String::new();
        push_decimal(&mut grpc_port, d.shard_port as u64);
        rows.push(DeviceRow { instance: d.instance.clone(), ip: d.local_ip.clone(), http_port, grpc_port, style });
        k = k + 1;
    }
    rows
}

} // verus!
