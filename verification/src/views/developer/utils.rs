use vstd::prelude::*;
use vstd::relations::{sorted_by, total_ordering};

use crate::text::{
    all_digits, chars_of, decimal, find_chars, find_seq, first_occurrence, is_digit, is_ws,
    lemma_decimal_digits, lemma_parse_decimal, lemma_split_nonempty, occurs_at, parse_unsigned,
    parse_unsigned_chars, push_char, push_decimal, split_chars, split_on, sub_chars, trim,
    trim_chars, trim_end, trim_start,
};
use std::collections::HashSet;

use super::assignments::Assignments;

verus! {

broadcast use vstd::string::group_string_axioms;

/// The order in which layers are listed.
pub open spec fn layer_leq(a: u32, b: u32) -> bool {
    a <= b
}

/// `s` in ascending order.
pub open spec fn sorted_layers(s: Seq<u32>) -> Seq<u32> {
    s.sort_by(|a: u32, b: u32| layer_leq(a, b))
}

proof fn lemma_layer_leq_total()
    ensures
        total_ordering(|a: u32, b: u32| layer_leq(a, b)),
{
}

/// Whether `s` is in ascending order.
pub open spec fn ascending(s: Seq<u32>) -> bool {
    forall|a: int, b: int| 0 <= a < b < s.len() ==> s[a] <= s[b]
}

/// The layers of `v` in ascending order (what `sort_unstable` leaves).
pub fn sort_layers(v: &[u32]) -> (r: Vec<u32>)
    ensures
        r@ == sorted_layers(v@),
{
    let mut r: Vec<u32> = Vec::new();
    let mut i: usize = 0;
    assert(v@.take(0) =~= Seq::<u32>::empty());
    while i < v.len()
        invariant
            i <= v@.len(),
            ascending(r@),
            r@.to_multiset() == v@.take(i as int).to_multiset(),
        decreases v@.len() - i,
    {
        let x = v[i];
        let mut j: usize = 0;
        while j < r.len() && r[j] <= x
            invariant
                j <= r@.len(),
                ascending(r@),
                forall|k: int| 0 <= k < j ==> r@[k] <= x,
            decreases r@.len() - j,
        {
            j = j + 1;
        }
        let ghost old_r = r@;
        r.insert(j, x);
        assert(r@ == old_r.insert(j as int, x));
        assert(ascending(r@)) by {
            assert forall|a: int, b: int| 0 <= a < b < r@.len() implies r@[a] <= r@[b] by {
                let ra = if a < j { old_r[a] } else if a == j { x } else { old_r[a - 1] };
                let rb = if b < j { old_r[b] } else if b == j { x } else { old_r[b - 1] };
                assert(r@[a] == ra);
                assert(r@[b] == rb);
                if a == j && b - 1 > j {
                    assert(old_r[j as int] <= old_r[b - 1]);
                }
                if a > j {
                    assert(old_r[a - 1] <= old_r[b - 1]);
                }
            }
        }
        assert(v@.take(i + 1) =~= v@.take(i as int).push(x));
        proof {
            vstd::seq_lib::to_multiset_insert(old_r, j as int, x);
            vstd::seq_lib::to_multiset_build(v@.take(i as int), x);
        }
        i = i + 1;
    }
    assert(v@.take(v@.len() as int) =~= v@);
    proof {
        let leq = |a: u32, b: u32| layer_leq(a, b);
        lemma_layer_leq_total();
        assert(sorted_by(r@, leq));
        v@.lemma_sort_by_ensures(leq);
        vstd::seq_lib::lemma_sorted_unique(r@, v@.sort_by(leq), leq);
    }
    r
}

/// The maximal runs of consecutive values in the ascending sequence `s`, as
/// `(first, last)` pairs; a repeated value starts a new run.
pub open spec fn runs(s: Seq<u32>) -> Seq<(u32, u32)>
    decreases s.len(),
{
    if s.len() == 0 {
        Seq::empty()
    } else if s.len() == 1 {
        seq![(s[0], s[0])]
    } else {
        let r = runs(s.drop_last());
        let x = s.last();
        if x == r.last().1 + 1 {
            r.update(r.len() - 1, (r.last().0, x))
        } else {
            r.push((x, x))
        }
    }
}

proof fn lemma_runs_len(s: Seq<u32>)
    ensures
        s.len() > 0 ==> runs(s).len() > 0,
        runs(s).len() <= s.len(),
    decreases s.len(),
{
    if s.len() > 1 {
        lemma_runs_len(s.drop_last());
    }
}

/// A run written as `a` when it holds one value, else as `a-b`.
pub open spec fn run_text(r: (u32, u32)) -> Seq<char> {
    if r.0 == r.1 {
        decimal(r.0 as nat)
    } else {
        decimal(r.0 as nat) + seq!['-'] + decimal(r.1 as nat)
    }
}

/// `parts` joined with `sep` between neighbours.
pub open spec fn join(parts: Seq<Seq<char>>, sep: Seq<char>) -> Seq<char>
    decreases parts.len(),
{
    if parts.len() == 0 {
        Seq::empty()
    } else if parts.len() == 1 {
        parts[0]
    } else {
        join(parts.drop_last(), sep) + sep + parts.last()
    }
}

/// The runs of `s` written out and joined with `sep`.
pub open spec fn runs_text(s: Seq<u32>, sep: Seq<char>) -> Seq<char> {
    join(runs(s).map_values(|r: (u32, u32)| run_text(r)), sep)
}

/// Whether the largest layer number occurs at most once in `s` (counting on past it
/// would overflow).
pub open spec fn max_layer_at_most_once(s: Seq<u32>) -> bool {
    forall|i: int, j: int| 0 <= i < j < s.len() ==> !(s[i] == u32::MAX && s[j] == u32::MAX)
}

fn push_run(out: &mut String, a: u32, b: u32)
    ensures
        final(out)@ == old(out)@ + run_text((a, b)),
{
    if a == b {
        push_decimal(out, a as u64);
    } else {
        push_decimal(out, a as u64);
        push_char(out, '-');
        push_decimal(out, b as u64);
        assert(old(out)@ + decimal(a as nat) + seq!['-'] + decimal(b as nat) =~= old(out)@
            + run_text((a, b)));
    }
}

fn push_str(out: &mut String, t: &str)
    ensures
        final(out)@ == old(out)@ + t@,
{
    let mut i: usize = 0;
    let cs = crate::text::chars_of(t);
    while i < cs.len()
        invariant
            i <= cs@.len(),
            cs@ == t@,
            out@ == old(out)@ + cs@.take(i as int),
        decreases cs@.len() - i,
    {
        push_char(out, cs[i]);
        assert(old(out)@ + cs@.take(i + 1) =~= old(out)@ + cs@.take(i as int) + seq![cs@[i as int]]);
        i = i + 1;
    }
    assert(cs@.take(cs@.len() as int) =~= cs@);
}

/// Writes the runs of the ascending, non-empty `s` joined by `sep`.
fn write_runs(s: &Vec<u32>, sep: &str) -> (out: String)
    requires
        s@.len() > 0,
    ensures
        out@ == runs_text(s@, sep@),
{
    // the runs of s.take(i), except for the last run which is (start, end)
    let mut ranges: Vec<(u32, u32)> = Vec::new();
    let mut start: u32 = s[0];
    let mut end: u32 = s[0];
    let mut i: usize = 1;
    assert(s@.take(1) =~= seq![s@[0]]);
    while i < s.len()
        invariant
            1 <= i <= s@.len(),
            end == s@[i - 1],
            runs(s@.take(i as int)) == ranges@.push((start, end)),
        decreases s@.len() - i,
    {
        let layer = s[i];
        let ghost t = s@.take(i + 1);
        assert(t.drop_last() =~= s@.take(i as int));
        assert(t.last() == layer);
        if end < u32::MAX && layer == end + 1 {
            end = layer;
            assert(runs(t) =~= ranges@.push((start, end)));
        } else {
            ranges.push((start, end));
            start = layer;
            end = layer;
            assert(runs(t) =~= ranges@.push((start, end)));
        }
        i = i + 1;
    }
    ranges.push((start, end));
    assert(s@.take(s@.len() as int) =~= s@);
    let ghost rs = runs(s@);
    let ghost texts = rs.map_values(|r: (u32, u32)| run_text(r));
    assert(ranges@ == rs);
    let mut out = String::new();
    let mut k: usize = 0;
    while k < ranges.len()
        invariant
            k <= ranges@.len(),
            ranges@ == rs,
            texts == rs.map_values(|r: (u32, u32)| run_text(r)),
            out@ == join(texts.take(k as int), sep@),
        decreases ranges@.len() - k,
    {
        let (a, b) = ranges[k];
        assert(texts.take(k + 1).drop_last() =~= texts.take(k as int));
        assert(texts.take(k + 1).last() == run_text((a, b)));
        if k > 0 {
            push_str(&mut out, sep);
        } else {
            assert(texts.take(0) =~= Seq::<Seq<char>>::empty());
            assert(out@ =~= Seq::<char>::empty());
        }
        push_run(&mut out, a, b);
        proof {
            if k == 0 {
                assert(join(texts.take(1), sep@) == texts.take(1)[0]);
                assert(out@ =~= join(texts.take(1), sep@));
            } else {
                assert(out@ =~= join(texts.take(k + 1), sep@));
            }
        }
        k = k + 1;
    }
    assert(texts.take(texts.len() as int) =~= texts);
    out
}

/// The text for the layers `s`: runs of consecutive layers, in ascending order,
/// joined with `sep`; `empty` when there are none.
pub open spec fn layer_ranges_text(s: Seq<u32>, sep: Seq<char>, empty: Seq<char>) -> Seq<char> {
    if s.len() == 0 {
        empty
    } else {
        runs_text(sorted_layers(s), sep)
    }
}

/// Writes `layers` as ascending runs joined with `sep`, or `empty` when there are none.
pub fn compact_layer_ranges(layers: &[u32], sep: &str, empty: &str) -> (out: String)
    requires
        max_layer_at_most_once(layers@),
    ensures
        out@ == layer_ranges_text(layers@, sep@, empty@),
{
    if layers.len() == 0 {
        return empty.to_string();
    }
    let sorted = sort_layers(layers);
    proof {
        let leq = |a: u32, b: u32| layer_leq(a, b);
        lemma_layer_leq_total();
        layers@.lemma_sort_by_ensures(leq);
        broadcast use vstd::seq_lib::group_to_multiset_ensures;
        assert(sorted@.to_multiset().len() == layers@.len());
    }
    write_runs(&sorted, sep)
}

/// The text `[]`.
pub open spec fn brackets() -> Seq<char> {
    seq!['[', ']']
}

/// Compact text for a set of layers, e.g. `0-3,7,9-10`; `[]` when there are none.
pub fn format_layers(layers: &[u32]) -> (out: String)
    requires
        max_layer_at_most_once(layers@),
    ensures
        out@ == layer_ranges_text(layers@, seq![','], brackets()),
{
    let r = compact_layer_ranges(layers, ",", "[]");
    proof {
        reveal_strlit(",");
        reveal_strlit("[]");
        assert(","@ =~= seq![',']);
        assert("[]"@ =~= brackets());
    }
    r
}

/// Whether `s` is strictly ascending (sorted, no value twice).
pub open spec fn strictly_ascending(s: Seq<u32>) -> bool {
    forall|a: int, b: int| 0 <= a < b < s.len() ==> s[a] < s[b]
}

/// The layers `lo..=hi`.
pub open spec fn layer_span(lo: nat, hi: nat) -> Set<u32> {
    Set::new(|l: u32| lo <= l && l <= hi)
}

/// The layers named by one comma-separated piece of layer input, below `max`:
/// `a-b` (each side trimmed) names `a..=b` when `a <= b` and both are below `max`;
/// a single number below `max` names itself; anything else names nothing.
pub open spec fn piece_layers(piece: Seq<char>, max: nat) -> Set<u32> {
    let p = trim(piece);
    if p.len() == 0 {
        Set::empty()
    } else {
        match find_seq(p, seq!['-']) {
            Some(d) => {
                let a = parse_unsigned(trim(p.take(d)), u32::MAX as nat);
                let b = parse_unsigned(trim(p.skip(d + 1)), u32::MAX as nat);
                if a.is_some() && b.is_some() && a.unwrap() < max && b.unwrap() < max
                    && a.unwrap() <= b.unwrap() {
                    layer_span(a.unwrap(), b.unwrap())
                } else {
                    Set::empty()
                }
            },
            None => match parse_unsigned(p, u32::MAX as nat) {
                Some(l) => if l < max {
                    set![l as u32]
                } else {
                    Set::empty()
                },
                None => Set::empty(),
            },
        }
    }
}

/// The layers named by the pieces `ps`.
pub open spec fn pieces_layers(ps: Seq<Seq<char>>, max: nat) -> Set<u32>
    decreases ps.len(),
{
    if ps.len() == 0 {
        Set::empty()
    } else {
        pieces_layers(ps.drop_last(), max).union(piece_layers(ps.last(), max))
    }
}

/// The layers named by the layer input `input` (pieces separated by `,`), below `max`.
pub open spec fn input_layers(input: Seq<char>, max: nat) -> Set<u32> {
    pieces_layers(split_on(input, ','), max)
}

/// The members of `s` below `n`, in ascending order.
pub open spec fn listing_below(s: Set<u32>, n: nat) -> Seq<u32>
    decreases n,
{
    if n == 0 {
        Seq::empty()
    } else if s.contains((n - 1) as u32) {
        listing_below(s, (n - 1) as nat).push((n - 1) as u32)
    } else {
        listing_below(s, (n - 1) as nat)
    }
}

/// The layers of `s` in ascending order, each once.
pub open spec fn ascending_of(s: Set<u32>) -> Seq<u32> {
    listing_below(s, 0x1_0000_0000)
}

proof fn lemma_listing_below(s: Set<u32>, n: nat)
    requires
        n <= 0x1_0000_0000,
    ensures
        strictly_ascending(listing_below(s, n)),
        forall|k: int| 0 <= k < listing_below(s, n).len() ==> #[trigger] listing_below(s, n)[k] < n,
        forall|x: u32| listing_below(s, n).to_set().contains(x) <==> (s.contains(x) && x < n),
    decreases n,
{
    if n > 0 {
        let prev = listing_below(s, (n - 1) as nat);
        lemma_listing_below(s, (n - 1) as nat);
        let cur = listing_below(s, n);
        assert forall|x: u32| cur.to_set().contains(x) <==> (s.contains(x) && x < n) by {
            if cur.to_set().contains(x) {
                let k = choose|k: int| 0 <= k < cur.len() && cur[k] == x;
                if k < prev.len() {
                    assert(prev[k] == x);
                    assert(prev.to_set().contains(x));
                }
            }
            if s.contains(x) && x < n {
                if x < n - 1 {
                    assert(prev.to_set().contains(x));
                    let k = choose|k: int| 0 <= k < prev.len() && prev[k] == x;
                    assert(cur[k] == x);
                } else {
                    assert(cur[cur.len() - 1] == x);
                }
            }
        }
    }
}

/// `ascending_of(s)` lists exactly the members of `s`, in strictly ascending order.
pub proof fn lemma_ascending_of(s: Set<u32>)
    ensures
        strictly_ascending(ascending_of(s)),
        ascending_of(s).to_set() == s,
{
    lemma_listing_below(s, 0x1_0000_0000);
    assert(ascending_of(s).to_set() =~= s);
}

/// A set has at most one strictly ascending listing.
pub proof fn lemma_strictly_ascending_unique(a: Seq<u32>, b: Seq<u32>)
    requires
        strictly_ascending(a),
        strictly_ascending(b),
        a.to_set() == b.to_set(),
    ensures
        a == b,
    decreases a.len(),
{
    if a.len() == 0 {
        if b.len() > 0 {
            assert(b.to_set().contains(b[0]));
        }
        assert(a =~= b);
    } else if b.len() == 0 {
        assert(a.to_set().contains(a[0]));
    } else {
        assert(a.to_set().contains(b[0]));
        assert(b.to_set().contains(a[0]));
        let i = choose|i: int| 0 <= i < a.len() && a[i] == b[0];
        let j = choose|j: int| 0 <= j < b.len() && b[j] == a[0];
        assert(a[0] == b[0]) by {
            if a[0] < b[0] {
                assert(b[j] == a[0]);
                if j > 0 {
                    assert(b[0] < b[j]);
                }
            } else if a[0] > b[0] {
                if i > 0 {
                    assert(a[0] < a[i]);
                }
            }
        }
        let a1 = a.drop_first();
        let b1 = b.drop_first();
        assert(a1.to_set() =~= b1.to_set()) by {
            assert forall|x: u32| a1.to_set().contains(x) <==> b1.to_set().contains(x) by {
                if a1.to_set().contains(x) {
                    let k = choose|k: int| 0 <= k < a1.len() && a1[k] == x;
                    assert(a[k + 1] == x);
                    assert(a[0] < a[k + 1]);
                    assert(b.to_set().contains(x));
                    let q = choose|q: int| 0 <= q < b.len() && b[q] == x;
                    assert(q != 0);
                    assert(b1[q - 1] == x);
                }
                if b1.to_set().contains(x) {
                    let k = choose|k: int| 0 <= k < b1.len() && b1[k] == x;
                    assert(b[k + 1] == x);
                    assert(b[0] < b[k + 1]);
                    assert(a.to_set().contains(x));
                    let q = choose|q: int| 0 <= q < a.len() && a[q] == x;
                    assert(q != 0);
                    assert(a1[q - 1] == x);
                }
            }
        }
        lemma_strictly_ascending_unique(a1, b1);
        assert(a =~= b) by {
            assert forall|k: int| 0 <= k < a.len() implies a[k] == b[k] by {
                if k > 0 {
                    assert(a1[k - 1] == b1[k - 1]);
                }
            }
        }
    }
}

/// Adds `x` to the strictly ascending `v`, keeping it strictly ascending.
fn insert_layer(v: &mut Vec<u32>, x: u32)
    requires
        strictly_ascending(old(v)@),
    ensures
        strictly_ascending(final(v)@),
        final(v)@.to_set() == old(v)@.to_set().insert(x),
{
    let mut j: usize = 0;
    while j < v.len() && v[j] < x
        invariant
            j <= v@.len(),
            v@ == old(v)@,
            strictly_ascending(v@),
            forall|k: int| 0 <= k < j ==> v@[k] < x,
        decreases v@.len() - j,
    {
        j = j + 1;
    }
    if j < v.len() && v[j] == x {
        assert(old(v)@.to_set().insert(x) =~= old(v)@.to_set()) by {
            assert(old(v)@.to_set().contains(old(v)@[j as int]));
        }
        return;
    }
    let ghost o = v@;
    v.insert(j, x);
    assert(v@ == o.insert(j as int, x));
    assert(strictly_ascending(v@)) by {
        assert forall|a: int, b: int| 0 <= a < b < v@.len() implies v@[a] < v@[b] by {
            let ra = if a < j { o[a] } else if a == j { x } else { o[a - 1] };
            let rb = if b < j { o[b] } else if b == j { x } else { o[b - 1] };
            assert(v@[a] == ra);
            assert(v@[b] == rb);
            if a == j && b - 1 > j {
                assert(o[j as int] < o[b - 1]);
            }
            if a > j {
                assert(o[a - 1] < o[b - 1]);
            }
        }
    }
    assert(v@.to_set() =~= o.to_set().insert(x)) by {
        assert forall|y: u32| v@.to_set().contains(y) <==> o.to_set().insert(x).contains(y) by {
            if v@.to_set().contains(y) {
                let k = choose|k: int| 0 <= k < v@.len() && v@[k] == y;
                if k < j {
                    assert(o[k] == y);
                } else if k > j {
                    assert(o[k - 1] == y);
                }
            }
            if o.to_set().contains(y) {
                let k = choose|k: int| 0 <= k < o.len() && o[k] == y;
                if k < j {
                    assert(v@[k] == y);
                } else {
                    assert(v@[k + 1] == y);
                }
            }
            if y == x {
                assert(v@[j as int] == x);
            }
        }
    }
}

/// The layers named by one piece of layer input, added to `acc`.
fn add_piece_layers(acc: &mut Vec<u32>, piece: &Vec<char>, max_layers: u32)
    requires
        strictly_ascending(old(acc)@),
    ensures
        strictly_ascending(final(acc)@),
        final(acc)@.to_set() == old(acc)@.to_set().union(piece_layers(piece@, max_layers as nat)),
{
    let p = trim_chars(piece);
    if p.len() == 0 {
        assert(old(acc)@.to_set().union(Set::empty()) =~= old(acc)@.to_set());
        return;
    }
    let dash = chars_of("-");
    proof {
        reveal_strlit("-");
        assert(dash@ =~= seq!['-']);
    }
    match find_chars(&p, &dash) {
        Some(d) => {
            assert(occurs_at(p@, dash@, d as int));
            let n = p.len();
            let left = sub_chars(&p, 0, d);
            let right = sub_chars(&p, d + 1, n);
            assert(left@ =~= p@.take(d as int));
            assert(right@ =~= p@.skip(d + 1));
            let a = parse_unsigned_chars(&trim_chars(&left), u32::MAX as u64);
            let b = parse_unsigned_chars(&trim_chars(&right), u32::MAX as u64);
            match (a, b) {
                (Some(a), Some(b)) => {
                    if a < max_layers as u64 && b < max_layers as u64 && a <= b {
                        let lo = a as u32;
                        let hi = b as u32;
                        let mut l: u64 = lo as u64;
                        let ghost start = acc@.to_set();
                        assert(Set::new(|y: u32| lo <= y && y < l) =~= Set::<u32>::empty());
                        assert(start.union(Set::empty()) =~= start);
                        while l <= hi as u64
                            invariant
                                lo <= l <= hi as u64 + 1,
                                hi < max_layers,
                                strictly_ascending(acc@),
                                acc@.to_set() == start.union(Set::new(|y: u32| lo <= y && y < l)),
                            decreases hi as u64 + 1 - l,
                        {
                            insert_layer(acc, l as u32);
                            assert(acc@.to_set() =~= start.union(
                                Set::new(|y: u32| lo <= y && y < l + 1),
                            ));
                            l = l + 1;
                        }
                        assert(Set::new(|y: u32| lo <= y && y < l) =~= layer_span(
                            lo as nat,
                            hi as nat,
                        ));
                        assert(layer_span(lo as nat, hi as nat) =~= piece_layers(
                            piece@,
                            max_layers as nat,
                        ));
                    } else {
                        assert(acc@.to_set().union(Set::empty()) =~= acc@.to_set());
                    }
                },
                _ => {
                    assert(acc@.to_set().union(Set::empty()) =~= acc@.to_set());
                },
            }
        },
        None => {
            match parse_unsigned_chars(&p, u32::MAX as u64) {
                Some(l) => {
                    if l < max_layers as u64 {
                        insert_layer(acc, l as u32);
                        assert(old(acc)@.to_set().insert(l as u32) =~= old(acc)@.to_set().union(
                            set![l as u32],
                        ));
                    } else {
                        assert(acc@.to_set().union(Set::empty()) =~= acc@.to_set());
                    }
                },
                None => {
                    assert(acc@.to_set().union(Set::empty()) =~= acc@.to_set());
                },
            }
        },
    }
}

/// Parses layer input such as `0,1,2` or `0-5, 8`: the layers it names that are below
/// `max_layers`, ascending and without repeats; `None` when it names none.
pub fn parse_layer_input(input: &str, max_layers: u32) -> (r: Option<Vec<u32>>)
    ensures
        match r {
            Some(v) => {
                &&& strictly_ascending(v@)
                &&& v@.len() > 0
                &&& v@.to_set() == input_layers(input@, max_layers as nat)
                &&& v@ == ascending_of(input_layers(input@, max_layers as nat))
            },
            None => input_layers(input@, max_layers as nat).is_empty(),
        },
{
    let cs = chars_of(input);
    let parts = split_chars(&cs, ',');
    let ghost ps = split_on(cs@, ',');
    let mut acc: Vec<u32> = Vec::new();
    let mut k: usize = 0;
    assert(ps.take(0) =~= Seq::<Seq<char>>::empty());
    assert(acc@.to_set() =~= Set::<u32>::empty());
    while k < parts.len()
        invariant
            k <= parts@.len(),
            parts@.len() == ps.len(),
            forall|i: int| 0 <= i < parts@.len() ==> #[trigger] parts@[i]@ == ps[i],
            strictly_ascending(acc@),
            acc@.to_set() == pieces_layers(ps.take(k as int), max_layers as nat),
        decreases parts@.len() - k,
    {
        add_piece_layers(&mut acc, &parts[k], max_layers);
        assert(ps.take(k + 1).drop_last() =~= ps.take(k as int));
        assert(ps.take(k + 1).last() == parts@[k as int]@);
        k = k + 1;
    }
    assert(ps.take(ps.len() as int) =~= ps);
    if acc.len() == 0 {
        assert(acc@.to_set() =~= Set::<u32>::empty());
        None
    } else {
        assert(acc@.to_set().contains(acc@[0]));
        proof {
            let set = input_layers(input@, max_layers as nat);
            let w = ascending_of(set);
            lemma_ascending_of(set);
            lemma_strictly_ascending_unique(acc@, w);
        }
        Some(acc)
    }
}

/// The layers covered by the runs `rs`, each run `(a, b)` standing for `a..=b`.
pub open spec fn spans_union(rs: Seq<(u32, u32)>) -> Set<u32>
    decreases rs.len(),
{
    if rs.len() == 0 {
        Set::empty()
    } else {
        spans_union(rs.drop_last()).union(layer_span(rs.last().0 as nat, rs.last().1 as nat))
    }
}

proof fn lemma_runs_cover(s: Seq<u32>)
    requires
        s.len() > 0,
        ascending(s),
    ensures
        runs(s).len() > 0,
        runs(s).last().1 == s.last(),
        forall|i: int| 0 <= i < runs(s).len() ==> #[trigger] runs(s)[i].0 <= runs(s)[i].1
            && s.contains(runs(s)[i].0) && s.contains(runs(s)[i].1),
        spans_union(runs(s)) == s.to_set(),
    decreases s.len(),
{
    if s.len() == 1 {
        let r = runs(s);
        assert(r == seq![(s[0], s[0])]);
        assert(r.drop_last() =~= Seq::<(u32, u32)>::empty());
        assert(r.last() == (s[0], s[0]));
        assert(spans_union(r) == spans_union(r.drop_last()).union(layer_span(s[0] as nat, s[0] as nat)));
        assert(spans_union(r.drop_last()) == Set::<u32>::empty());
        assert(s.contains(s[0]));
        assert(spans_union(r) =~= s.to_set()) by {
            assert forall|x: u32| spans_union(r).contains(x) <==> s.to_set().contains(x) by {
                if s.to_set().contains(x) {
                    let k = choose|k: int| 0 <= k < s.len() && s[k] == x;
                    assert(k == 0);
                }
            }
        }
    } else {
        let t = s.drop_last();
        assert(ascending(t)) by {
            assert forall|a: int, b: int| 0 <= a < b < t.len() implies t[a] <= t[b] by {
                assert(t[a] == s[a] && t[b] == s[b]);
            }
        }
        lemma_runs_cover(t);
        let r = runs(t);
        let x = s.last();
        assert(t.last() == s[s.len() - 2]);
        assert(t.last() <= x);
        assert forall|y: u32| t.contains(y) implies s.contains(y) by {
            let k = choose|k: int| 0 <= k < t.len() && t[k] == y;
            assert(s[k] == y);
        }
        assert(s.contains(x)) by {
            assert(s[s.len() - 1] == x);
        }
        assert(s.to_set() =~= t.to_set().insert(x)) by {
            assert forall|y: u32| s.to_set().contains(y) implies t.to_set().insert(y).contains(y)
                && (y == x || t.to_set().contains(y)) by {
                let k = choose|k: int| 0 <= k < s.len() && s[k] == y;
                if k < s.len() - 1 {
                    assert(t[k] == y);
                }
            }
        }
        let rl = r.last();
        assert(r[r.len() - 1] == rl);
        if x == rl.1 + 1 {
            let n = r.update(r.len() - 1, (rl.0, x));
            assert(runs(s) == n);
            assert(n.drop_last() =~= r.drop_last());
            assert(n.last() == (rl.0, x));
            assert(layer_span(rl.0 as nat, x as nat) =~= layer_span(rl.0 as nat, rl.1 as nat).insert(x));
            assert(spans_union(n) =~= spans_union(r).insert(x));
            assert forall|i: int| 0 <= i < n.len() implies #[trigger] n[i].0 <= n[i].1
                && s.contains(n[i].0) && s.contains(n[i].1) by {
                if i < n.len() - 1 {
                    assert(n[i] == r[i]);
                }
            }
        } else {
            let n = r.push((x, x));
            assert(runs(s) == n);
            assert(n.drop_last() =~= r);
            assert(layer_span(x as nat, x as nat) =~= set![x]);
            assert(spans_union(n) =~= spans_union(r).insert(x));
            assert forall|i: int| 0 <= i < n.len() implies #[trigger] n[i].0 <= n[i].1
                && s.contains(n[i].0) && s.contains(n[i].1) by {
                if i < n.len() - 1 {
                    assert(n[i] == r[i]);
                }
            }
        }
    }
}

proof fn lemma_split_append_plain(x: Seq<char>, b: Seq<char>, c: char)
    requires
        forall|i: int| 0 <= i < b.len() ==> b[i] != c,
    ensures
        split_on(x + b, c) == split_on(x, c).update(
            split_on(x, c).len() - 1,
            split_on(x, c).last() + b,
        ),
    decreases b.len(),
{
    lemma_split_nonempty(x, c);
    let q = split_on(x, c);
    if b.len() == 0 {
        assert(x + b =~= x);
        assert(q.last() + b =~= q.last());
        assert(q.update(q.len() - 1, q.last() + b) =~= q);
    } else {
        let b1 = b.drop_last();
        lemma_split_append_plain(x, b1, c);
        assert((x + b).drop_last() =~= x + b1);
        assert((x + b).last() == b.last());
        assert((q.last() + b1).push(b.last()) =~= q.last() + b);
        let p = split_on(x + b1, c);
        assert(p.last() == q.last() + b1);
        assert(split_on(x + b, c) =~= q.update(q.len() - 1, q.last() + b));
    }
}

proof fn lemma_split_join(parts: Seq<Seq<char>>, c: char)
    requires
        parts.len() >= 1,
        forall|i: int, j: int| 0 <= i < parts.len() && 0 <= j < parts[i].len() ==> parts[i][j] != c,
    ensures
        split_on(join(parts, seq![c]), c) == parts,
    decreases parts.len(),
{
    let e = Seq::<char>::empty();
    if parts.len() == 1 {
        let b = parts[0];
        assert forall|j: int| 0 <= j < b.len() implies b[j] != c by {
            assert(parts[0][j] != c);
        }
        lemma_split_append_plain(e, b, c);
        assert(e + b =~= b);
        assert(split_on(e, c) == seq![e]);
        assert(e + b =~= b);
        assert(split_on(b, c) =~= parts);
    } else {
        let d = parts.drop_last();
        assert forall|i: int, j: int| 0 <= i < d.len() && 0 <= j < d[i].len() implies d[i][j] != c by {
            assert(d[i] == parts[i]);
        }
        lemma_split_join(d, c);
        let a = join(d, seq![c]);
        let b = parts.last();
        assert forall|j: int| 0 <= j < b.len() implies b[j] != c by {
            assert(parts[parts.len() - 1][j] != c);
        }
        assert(a + seq![c] + b =~= a.push(c) + b);
        assert(a.push(c).drop_last() =~= a);
        assert(split_on(a.push(c), c) == d.push(e));
        lemma_split_append_plain(a.push(c), b, c);
        assert(e + b =~= b);
        assert(d.push(e).update(d.len() as int, e + b) =~= parts);
    }
}

proof fn lemma_digits_trim(d: Seq<char>)
    requires
        d.len() > 0,
        all_digits(d),
    ensures
        trim(d) == d,
{
    assert(is_digit(d[0]));
    assert(is_digit(d[d.len() - 1]));
    assert(trim_start(d) == d);
    assert(trim_end(d) == d);
}

proof fn lemma_run_piece(r: (u32, u32), max: nat)
    requires
        r.0 <= r.1,
        r.1 < max,
    ensures
        piece_layers(run_text(r), max) == layer_span(r.0 as nat, r.1 as nat),
        forall|j: int| 0 <= j < run_text(r).len() ==> run_text(r)[j] != ',',
{
    let da = decimal(r.0 as nat);
    let db = decimal(r.1 as nat);
    lemma_decimal_digits(r.0 as nat);
    lemma_decimal_digits(r.1 as nat);
    lemma_parse_decimal(r.0 as nat, u32::MAX as nat);
    lemma_parse_decimal(r.1 as nat, u32::MAX as nat);
    let dash = seq!['-'];
    if r.0 == r.1 {
        lemma_digits_trim(da);
        assert forall|i: int| !#[trigger] first_occurrence(da, dash, i) by {
            if occurs_at(da, dash, i) {
                assert(da.subrange(i, i + 1)[0] == da[i]);
                assert(is_digit(da[i]));
            }
        }
        assert(find_seq(da, dash) is None);
        assert(layer_span(r.0 as nat, r.1 as nat) =~= set![r.0]);
        assert forall|j: int| 0 <= j < da.len() implies da[j] != ',' by {
            assert(is_digit(da[j]));
        }
    } else {
        let p = da + dash + db;
        let k = da.len() as int;
        assert(p == run_text(r));
        assert forall|j: int| 0 <= j < p.len() implies #[trigger] p[j] == '-' || is_digit(p[j]) by {
            if j < k {
                assert(p[j] == da[j]);
            } else if j > k {
                assert(p[j] == db[j - k - 1]);
            }
        }
        assert forall|j: int| 0 <= j < p.len() implies p[j] != ',' by {
            assert(p[j] == '-' || is_digit(p[j]));
        }
        assert(is_digit(da[0]));
        assert(p[0] == da[0]);
        assert(is_digit(db[db.len() - 1]));
        assert(p[p.len() - 1] == db[db.len() - 1]);
        assert(trim_start(p) == p);
        assert(trim_end(p) == p);
        assert(trim(p) == p);
        assert(p.subrange(k, k + 1) =~= dash);
        assert(first_occurrence(p, dash, k)) by {
            assert forall|j: int| 0 <= j < k implies !occurs_at(p, dash, j) by {
                assert(p[j] == da[j]);
                assert(is_digit(da[j]));
                assert(p.subrange(j, j + 1)[0] == p[j]);
            }
        }
        let i = choose|i: int| first_occurrence(p, dash, i);
        assert(i == k) by {
            if i < k {
                assert(!occurs_at(p, dash, i));
            } else if i > k {
                assert(!occurs_at(p, dash, k));
            }
        }
        assert(find_seq(p, dash) == Some(k));
        assert(p.take(k) =~= da);
        assert(p.skip(k + 1) =~= db);
        lemma_digits_trim(da);
        lemma_digits_trim(db);
    }
}

/// The texts of the runs `rs`.
pub open spec fn run_texts(rs: Seq<(u32, u32)>) -> Seq<Seq<char>> {
    rs.map_values(|r: (u32, u32)| run_text(r))
}

proof fn lemma_pieces_of_runs(rs: Seq<(u32, u32)>, max: nat)
    requires
        forall|i: int| 0 <= i < rs.len() ==> #[trigger] rs[i].0 <= rs[i].1 && rs[i].1 < max,
    ensures
        pieces_layers(run_texts(rs), max) == spans_union(rs),
        forall|i: int, j: int| 0 <= i < rs.len() && 0 <= j < run_texts(rs)[i].len()
            ==> #[trigger] run_texts(rs)[i][j] != ',',
    decreases rs.len(),
{
    let texts = run_texts(rs);
    if rs.len() > 0 {
        let d = rs.drop_last();
        assert forall|i: int| 0 <= i < d.len() implies #[trigger] d[i].0 <= d[i].1 && d[i].1 < max by {
            assert(d[i] == rs[i]);
        }
        lemma_pieces_of_runs(d, max);
        assert(texts.drop_last() =~= run_texts(d));
        assert(rs[rs.len() - 1] == rs.last());
        lemma_run_piece(rs.last(), max);
        assert(texts.last() == run_text(rs.last()));
        assert forall|i: int, j: int| 0 <= i < rs.len() && 0 <= j < texts[i].len() implies texts[i][j] != ',' by {
            lemma_run_piece(rs[i], max);
        }
    }
}

/// Parsing the text that `format_layers` writes for a non-empty list of layers, all below
/// `max_layers`, names exactly those layers: `parse_layer_input` gives them back ascending,
/// each once (`ascending_of` of their set).
pub proof fn lemma_format_then_parse(v: Seq<u32>, max_layers: u32)
    requires
        v.len() > 0,
        forall|i: int| 0 <= i < v.len() ==> #[trigger] v[i] < max_layers,
    ensures
        max_layer_at_most_once(v),
        input_layers(layer_ranges_text(v, seq![','], brackets()), max_layers as nat) == v.to_set(),
        !v.to_set().is_empty(),
{
    let leq = |a: u32, b: u32| layer_leq(a, b);
    lemma_layer_leq_total();
    v.lemma_sort_by_ensures(leq);
    let s = sorted_layers(v);
    broadcast use vstd::seq_lib::group_to_multiset_ensures;
    assert(s.len() == v.len()) by {
        assert(s.to_multiset().len() == v.to_multiset().len());
    }
    assert(sorted_by(s, leq));
    assert(ascending(s)) by {
        assert forall|a: int, b: int| 0 <= a < b < s.len() implies s[a] <= s[b] by {
            assert(leq(s[a], s[b]));
        }
    }
    assert forall|y: u32| #[trigger] s.contains(y) <==> v.contains(y) by {
        assert(s.to_multiset().count(y) == v.to_multiset().count(y));
    }
    assert forall|y: u32| s.contains(y) implies y < max_layers by {
        let k = choose|k: int| 0 <= k < v.len() && v[k] == y;
        assert(v[k] < max_layers);
    }
    lemma_runs_cover(s);
    let rs = runs(s);
    assert forall|i: int| 0 <= i < rs.len() implies #[trigger] rs[i].0 <= rs[i].1 && rs[i].1 < max_layers by {
        assert(rs[i].0 <= rs[i].1 && s.contains(rs[i].0) && s.contains(rs[i].1));
    }
    lemma_pieces_of_runs(rs, max_layers as nat);
    let texts = run_texts(rs);
    assert(texts == rs.map_values(|r: (u32, u32)| run_text(r)));
    lemma_split_join(texts, ',');
    assert(s.to_set() =~= v.to_set()) by {
        assert forall|y: u32| s.to_set().contains(y) <==> v.to_set().contains(y) by {
            assert(s.contains(y) <==> v.contains(y));
        }
    }
    assert(v.to_set().contains(v[0]));
    assert forall|i: int, j: int| 0 <= i < j < v.len() implies !(v[i] == u32::MAX && v[j] == u32::MAX) by {
        assert(v[i] < max_layers);
    }
}

/// The layers `0..total` that `assigned` lacks, ascending.
pub fn find_missing_layers(assigned: &HashSet<u32>, total: u32) -> (missing: Vec<u32>)
    ensures
        strictly_ascending(missing@),
        forall|l: u32| missing@.contains(l) <==> (l < total && !assigned@.contains(l)),
{
    broadcast use vstd::std_specs::hash::group_hash_axioms;

    let mut missing: Vec<u32> = Vec::new();
    let mut i: u32 = 0;
    while i < total
        invariant
            i <= total,
            strictly_ascending(missing@),
            forall|k: int| 0 <= k < missing@.len() ==> missing@[k] < i,
            forall|l: u32| missing@.contains(l) <==> (l < i && !assigned@.contains(l)),
        decreases total - i,
    {
        if !assigned.contains(&i) {
            let ghost o = missing@;
            missing.push(i);
            assert forall|l: u32| missing@.contains(l) <==> (l < i + 1 && !assigned@.contains(l)) by {
                if l == i {
                    assert(missing@[o.len() as int] == i);
                }
                if missing@.contains(l) && l != i {
                    let k = choose|k: int| 0 <= k < missing@.len() && missing@[k] == l;
                    assert(k < o.len());
                    assert(o.contains(l));
                }
                if o.contains(l) {
                    let k = choose|k: int| 0 <= k < o.len() && o[k] == l;
                    assert(missing@[k] == l);
                }
            }
        } else {
            assert forall|l: u32| missing@.contains(l) <==> (l < i + 1 && !assigned@.contains(l)) by {
                if missing@.contains(l) {
                    let k = choose|k: int| 0 <= k < missing@.len() && missing@[k] == l;
                    assert(missing@[k] < i);
                }
            }
        }
        i = i + 1;
    }
    missing
}

/// The smallest value of the non-empty `s`.
pub open spec fn seq_min(s: Seq<u32>) -> u32
    decreases s.len(),
{
    if s.len() <= 1 {
        s[0]
    } else if s.last() < seq_min(s.drop_last()) {
        s.last()
    } else {
        seq_min(s.drop_last())
    }
}

/// The largest value of the non-empty `s`.
pub open spec fn seq_max(s: Seq<u32>) -> u32
    decreases s.len(),
{
    if s.len() <= 1 {
        s[0]
    } else if s.last() > seq_max(s.drop_last()) {
        s.last()
    } else {
        seq_max(s.drop_last())
    }
}

/// The smallest value of the non-empty `v`.
pub fn min_layer(v: &Vec<u32>) -> (m: u32)
    requires
        v@.len() > 0,
    ensures
        m == seq_min(v@),
{
    let mut m = v[0];
    let mut i: usize = 1;
    assert(v@.take(1) =~= seq![v@[0]]);
    while i < v.len()
        invariant
            1 <= i <= v@.len(),
            m == seq_min(v@.take(i as int)),
        decreases v@.len() - i,
    {
        assert(v@.take(i + 1).drop_last() =~= v@.take(i as int));
        if v[i] < m {
            m = v[i];
        }
        i = i + 1;
    }
    assert(v@.take(v@.len() as int) =~= v@);
    m
}

/// The largest value of the non-empty `v`.
pub fn max_layer(v: &Vec<u32>) -> (m: u32)
    requires
        v@.len() > 0,
    ensures
        m == seq_max(v@),
{
    let mut m = v[0];
    let mut i: usize = 1;
    assert(v@.take(1) =~= seq![v@[0]]);
    while i < v.len()
        invariant
            1 <= i <= v@.len(),
            m == seq_max(v@.take(i as int)),
        decreases v@.len() - i,
    {
        assert(v@.take(i + 1).drop_last() =~= v@.take(i as int));
        if v[i] > m {
            m = v[i];
        }
        i = i + 1;
    }
    assert(v@.take(v@.len() as int) =~= v@);
    m
}

/// Whether shard `t` has layers and the first of them is `l`.
pub open spec fn starts_at(m: Map<Seq<char>, Seq<u32>>, t: Seq<char>, l: int) -> bool {
    m.dom().contains(t) && m[t].len() > 0 && seq_min(m[t]) == l
}

/// Whether shard `t` starts right after the last layer of shard `s`.
pub open spec fn starts_after(m: Map<Seq<char>, Seq<u32>>, s: Seq<char>, t: Seq<char>) -> bool {
    starts_at(m, t, seq_max(m[s]) + 1)
}

/// Whether shard `t` starts at layer 0.
pub open spec fn starts_first(m: Map<Seq<char>, Seq<u32>>, t: Seq<char>) -> bool {
    starts_at(m, t, 0)
}

/// Whether the ring continues from shard `s` (which has layers) at all: some shard
/// starts right after its last layer, or some shard starts at layer 0.
pub open spec fn has_next(m: Map<Seq<char>, Seq<u32>>, s: Seq<char>) -> bool {
    &&& m.dom().contains(s)
    &&& m[s].len() > 0
    &&& ((exists|u: Seq<char>| #[trigger] starts_after(m, s, u)) || (exists|u: Seq<char>|
        #[trigger] starts_first(m, u)))
}

/// Whether `t` may follow `s` in the ring: a shard starting right after the last layer
/// of `s`, or, when there is none, a shard starting at layer 0.
pub open spec fn valid_next(m: Map<Seq<char>, Seq<u32>>, s: Seq<char>, t: Seq<char>) -> bool {
    if exists|u: Seq<char>| #[trigger] starts_after(m, s, u) {
        starts_after(m, s, t)
    } else {
        starts_first(m, t)
    }
}

/// Whether every assigned layer is below `u32::MAX` (counting past the last layer of a
/// shard must not overflow).
pub open spec fn layers_below_max(m: Map<Seq<char>, Seq<u32>>) -> bool {
    forall|k: Seq<char>, i: int|
        m.dom().contains(k) && 0 <= i < m[k].len() ==> #[trigger] m[k][i] < u32::MAX
}

proof fn lemma_max_is_member(s: Seq<u32>)
    requires
        s.len() > 0,
    ensures
        exists|i: int| 0 <= i < s.len() && s[i] == seq_max(s),
    decreases s.len(),
{
    if s.len() > 1 {
        lemma_max_is_member(s.drop_last());
        let i = choose|i: int| 0 <= i < s.drop_last().len() && s.drop_last()[i] == seq_max(
            s.drop_last(),
        );
        assert(s[i] == s.drop_last()[i]);
        assert(s[s.len() - 1] == s.last());
    } else {
        assert(s[0] == seq_max(s));
    }
}

/// Finds an assigned shard whose first layer is `l`.
fn shard_starting_at(a: &Assignments, l: u64) -> (r: Option<usize>)
    requires
        a.wf(),
    ensures
        match r {
            Some(j) => j < a.entries().len() && starts_at(a.map(), a.entries()[j as int].0, l as int),
            None => forall|u: Seq<char>| !#[trigger] starts_at(a.map(), u, l as int),
        },
{
    proof {
        a.lemma_map();
    }
    let mut j: usize = 0;
    while j < a.len()
        invariant
            a.wf(),
            j <= a.entries().len(),
            forall|k: int| 0 <= k < j ==> !starts_at(a.map(), #[trigger] a.entries()[k].0, l as int),
        decreases a.entries().len() - j,
    {
        proof {
            a.lemma_map();
        }
        let layers = a.layers_at(j);
        if layers.len() > 0 && min_layer(layers) as u64 == l {
            assert(a.map()[a.entries()[j as int].0] == a.entries()[j as int].1);
            return Some(j);
        }
        assert(a.map()[a.entries()[j as int].0] == a.entries()[j as int].1);
        j = j + 1;
    }
    proof {
        a.lemma_map();
        assert forall|u: Seq<char>| !#[trigger] starts_at(a.map(), u, l as int) by {
            if starts_at(a.map(), u, l as int) {
                assert(a.map().dom().contains(u));
                let k = choose|k: int| 0 <= k < a.entries().len() && a.entries()[k].0 == u;
                assert(!starts_at(a.map(), a.entries()[k].0, l as int));
            }
        }
    }
    None
}

/// For each shard with layers, the shard that follows it in the ring: the one whose
/// first layer comes right after its last layer, or else the one starting at layer 0.
/// Shards for which neither exists get no entry.
#[verifier::spinoff_prover]
pub fn determine_next_instances(assignments: &Assignments) -> (next: Vec<(String, String)>)
    requires
        assignments.wf(),
        layers_below_max(assignments.map()),
    ensures
        forall|i: int, j: int| 0 <= i < j < next@.len() ==> next@[i].0@ != next@[j].0@,
        forall|k: Seq<char>| has_next(assignments.map(), k)
            <==> exists|i: int| 0 <= i < next@.len() && #[trigger] next@[i].0@ == k,
        forall|i: int| 0 <= i < next@.len() ==> valid_next(
            assignments.map(),
            #[trigger] next@[i].0@,
            next@[i].1@,
        ),
{
    let ghost m = assignments.map();
    proof {
        assignments.lemma_map();
    }
    let mut next: Vec<(String, String)> = Vec::new();
    let mut i: usize = 0;
    while i < assignments.len()
        invariant
            assignments.wf(),
            m == assignments.map(),
            layers_below_max(m),
            i <= assignments.entries().len(),
            forall|a: int, b: int| 0 <= a < b < next@.len() ==> next@[a].0@ != next@[b].0@,
            forall|a: int| 0 <= a < next@.len() ==> exists|k: int| 0 <= k < i && #[trigger] next@[a].0@
                == assignments.entries()[k].0,
            forall|k: int| 0 <= k < i ==> (has_next(m, #[trigger] assignments.entries()[k].0)
                <==> exists|a: int| 0 <= a < next@.len() && next@[a].0@ == assignments.entries()[k].0),
            forall|a: int| 0 <= a < next@.len() ==> valid_next(m, #[trigger] next@[a].0@, next@[a].1@),
        decreases assignments.entries().len() - i,
    {
        proof {
            assignments.lemma_map();
        }
        let name = assignments.name_at(i);
        let layers = assignments.layers_at(i);
        let ghost key = assignments.entries()[i as int].0;
        assert(m[key] == layers@);
        let ghost old_next = next@;
        if layers.len() > 0 {
            let mx = max_layer(layers);
            proof {
                lemma_max_is_member(layers@);
                let w = choose|w: int| 0 <= w < layers@.len() && layers@[w] == seq_max(layers@);
                assert(m[key][w] < u32::MAX);
            }
            match shard_starting_at(assignments, mx as u64 + 1) {
                Some(j) => {
                    assert(starts_after(m, key, assignments.entries()[j as int].0));
                    next.push((name.clone(), assignments.name_at(j).clone()));
                    assert(has_next(m, key));
                },
                None => {
                    assert forall|u: Seq<char>| !#[trigger] starts_after(m, key, u) by {
                        assert(!starts_at(m, u, mx as int + 1));
                    }
                    match shard_starting_at(assignments, 0) {
                        Some(j) => {
                            assert(starts_first(m, assignments.entries()[j as int].0));
                            next.push((name.clone(), assignments.name_at(j).clone()));
                            assert(has_next(m, key));
                        },
                        None => {
                            assert forall|u: Seq<char>| !#[trigger] starts_first(m, u) by {
                                assert(!starts_at(m, u, 0));
                            }
                            assert(!has_next(m, key));
                        },
                    }
                },
            }
        } else {
            assert(!has_next(m, key));
        }
        assert forall|a: int, b: int| 0 <= a < b < next@.len() implies next@[a].0@ != next@[b].0@ by {
            if b == old_next.len() {
                let k = choose|k: int| 0 <= k < i && #[trigger] old_next[a].0@
                    == assignments.entries()[k].0;
                assert(assignments.entries()[k].0 != assignments.entries()[i as int].0);
            } else {
                assert(old_next[a] == next@[a] && old_next[b] == next@[b]);
            }
        }
        assert forall|a: int| 0 <= a < next@.len() implies exists|k: int| 0 <= k < i + 1 && #[trigger] next@[a].0@
            == assignments.entries()[k].0 by {
            if a < old_next.len() {
                assert(old_next[a] == next@[a]);
            } else {
                assert(next@[a].0@ == assignments.entries()[i as int].0);
            }
        }
        assert forall|k: int| 0 <= k < i + 1 implies (has_next(m, #[trigger] assignments.entries()[k].0)
            <==> exists|a: int| 0 <= a < next@.len() && next@[a].0@ == assignments.entries()[k].0) by {
            if k < i {
                if exists|a: int| 0 <= a < next@.len() && next@[a].0@ == assignments.entries()[k].0 {
                    let a = choose|a: int| 0 <= a < next@.len() && next@[a].0@ == assignments.entries()[k].0;
                    if a == old_next.len() {
                        assert(assignments.entries()[k].0 != assignments.entries()[i as int].0);
                    } else {
                        assert(old_next[a] == next@[a]);
                    }
                }
                if has_next(m, assignments.entries()[k].0) {
                    let a = choose|a: int| 0 <= a < old_next.len() && old_next[a].0@ == assignments.entries()[k].0;
                    assert(next@[a] == old_next[a]);
                }
            } else {
                if exists|a: int| 0 <= a < old_next.len() && old_next[a].0@ == key {
                    let a = choose|a: int| 0 <= a < old_next.len() && old_next[a].0@ == key;
                    let k2 = choose|k2: int| 0 <= k2 < i && #[trigger] old_next[a].0@
                        == assignments.entries()[k2].0;
                    assert(assignments.entries()[k2].0 != key);
                }
                if next@.len() > old_next.len() {
                    assert(next@[old_next.len() as int].0@ == key);
                }
            }
        }
        assert forall|a: int| 0 <= a < next@.len() implies valid_next(m, #[trigger] next@[a].0@, next@[a].1@) by {
            if a < old_next.len() {
                assert(old_next[a] == next@[a]);
            }
        }
        i = i + 1;
    }
    assert forall|k: Seq<char>| has_next(m, k)
        <==> exists|i: int| 0 <= i < next@.len() && #[trigger] next@[i].0@ == k by {
        if has_next(m, k) {
            assert(m.dom().contains(k));
            let j = choose|j: int| 0 <= j < assignments.entries().len() && assignments.entries()[j].0 == k;
            assert(has_next(m, assignments.entries()[j].0));
        }
        if exists|i: int| 0 <= i < next@.len() && #[trigger] next@[i].0@ == k {
            let a = choose|a: int| 0 <= a < next@.len() && #[trigger] next@[a].0@ == k;
            let j = choose|j: int| 0 <= j < i && #[trigger] next@[a].0@ == assignments.entries()[j].0;
            assert(exists|b: int| 0 <= b < next@.len() && next@[b].0@ == assignments.entries()[j].0);
        }
    }
    next
}

} // verus!
