//! What the persistent layer holds.

use crate::json::Json;
use crate::order;
use crate::order::sorted;
use crate::table::Table;
use vstd::hash_set::*;
use vstd::prelude::*;
use vstd::string::*;

verus! {

/// A summary of the persistent layer.  Constraints should be the ONLY
/// population; nonzero channel_updates / disabled_nodes /
/// created_channels there would mean something is leaking past the
/// per-request split layers.
#[derive(Debug, Clone, Copy, PartialEq, Eq, Structural)]
pub struct LayerStats {
    pub constraints: usize,
    /// Liquidity a part proved.
    pub constraint_minimums: usize,
    /// Bounds a failure found.
    pub constraint_maximums: usize,
    /// Breadth: distinct directions, split by bound kind (a direction
    /// with a max-bound is one askrene can short-circuit at plan time).
    pub constraint_scidds: usize,
    pub dirs_with_max: usize,
    pub dirs_with_min: usize,
    /// Depth: entries stacked per direction.
    pub depth_min: u64,
    pub depth_median: u64,
    pub depth_p90: u64,
    pub depth_max: u64,
    pub oldest_constraint: Option<u64>,
    pub newest_constraint: Option<u64>,
    pub channel_updates: usize,
    pub disabled_nodes: usize,
    pub created_channels: usize,
    pub biases: usize,
}

/// Whether a constraint has an integer at `key`.
pub open spec fn has_uint(c: Json, key: Seq<char>) -> bool {
    c.at(key).uint() is Some
}

/// How many of the first `n` constraints have an integer at `key`.
pub open spec fn count_with(cs: Seq<Json>, key: Seq<char>, n: int) -> int
    decreases n,
{
    if n <= 0 {
        0
    } else {
        count_with(cs, key, n - 1) + if has_uint(cs[n - 1], key) {
            1int
        } else {
            0
        }
    }
}

/// The direction a constraint is about.
pub open spec fn dir_of(c: Json) -> Option<Seq<char>> {
    c.at("short_channel_id_dir"@).text()
}

/// The directions of the first `n` constraints, each once, in the order
/// of their first constraint.
pub open spec fn dirs(cs: Seq<Json>, n: int) -> Seq<Seq<char>>
    decreases n,
{
    if n <= 0 {
        seq![]
    } else {
        let before = dirs(cs, n - 1);
        match dir_of(cs[n - 1]) {
            Some(d) => if before.contains(d) {
                before
            } else {
                before.push(d)
            },
            None => before,
        }
    }
}

/// How many of the first `n` constraints are about `d`.
pub open spec fn depth_of(cs: Seq<Json>, d: Seq<char>, n: int) -> int
    decreases n,
{
    if n <= 0 {
        0
    } else {
        depth_of(cs, d, n - 1) + if dir_of(cs[n - 1]) == Some(d) {
            1int
        } else {
            0
        }
    }
}

/// The directions of those of the first `n` constraints that have an
/// integer at `key`.
pub open spec fn dirs_with(cs: Seq<Json>, key: Seq<char>, n: int) -> Set<Seq<char>>
    decreases n,
{
    if n <= 0 {
        Set::empty()
    } else {
        let before = dirs_with(cs, key, n - 1);
        match dir_of(cs[n - 1]) {
            Some(d) => if has_uint(cs[n - 1], key) {
                before.insert(d)
            } else {
                before
            },
            None => before,
        }
    }
}

/// How deep each direction is stacked, ascending.
pub open spec fn depths(cs: Seq<Json>) -> Seq<u64> {
    order::ascending(
        dirs(cs, cs.len() as int).map_values(
            |d: Seq<char>| depth_of(cs, d, cs.len() as int) as u64,
        ),
    )
}

/// Nearest-rank percentile of ascending values; 0 of none.
pub open spec fn percentile(s: Seq<u64>, pct: int) -> u64 {
    if s.len() == 0 {
        0
    } else {
        s[(pct * (s.len() - 1) + 50) / 100]
    }
}

/// `t` is the least timestamp of `cs`; None where there is none.
pub open spec fn is_oldest(t: Option<u64>, cs: Seq<Json>) -> bool {
    match t {
        None => forall|i: int| 0 <= i < cs.len() ==> !has_uint(#[trigger] cs[i], "timestamp"@),
        Some(t) => {
            &&& exists|i: int|
                0 <= i < cs.len() && (#[trigger] cs[i]).at("timestamp"@).uint() == Some(t)
            &&& forall|i: int|
                0 <= i < cs.len() ==> ((#[trigger] cs[i]).at("timestamp"@).uint() matches Some(u)
                    ==> t <= u)
        },
    }
}

/// `t` is the greatest timestamp of `cs`; None where there is none.
pub open spec fn is_newest(t: Option<u64>, cs: Seq<Json>) -> bool {
    match t {
        None => forall|i: int| 0 <= i < cs.len() ==> !has_uint(#[trigger] cs[i], "timestamp"@),
        Some(t) => {
            &&& exists|i: int|
                0 <= i < cs.len() && (#[trigger] cs[i]).at("timestamp"@).uint() == Some(t)
            &&& forall|i: int|
                0 <= i < cs.len() ==> ((#[trigger] cs[i]).at("timestamp"@).uint() matches Some(u)
                    ==> u <= t)
        },
    }
}

impl LayerStats {
    /// The summary is that of the layer `l`.
    pub open spec fn summarizes(&self, l: Json) -> bool {
        let cs = l.at("constraints"@).elements();
        let n = cs.len() as int;
        let s = depths(cs);
        &&& self.constraints == n
        &&& self.constraint_minimums == count_with(cs, "minimum_msat"@, n)
        &&& self.constraint_maximums == n - count_with(cs, "minimum_msat"@, n)
        &&& self.constraint_scidds == dirs(cs, n).len()
        &&& self.dirs_with_max == dirs_with(cs, "maximum_msat"@, n).len()
        &&& self.dirs_with_min == dirs_with(cs, "minimum_msat"@, n).len()
        &&& self.depth_min == percentile(s, 0)
        &&& self.depth_median == percentile(s, 50)
        &&& self.depth_p90 == percentile(s, 90)
        &&& self.depth_max == percentile(s, 100)
        &&& is_oldest(self.oldest_constraint, cs)
        &&& is_newest(self.newest_constraint, cs)
        &&& self.channel_updates == l.at("channel_updates"@).elements().len()
        &&& self.disabled_nodes == l.at("disabled_nodes"@).elements().len()
        &&& self.created_channels == l.at("created_channels"@).elements().len()
        &&& self.biases == l.at("biases"@).elements().len()
    }
}

fn count_at(l: &Json, key: &str) -> (r: usize)
    ensures
        r == l.at(key@).elements().len(),
{
    match l.items_at(key) {
        Some(a) => a.len(),
        None => 0,
    }
}

fn percentile_of(s: &Vec<u64>, pct: u8) -> (r: u64)
    requires
        pct <= 100,
    ensures
        r == percentile(s@, pct as int),
{
    if s.len() == 0 {
        return 0;
    }
    let last: usize = s.len() - 1;
    proof {
        let p = pct as int;
        assert(0 <= p * last <= 100 * last) by (nonlinear_arith)
            requires
                0 <= p <= 100,
                0 <= last,
        ;
    }
    let at: usize = ((pct as u128 * last as u128 + 50) / 100) as usize;
    s[at]
}

proof fn lemma_depth_bound(cs: Seq<Json>, d: Seq<char>, n: int)
    requires
        0 <= n,
    ensures
        0 <= depth_of(cs, d, n) <= n,
    decreases n,
{
    if n > 0 {
        lemma_depth_bound(cs, d, n - 1);
    }
}

fn depths_of(cs: &Vec<Json>) -> (r: Vec<u64>)
    ensures
        r@ == depths(cs@),
        r@.len() == dirs(cs@, cs@.len() as int).len(),
{
    let ghost all = cs@;
    let mut depth: Table<u64> = Table::new();
    for i in 0..cs.len()
        invariant
            all == cs@,
            depth.wf(),
            depth.keys() == dirs(all, i as int),
            forall|d: Seq<char>| #[trigger]
                depth@.contains_key(d) ==> depth@[d] == depth_of(all, d, i as int),
            forall|d: Seq<char>| !#[trigger]
                depth@.contains_key(d) ==> depth_of(all, d, i as int) == 0,
    {
        proof {
            depth.lemma_keys();
        }
        if let Some(d) = cs[i].text_at("short_channel_id_dir") {
            let n: u64 = match depth.get(d) {
                Some(n) => *n,
                None => 0,
            };
            proof {
                lemma_depth_bound(all, d@, i as int);
                assert(depth.keys().contains(d@) <==> depth@.contains_key(d@));
            }
            depth.insert(d, n + 1);
        }
    }
    let mut values: Vec<u64> = Vec::new();
    let count: usize = depth.len();
    let ghost total = all.len() as int;
    for i in 0..count
        invariant
            depth.wf(),
            count == depth.keys().len(),
            depth.keys() == dirs(all, total),
            forall|d: Seq<char>| #[trigger]
                depth@.contains_key(d) ==> depth@[d] == depth_of(all, d, total),
            values@.len() == i,
            forall|j: int|
                0 <= j < i ==> #[trigger] values@[j] == depth_of(all, depth.keys()[j], total),
    {
        let v: u64 = *depth.value(i);
        values.push(v);
    }
    proof {
        assert(values@ =~= dirs(all, total).map_values(
            |d: Seq<char>| depth_of(all, d, total) as u64,
        ));
    }
    sorted(&values)
}

fn count_dirs_with(cs: &Vec<Json>, key: &str) -> (r: usize)
    ensures
        r == dirs_with(cs@, key@, cs@.len() as int).len(),
{
    let mut seen = StringHashSet::new();
    for i in 0..cs.len()
        invariant
            seen@ == dirs_with(cs@, key@, i as int),
    {
        if let Some(d) = cs[i].text_at("short_channel_id_dir") {
            if cs[i].uint_at(key).is_some() {
                let _ = seen.insert(d.to_owned());
            }
        }
    }
    seen.len()
}

fn count_uints(cs: &Vec<Json>, key: &str) -> (r: usize)
    ensures
        r == count_with(cs@, key@, cs@.len() as int),
        r <= cs@.len(),
{
    let mut n: usize = 0;
    for i in 0..cs.len()
        invariant
            n == count_with(cs@, key@, i as int),
            n <= i,
    {
        if cs[i].uint_at(key).is_some() {
            n = n + 1;
        }
    }
    n
}

fn time_span(cs: &Vec<Json>) -> (r: (Option<u64>, Option<u64>))
    ensures
        is_oldest(r.0, cs@),
        is_newest(r.1, cs@),
{
    let mut oldest: Option<u64> = None;
    let mut newest: Option<u64> = None;
    for i in 0..cs.len()
        invariant
            is_oldest(oldest, cs@.take(i as int)),
            is_newest(newest, cs@.take(i as int)),
    {
        let ghost before = cs@.take(i as int);
        let ghost after = cs@.take(i + 1);
        let ghost oldest0 = oldest;
        let ghost newest0 = newest;
        proof {
            assert(after =~= before.push(cs@[i as int]));
        }
        if let Some(t) = cs[i].uint_at("timestamp") {
            oldest = match oldest {
                Some(o) if o <= t => Some(o),
                _ => Some(t),
            };
            newest = match newest {
                Some(n) if n >= t => Some(n),
                _ => Some(t),
            };
        }
        proof {
            assert(after[i as int] == cs@[i as int]);
            assert forall|j: int| 0 <= j < i implies after[j] == before[j] by {}
            if let Some(o) = oldest0 {
                let w = choose|w: int|
                    0 <= w < before.len() && (#[trigger] before[w]).at("timestamp"@).uint() == Some(
                        o,
                    );
                assert(after[w] == before[w]);
            }
            if let Some(o) = newest0 {
                let w = choose|w: int|
                    0 <= w < before.len() && (#[trigger] before[w]).at("timestamp"@).uint() == Some(
                        o,
                    );
                assert(after[w] == before[w]);
            }
            assert(is_oldest(oldest, after));
            assert(is_newest(newest, after));
        }
    }
    proof {
        assert(cs@.take(cs@.len() as int) =~= cs@);
    }
    (oldest, newest)
}

fn summarize(l: &Json, cs: &Vec<Json>) -> (r: LayerStats)
    requires
        l.at("constraints"@).elements() == cs@,
    ensures
        r.summarizes(*l),
{
    let s = depths_of(cs);
    let minimums: usize = count_uints(cs, "minimum_msat");
    let (oldest, newest) = time_span(cs);
    LayerStats {
        constraints: cs.len(),
        constraint_minimums: minimums,
        constraint_maximums: cs.len() - minimums,
        constraint_scidds: s.len(),
        dirs_with_max: count_dirs_with(cs, "maximum_msat"),
        dirs_with_min: count_dirs_with(cs, "minimum_msat"),
        depth_min: percentile_of(&s, 0),
        depth_median: percentile_of(&s, 50),
        depth_p90: percentile_of(&s, 90),
        depth_max: percentile_of(&s, 100),
        oldest_constraint: oldest,
        newest_constraint: newest,
        channel_updates: count_at(l, "channel_updates"),
        disabled_nodes: count_at(l, "disabled_nodes"),
        created_channels: count_at(l, "created_channels"),
        biases: count_at(l, "biases"),
    }
}

/// Summarize the persistent layer; None where it does not exist.
/// `listed` is the reply of askrene-listlayers for that layer.
pub fn layer_stats(listed: &Json) -> (r: Option<LayerStats>)
    ensures
        match r {
            Some(s) => listed.at("layers"@).elements().len() > 0 && s.summarizes(
                listed.at("layers"@).elements()[0],
            ),
            None => listed.at("layers"@).elements().len() == 0,
        },
{
    let layers = match listed.items_at("layers") {
        Some(a) => a,
        None => return None,
    };
    if layers.len() == 0 {
        return None;
    }
    let l = &layers[0];
    match l.items_at("constraints") {
        Some(cs) => Some(summarize(l, cs)),
        None => {
            let none: Vec<Json> = Vec::new();
            proof {
                assert(none@ =~= l.at("constraints"@).elements());
            }
            Some(summarize(l, &none))
        },
    }
}

/// The depths are in order, and every constraint is counted as a
/// minimum or a maximum.
pub proof fn law_depths_are_ordered(stats: LayerStats, l: Json)
    requires
        stats.summarizes(l),
    ensures
        stats.depth_min <= stats.depth_median <= stats.depth_p90 <= stats.depth_max,
        stats.constraint_minimums + stats.constraint_maximums == stats.constraints,
{
    let cs = l.at("constraints"@).elements();
    let s = depths(cs);
    order::law_ascending(
        dirs(cs, cs.len() as int).map_values(
            |d: Seq<char>| depth_of(cs, d, cs.len() as int) as u64,
        ),
    );
    if s.len() > 0 {
        let n = s.len() - 1;
        let at = |p: int| (p * n + 50) / 100;
        assert(0 <= at(0) <= at(50) <= at(90) <= at(100) <= n);
    }
}

proof fn lemma_counts_of_prefix(cs: Seq<Json>, c: Json, key: Seq<char>, d: Seq<char>, n: int)
    requires
        0 <= n <= cs.len(),
    ensures
        count_with(cs.push(c), key, n) == count_with(cs, key, n),
        depth_of(cs.push(c), d, n) == depth_of(cs, d, n),
        dirs(cs.push(c), n) == dirs(cs, n),
        dirs_with(cs.push(c), key, n) == dirs_with(cs, key, n),
    decreases n,
{
    if n > 0 {
        lemma_counts_of_prefix(cs, c, key, d, n - 1);
        assert(cs.push(c)[n - 1] == cs[n - 1]);
    }
}

/// Constraints are counted one by one: each adds one to the count of a
/// bound that it has, and one to the depth of its own direction.
pub proof fn law_constraints_are_counted(cs: Seq<Json>, c: Json, key: Seq<char>, d: Seq<char>)
    ensures
        count_with(seq![], key, 0) == 0,
        depth_of(seq![], d, 0) == 0,
        count_with(cs.push(c), key, cs.len() as int + 1) == count_with(cs, key, cs.len() as int)
            + if c.at(key) is Uint {
            1int
        } else {
            0
        },
        depth_of(cs.push(c), d, cs.len() as int + 1) == depth_of(cs, d, cs.len() as int) + if (
        c.at("short_channel_id_dir"@) matches Json::Str(s) && s@ == d) {
            1int
        } else {
            0
        },
{
    lemma_counts_of_prefix(cs, c, key, d, cs.len() as int);
    assert(cs.push(c)[cs.len() as int] == c);
}

/// The directions are those of the constraints, each once: a direction is
/// among them exactly where some constraint is about it, and among those
/// with a bound exactly where some constraint about it has that bound.
pub proof fn law_directions_are_listed_once(cs: Seq<Json>, key: Seq<char>, n: int, d: Seq<char>)
    requires
        0 <= n <= cs.len(),
    ensures
        dirs(cs, n).no_duplicates(),
        dirs(cs, n).contains(d) <==> exists|i: int|
            0 <= i < n && ((#[trigger] cs[i]).at("short_channel_id_dir"@) matches Json::Str(s) && s@
                == d),
        dirs_with(cs, key, n).contains(d) <==> exists|i: int|
            0 <= i < n && ((#[trigger] cs[i]).at("short_channel_id_dir"@) matches Json::Str(s) && s@
                == d) && cs[i].at(key) is Uint,
        dirs_with(cs, key, n).finite(),
    decreases n,
{
    if n > 0 {
        law_directions_are_listed_once(cs, key, n - 1, d);
        let before = dirs(cs, n - 1);
        let all = dirs(cs, n);
        let c = cs[n - 1];
        if let Some(e) = dir_of(c) {
            if !before.contains(e) {
                assert(all == before.push(e));
                assert(all.last() == e);
                if before.contains(d) {
                    let k = choose|k: int| 0 <= k < before.len() && before[k] == d;
                    assert(all[k] == d);
                }
            }
        }
        if dirs(cs, n).contains(d) && !before.contains(d) {
            assert(cs[n - 1].at("short_channel_id_dir"@) is Str);
        }
    }
}

/// A percentile is the value at the nearest rank: the least for 0, the
/// greatest for 100, and in between the one whose place is nearest to its
/// share of the way.
pub proof fn law_percentiles_are_the_nearest_rank(s: Seq<u64>, pct: int)
    requires
        0 <= pct <= 100,
    ensures
        s.len() == 0 ==> percentile(s, pct) == 0,
        s.len() > 0 ==> percentile(s, 0) == s[0] && percentile(s, 100) == s.last(),
        s.len() > 0 ==> exists|k: int|
            0 <= k < s.len() && percentile(s, pct) == #[trigger] s[k] && -50 < 100 * k - pct * (
            s.len() - 1) <= 50,
{
    if s.len() > 0 {
        let n = s.len() - 1;
        let x = pct * n;
        assert(0 <= x <= 100 * n) by (nonlinear_arith)
            requires
                0 <= pct <= 100,
                0 <= n,
                x == pct * n,
        ;
        let k = (x + 50) / 100;
        assert(0 * n == 0) by (nonlinear_arith);
        assert(percentile(s, pct) == s[k]);
    }
}

/// The depths span those of the directions: no direction is stacked less
/// than the least or more than the greatest, and both are the depth of
/// some direction.
pub proof fn law_depths_span_the_directions(stats: LayerStats, l: Json, i: int)
    requires
        stats.summarizes(l),
        0 <= i < dirs(l.at("constraints"@).elements(), l.at("constraints"@).elements().len() as int).len(),
    ensures
        ({
            let cs = l.at("constraints"@).elements();
            let n = cs.len() as int;
            stats.depth_min <= depth_of(cs, dirs(cs, n)[i], n) <= stats.depth_max
        }),
        stats.constraints == l.at("constraints"@).elements().len(),
{
    let cs = l.at("constraints"@).elements();
    let n = cs.len() as int;
    let each = dirs(cs, n).map_values(|d: Seq<char>| depth_of(cs, d, n) as u64);
    let s = depths(cs);
    order::law_ascending(each);
    law_percentiles_are_the_nearest_rank(s, 0);
    lemma_depth_bound(cs, dirs(cs, n)[i], n);
    lemma_few_constraints(l);
    each.to_multiset_ensures();
    s.to_multiset_ensures();
    let v = each[i];
    assert(each.contains(v));
    assert(s.to_multiset().count(v) > 0);
    assert(s.contains(v));
    let k = choose|k: int| 0 <= k < s.len() && s[k] == v;
    assert(s[0] <= s[k] <= s.last());
}

proof fn lemma_few_constraints(l: Json)
    ensures
        l.at("constraints"@).elements().len() <= u64::MAX,
{
    if let Json::Array(a) = l.at("constraints"@) {
        assert(a@.len() == a.len());
    }
}

/// The times span those of the constraints: none is older than the oldest
/// or newer than the newest, both are the time of some constraint, and
/// there are none exactly where no constraint has one.
pub proof fn law_times_span_the_constraints(stats: LayerStats, l: Json, i: int)
    requires
        stats.summarizes(l),
        0 <= i < l.at("constraints"@).elements().len(),
    ensures
        ({
            let cs = l.at("constraints"@).elements();
            let at = |k: int| cs[k].at("timestamp"@);
            &&& at(i) matches Json::Uint(t) ==> stats.oldest_constraint is Some
                && stats.newest_constraint is Some && stats.oldest_constraint->0 <= t
                <= stats.newest_constraint->0
            &&& stats.oldest_constraint matches Some(t) ==> exists|k: int|
                0 <= k < cs.len() && (#[trigger] cs[k]).at("timestamp"@) == Json::Uint(t)
            &&& stats.newest_constraint matches Some(t) ==> exists|k: int|
                0 <= k < cs.len() && (#[trigger] cs[k]).at("timestamp"@) == Json::Uint(t)
        }),
{
    let cs = l.at("constraints"@).elements();
    if let Some(t) = stats.oldest_constraint {
        let k = choose|k: int|
            0 <= k < cs.len() && (#[trigger] cs[k]).at("timestamp"@).uint() == Some(t);
        assert(cs[k].at("timestamp"@) == Json::Uint(t));
    }
    if let Some(t) = stats.newest_constraint {
        let k = choose|k: int|
            0 <= k < cs.len() && (#[trigger] cs[k]).at("timestamp"@).uint() == Some(t);
        assert(cs[k].at("timestamp"@) == Json::Uint(t));
    }
    assert(has_uint(cs[i], "timestamp"@) == (cs[i].at("timestamp"@) is Uint));
}

/// A layer's summary counts what the layer holds: its constraints, how
/// many of them are minimums and how many directions they are about, in
/// all and by the kind of bound, and everything else that should not be
/// there.
pub proof fn law_summaries_count_the_layer(stats: LayerStats, l: Json)
    requires
        stats.summarizes(l),
    ensures
        ({
            let size = |key: Seq<char>|
                match l.at(key) {
                    Json::Array(a) => a@.len() as int,
                    _ => 0,
                };
            let cs = l.at("constraints"@).elements();
            let n = cs.len() as int;
            &&& stats.constraints == size("constraints"@)
            &&& stats.channel_updates == size("channel_updates"@)
            &&& stats.disabled_nodes == size("disabled_nodes"@)
            &&& stats.created_channels == size("created_channels"@)
            &&& stats.biases == size("biases"@)
            &&& stats.constraint_minimums == count_with(cs, "minimum_msat"@, n)
            &&& stats.constraint_minimums + stats.constraint_maximums == stats.constraints
            &&& stats.constraint_scidds == dirs(cs, n).len()
            &&& stats.dirs_with_min == dirs_with(cs, "minimum_msat"@, n).len()
            &&& stats.dirs_with_max == dirs_with(cs, "maximum_msat"@, n).len()
            &&& stats.constraint_scidds == 0 ==> stats.depth_median == 0 && stats.depth_p90 == 0
            &&& stats.constraint_scidds > 0 ==> exists|k: int|
                0 <= k < depths(cs).len() && stats.depth_median == #[trigger] depths(cs)[k] && -1 < 2
                    * k - (depths(cs).len() - 1) <= 1
            &&& stats.constraint_scidds > 0 ==> exists|k: int|
                0 <= k < depths(cs).len() && stats.depth_p90 == #[trigger] depths(cs)[k] && -5 < 10
                    * k - 9 * (depths(cs).len() - 1) <= 5
        }),
{
    let cs = l.at("constraints"@).elements();
    let n = cs.len() as int;
    let each = dirs(cs, n).map_values(|d: Seq<char>| depth_of(cs, d, n) as u64);
    order::law_ascending(each);
    let s = depths(cs);
    assert(s.len() == dirs(cs, n).len());
    if s.len() > 0 {
        let m = s.len() - 1;
        assert(stats.depth_median == s[(50 * m + 50) / 100]);
        assert(stats.depth_p90 == s[(90 * m + 50) / 100]);
    }
}

} // verus!
