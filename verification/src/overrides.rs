//! Learned gossip overrides, re-applied to each request's layer.
//!
//! askrene-age heals only constraints, so policy refreshes and node
//! disables written into the persistent layer would accumulate
//! there forever.  Channel exclusions could age there, but on the
//! wrong clock: constraint-age is liquidity-scale (hours), while an
//! exclusion asserts a policy-scale fact gossip corrects in
//! minutes.  All three live here instead -- in memory, timestamped
//! -- and each request writes the still-young entries into its own
//! split layer, which dies with the request.  A restart loses the
//! store; the next failed attempt re-learns it.

use crate::onion_error::ChanUpdate;
use crate::table::Table;
use vstd::prelude::*;

verus! {

/// The override store.
pub struct Overrides {
    max_age: u64,
    /// scidd -> (advertised policy, stored_at).
    policies: Table<(ChanUpdate, u64)>,
    /// node id -> stored_at.
    disabled_nodes: Table<u64>,
    /// scidd -> stored_at.
    exclusions: Table<u64>,
}

/// What the override store holds.
pub struct OverridesView {
    pub max_age: u64,
    pub policies: Map<Seq<char>, (ChanUpdate, u64)>,
    pub disabled_nodes: Map<Seq<char>, u64>,
    pub exclusions: Map<Seq<char>, u64>,
}

/// The still-young overrides, pruned and cloned for application to
/// one request's split layer (plan.rs).
#[derive(Debug)]
pub struct Snapshot {
    /// Applied as askrene-update-channel.
    pub policies: Vec<(String, ChanUpdate)>,
    /// Applied as askrene-disable-node.
    pub disabled_nodes: Vec<String>,
    /// Applied as askrene-inform-channel constrained at 1msat.
    pub exclusions: Vec<String>,
}

/// Whether an entry stored at `stored_at` has not expired at `now`.
pub open spec fn is_young(stored_at: u64, now: u64, max_age: u64) -> bool {
    now - stored_at <= max_age
}

impl OverridesView {
    /// The entries that have not expired at `now`.
    pub open spec fn pruned(self, now: u64) -> OverridesView {
        OverridesView {
            max_age: self.max_age,
            policies: self.policies.restrict(
                self.policies.dom().filter(
                    |k: Seq<char>| is_young(self.policies[k].1, now, self.max_age),
                ),
            ),
            disabled_nodes: self.disabled_nodes.restrict(
                self.disabled_nodes.dom().filter(
                    |k: Seq<char>| is_young(self.disabled_nodes[k], now, self.max_age),
                ),
            ),
            exclusions: self.exclusions.restrict(
                self.exclusions.dom().filter(
                    |k: Seq<char>| is_young(self.exclusions[k], now, self.max_age),
                ),
            ),
        }
    }

    /// Whether a returned update says what a young stored policy says.
    pub open spec fn repeats(self, scidd: Seq<char>, cu: ChanUpdate, now: u64) -> bool {
        &&& self.policies.contains_key(scidd)
        &&& is_young(self.policies[scidd].1, now, self.max_age)
        &&& self.policies[scidd].0.agrees(cu)
    }

    /// The store with a policy recorded.
    pub open spec fn with_policy(self, scidd: Seq<char>, cu: ChanUpdate, now: u64) -> OverridesView {
        OverridesView { policies: self.policies.insert(scidd, (cu, now)), ..self }
    }

    /// The store with a node disabled.
    pub open spec fn with_disabled_node(self, node: Seq<char>, now: u64) -> OverridesView {
        OverridesView { disabled_nodes: self.disabled_nodes.insert(node, now), ..self }
    }

    /// The store with a channel direction excluded.
    pub open spec fn with_exclusion(self, scidd: Seq<char>, now: u64) -> OverridesView {
        OverridesView { exclusions: self.exclusions.insert(scidd, now), ..self }
    }
}

/// The names in `v` as characters.
pub open spec fn names(v: Seq<String>) -> Seq<Seq<char>> {
    v.map_values(|s: String| s@)
}

/// The names of the policies in `v`.
pub open spec fn policy_names(v: Seq<(String, ChanUpdate)>) -> Seq<Seq<char>> {
    v.map_values(|e: (String, ChanUpdate)| e.0@)
}

/// `v` names every key of `m`, each once.
pub open spec fn lists<V>(v: Seq<Seq<char>>, m: Map<Seq<char>, V>) -> bool {
    &&& v.no_duplicates()
    &&& forall|k: Seq<char>| #[trigger] v.contains(k) <==> m.contains_key(k)
}

impl Snapshot {
    /// The snapshot holds exactly what the store `o` holds.
    pub open spec fn holds(&self, o: OverridesView) -> bool {
        &&& lists(policy_names(self.policies@), o.policies)
        &&& forall|i: int|
            0 <= i < self.policies@.len() ==> (#[trigger] self.policies@[i]).1
                == o.policies[self.policies@[i].0@].0
        &&& lists(names(self.disabled_nodes@), o.disabled_nodes)
        &&& lists(names(self.exclusions@), o.exclusions)
    }
}

impl View for Overrides {
    type V = OverridesView;

    closed spec fn view(&self) -> OverridesView {
        OverridesView {
            max_age: self.max_age,
            policies: self.policies@,
            disabled_nodes: self.disabled_nodes@,
            exclusions: self.exclusions@,
        }
    }
}

fn key_list<V>(t: &Table<V>) -> (r: Vec<String>)
    requires
        t.wf(),
    ensures
        names(r@) == t.keys(),
        lists(names(r@), t@),
{
    let mut out: Vec<String> = Vec::new();
    let n: usize = t.len();
    proof {
        t.lemma_keys();
    }
    for i in 0..n
        invariant
            t.wf(),
            n == t.keys().len(),
            names(out@) == t.keys().take(i as int),
    {
        let ghost before = out@;
        out.push(t.key(i).to_owned());
        proof {
            assert(names(out@) =~= names(before).push(t.keys()[i as int]));
            assert(names(out@) =~= t.keys().take(i + 1));
        }
    }
    proof {
        assert(t.keys().take(t.keys().len() as int) =~= t.keys());
        t.lemma_keys();
    }
    out
}

impl Overrides {
    /// The tables are well-formed.
    pub closed spec fn wf(&self) -> bool {
        self.policies.wf() && self.disabled_nodes.wf() && self.exclusions.wf()
    }

    /// An empty store whose entries expire after `max_age` seconds.
    pub fn new(max_age: u64) -> (r: Self)
        ensures
            r.wf(),
            r@ == (OverridesView {
                max_age,
                policies: Map::empty(),
                disabled_nodes: Map::empty(),
                exclusions: Map::empty(),
            }),
    {
        Overrides {
            max_age,
            policies: Table::new(),
            disabled_nodes: Table::new(),
            exclusions: Table::new(),
        }
    }

    /// Track a changed expiry (dynamic option); applies from the
    /// next snapshot or repeat check.
    pub fn set_max_age(&mut self, max_age: u64)
        requires
            old(self).wf(),
        ensures
            final(self).wf(),
            final(self)@ == (OverridesView { max_age, ..old(self)@ }),
    {
        self.max_age = max_age;
    }

    fn young(&self, stored_at: u64, now: u64) -> (r: bool)
        ensures
            r == is_young(stored_at, now, self@.max_age),
    {
        now.saturating_sub(stored_at) <= self.max_age
    }

    /// Store the policy a forwarder returned for a channel
    /// direction.
    pub fn record_policy(&mut self, scidd: &str, cu: ChanUpdate, now: u64)
        requires
            old(self).wf(),
        ensures
            final(self).wf(),
            final(self)@ == old(self)@.with_policy(scidd@, cu, now),
    {
        self.policies.insert(scidd, (cu, now));
    }

    /// True when the freshly returned update matches the policy we
    /// already hold for this direction: the forwarder's enforcement
    /// diverges from what it signs, and another refresh would
    /// change nothing.
    pub fn is_repeat(&self, scidd: &str, cu: &ChanUpdate, now: u64) -> (r: bool)
        requires
            self.wf(),
        ensures
            r == self@.repeats(scidd@, *cu, now),
            r ==> self@.policies.contains_key(scidd@) && now <= self@.policies[scidd@].1
                + self@.max_age,
    {
        match self.policies.get(scidd) {
            Some(entry) => self.young(entry.1, now) && entry.0.same_policy(cu),
            None => false,
        }
    }

    /// Take the erring forwarder out of consideration for a while.
    pub fn record_disabled_node(&mut self, node: &str, now: u64)
        requires
            old(self).wf(),
        ensures
            final(self).wf(),
            final(self)@ == old(self)@.with_disabled_node(node@, now),
    {
        self.disabled_nodes.insert(node, now);
    }

    /// Take a channel direction out of consideration for a while.
    pub fn record_exclusion(&mut self, scidd: &str, now: u64)
        requires
            old(self).wf(),
        ensures
            final(self).wf(),
            final(self)@ == old(self)@.with_exclusion(scidd@, now),
    {
        self.exclusions.insert(scidd, now);
    }

    /// The current expiry window (dynamic option), for stats.
    pub fn max_age(&self) -> (r: u64)
        ensures
            r == self@.max_age,
    {
        self.max_age
    }

    /// Entry counts (policies, node disables, exclusions) as
    /// stored; expired entries linger until the next snapshot
    /// prunes them.
    pub fn counts(&self) -> (r: (usize, usize, usize))
        requires
            self.wf(),
        ensures
            self@.policies.dom().finite(),
            self@.disabled_nodes.dom().finite(),
            self@.exclusions.dom().finite(),
            r.0 == self@.policies.len(),
            r.1 == self@.disabled_nodes.len(),
            r.2 == self@.exclusions.len(),
    {
        (self.policies.len(), self.disabled_nodes.len(), self.exclusions.len())
    }

    /// Prune expired entries and return the survivors for
    /// application to a request layer.
    pub fn snapshot(&mut self, now: u64) -> (r: Snapshot)
        requires
            old(self).wf(),
        ensures
            final(self).wf(),
            final(self)@ == old(self)@.pruned(now),
            r.holds(final(self)@),
    {
        let max_age: u64 = self.max_age;
        let ghost before = self@;
        let young_policy = |e: &(ChanUpdate, u64)| -> (b: bool)
            ensures
                b == is_young(e.1, now, max_age),
            { now.saturating_sub(e.1) <= max_age };
        self.policies.retain(
            young_policy,
            Ghost(|e: (ChanUpdate, u64)| is_young(e.1, now, max_age)),
        );
        let young_node = |at: &u64| -> (b: bool)
            ensures
                b == is_young(*at, now, max_age),
            { now.saturating_sub(*at) <= max_age };
        self.disabled_nodes.retain(young_node, Ghost(|at: u64| is_young(at, now, max_age)));
        let young_exclusion = |at: &u64| -> (b: bool)
            ensures
                b == is_young(*at, now, max_age),
            { now.saturating_sub(*at) <= max_age };
        self.exclusions.retain(young_exclusion, Ghost(|at: u64| is_young(at, now, max_age)));
        proof {
            assert(self@.policies =~= before.pruned(now).policies);
            assert(self@.disabled_nodes =~= before.pruned(now).disabled_nodes);
            assert(self@.exclusions =~= before.pruned(now).exclusions);
        }
        let mut policies: Vec<(String, ChanUpdate)> = Vec::new();
        let n: usize = self.policies.len();
        proof {
            self.policies.lemma_keys();
        }
        for i in 0..n
            invariant
                self.policies.wf(),
                n == self.policies.keys().len(),
                policy_names(policies@) == self.policies.keys().take(i as int),
                forall|j: int|
                    0 <= j < policies@.len() ==> (#[trigger] policies@[j]).1
                        == self.policies@[policies@[j].0@].0,
        {
            let entry = (self.policies.key(i).to_owned(), self.policies.value(i).0);
            let ghost before = policies@;
            policies.push(entry);
            proof {
                assert(policy_names(policies@) =~= policy_names(before).push(
                    self.policies.keys()[i as int],
                ));
                assert(policy_names(policies@) =~= self.policies.keys().take(i + 1));
            }
        }
        proof {
            assert(self.policies.keys().take(self.policies.keys().len() as int)
                =~= self.policies.keys());
            self.policies.lemma_keys();
        }
        Snapshot {
            policies,
            disabled_nodes: key_list(&self.disabled_nodes),
            exclusions: key_list(&self.exclusions),
        }
    }
}

/// Recording a policy replaces the one that was held for the direction,
/// adds one to the count exactly where none was, and leaves everything
/// else as it is; so do disabling a node and excluding a direction.
pub proof fn law_recording_adds_at_most_one(
    store: Overrides,
    name: Seq<char>,
    cu: ChanUpdate,
    now: u64,
)
    requires
        store.wf(),
    ensures
        ({
            let o = store@;
            let (p, d, e) = (
                o.with_policy(name, cu, now),
                o.with_disabled_node(name, now),
                o.with_exclusion(name, now),
            );
            let more = |held: bool| if held { 0int } else { 1 };
            &&& p.policies.len() == o.policies.len() + more(o.policies.contains_key(name))
            &&& p.policies[name] == (cu, now)
            &&& p.policies.remove(name) == o.policies.remove(name)
            &&& p == (OverridesView { policies: p.policies, ..o })
            &&& d.disabled_nodes.len() == o.disabled_nodes.len() + more(
                o.disabled_nodes.contains_key(name),
            )
            &&& d.disabled_nodes[name] == now
            &&& d.disabled_nodes.remove(name) == o.disabled_nodes.remove(name)
            &&& d == (OverridesView { disabled_nodes: d.disabled_nodes, ..o })
            &&& e.exclusions.len() == o.exclusions.len() + more(o.exclusions.contains_key(name))
            &&& e.exclusions[name] == now
            &&& e.exclusions.remove(name) == o.exclusions.remove(name)
            &&& e == (OverridesView { exclusions: e.exclusions, ..o })
        }),
{
    store.policies.lemma_keys();
    store.disabled_nodes.lemma_keys();
    store.exclusions.lemma_keys();
    let o = store@;
    assert(o.with_policy(name, cu, now).policies.remove(name) =~= o.policies.remove(name));
    assert(o.with_disabled_node(name, now).disabled_nodes.remove(name)
        =~= o.disabled_nodes.remove(name));
    assert(o.with_exclusion(name, now).exclusions.remove(name) =~= o.exclusions.remove(name));
}

/// Everything expires: an entry is in no snapshot taken more than the
/// expiry window after it was recorded, and in every snapshot taken
/// before that.
pub proof fn law_overrides_expire(o: OverridesView, name: Seq<char>, cu: ChanUpdate, at: u64, now: u64)
    ensures
        o.with_policy(name, cu, at).pruned(now).policies.contains_key(name) == is_young(
            at,
            now,
            o.max_age,
        ),
        o.with_disabled_node(name, at).pruned(now).disabled_nodes.contains_key(name) == is_young(
            at,
            now,
            o.max_age,
        ),
        o.with_exclusion(name, at).pruned(now).exclusions.contains_key(name) == is_young(
            at,
            now,
            o.max_age,
        ),
{
}

/// Pruning changes no decision from then on: a second snapshot at the
/// same or a later time, and every repeat check from then on, come out
/// as if it had not happened.
pub proof fn law_pruning_is_invisible(
    o: OverridesView,
    now: u64,
    later: u64,
    scidd: Seq<char>,
    cu: ChanUpdate,
)
    requires
        now <= later,
    ensures
        o.pruned(now).pruned(later) == o.pruned(later),
        o.pruned(now).repeats(scidd, cu, later) == o.repeats(scidd, cu, later),
{
    assert(o.pruned(now).pruned(later).policies =~= o.pruned(later).policies);
    assert(o.pruned(now).pruned(later).disabled_nodes =~= o.pruned(later).disabled_nodes);
    assert(o.pruned(now).pruned(later).exclusions =~= o.pruned(later).exclusions);
}

/// A recorded policy makes the same update a repeat while it is young,
/// whatever inbound fee the update states, and no other update.
pub proof fn law_repeat_is_the_recorded_policy(
    o: OverridesView,
    scidd: Seq<char>,
    stored: ChanUpdate,
    at: u64,
    returned: ChanUpdate,
    now: u64,
)
    ensures
        o.with_policy(scidd, stored, at).repeats(scidd, returned, now) == (is_young(
            at,
            now,
            o.max_age,
        ) && returned == (ChanUpdate { inbound_fee: returned.inbound_fee, ..stored })),
{
}

/// An entry counts for as long as its window lasts, and not a second
/// longer: it is kept, as it was stored, by every snapshot up to `max_age`
/// seconds after it was stored, and dropped by every later one.  One that
/// is stored ahead of the clock counts.
pub proof fn law_entries_last_as_long_as_their_window(o: OverridesView, name: Seq<char>, now: u64)
    ensures
        ({
            let p = o.pruned(now);
            &&& p.max_age == o.max_age
            &&& p.policies.contains_key(name) <==> o.policies.contains_key(name) && now
                <= o.policies[name].1 + o.max_age
            &&& p.policies.contains_key(name) ==> p.policies[name] == o.policies[name]
            &&& p.disabled_nodes.contains_key(name) <==> o.disabled_nodes.contains_key(name) && now
                <= o.disabled_nodes[name] + o.max_age
            &&& p.disabled_nodes.contains_key(name) ==> p.disabled_nodes[name]
                == o.disabled_nodes[name]
            &&& p.exclusions.contains_key(name) <==> o.exclusions.contains_key(name) && now
                <= o.exclusions[name] + o.max_age
            &&& p.exclusions.contains_key(name) ==> p.exclusions[name] == o.exclusions[name]
        }),
{
}

/// A returned update repeats what is held exactly where a policy is held
/// for the direction, its window has not passed, and the two say the same
/// of everything that can be applied to a route.
pub proof fn law_repeats_are_what_is_held(
    o: OverridesView,
    scidd: Seq<char>,
    cu: ChanUpdate,
    now: u64,
)
    ensures
        o.repeats(scidd, cu, now) <==> o.policies.contains_key(scidd) && {
            let (held, at) = o.policies[scidd];
            &&& now <= at + o.max_age
            &&& held.enabled == cu.enabled
            &&& held.cltv_expiry_delta == cu.cltv_expiry_delta
            &&& held.htlc_minimum_msat == cu.htlc_minimum_msat
            &&& held.htlc_maximum_msat == cu.htlc_maximum_msat
            &&& held.fee_base_msat == cu.fee_base_msat
            &&& held.fee_proportional_millionths == cu.fee_proportional_millionths
        },
{
}

/// A snapshot names every entry of the store, and nothing that is not in
/// it: each policy with its direction, each node, each direction.
pub proof fn law_snapshots_hold_the_store(snap: Snapshot, o: OverridesView, i: int, name: Seq<char>)
    requires
        snap.holds(o),
    ensures
        0 <= i < snap.policies@.len() ==> o.policies.contains_key(snap.policies@[i].0@)
            && o.policies[snap.policies@[i].0@].0 == snap.policies@[i].1,
        0 <= i < snap.disabled_nodes@.len() ==> o.disabled_nodes.contains_key(
            snap.disabled_nodes@[i]@,
        ),
        0 <= i < snap.exclusions@.len() ==> o.exclusions.contains_key(snap.exclusions@[i]@),
        o.policies.contains_key(name) ==> exists|k: int|
            0 <= k < snap.policies@.len() && (#[trigger] snap.policies@[k]).0@ == name
                && snap.policies@[k].1 == o.policies[name].0,
        o.disabled_nodes.contains_key(name) ==> exists|k: int|
            0 <= k < snap.disabled_nodes@.len() && (#[trigger] snap.disabled_nodes@[k])@ == name,
        o.exclusions.contains_key(name) ==> exists|k: int|
            0 <= k < snap.exclusions@.len() && (#[trigger] snap.exclusions@[k])@ == name,
{
    let p = policy_names(snap.policies@);
    let d = names(snap.disabled_nodes@);
    let e = names(snap.exclusions@);
    if 0 <= i < p.len() {
        assert(p.contains(p[i]));
    }
    if 0 <= i < d.len() {
        assert(d.contains(d[i]));
    }
    if 0 <= i < e.len() {
        assert(e.contains(e[i]));
    }
    if o.policies.contains_key(name) {
        assert(p.contains(name));
        let k = choose|k: int| 0 <= k < p.len() && p[k] == name;
        assert(snap.policies@[k].0@ == name);
    }
    if o.disabled_nodes.contains_key(name) {
        assert(d.contains(name));
        let k = choose|k: int| 0 <= k < d.len() && d[k] == name;
        assert(snap.disabled_nodes@[k]@ == name);
    }
    if o.exclusions.contains_key(name) {
        assert(e.contains(name));
        let k = choose|k: int| 0 <= k < e.len() && e[k] == name;
        assert(snap.exclusions@[k]@ == name);
    }
}

/// A snapshot names nothing twice.
pub proof fn law_snapshots_name_nothing_twice(snap: Snapshot, o: OverridesView, i: int, j: int)
    requires
        snap.holds(o),
        0 <= i < j,
    ensures
        j < snap.policies@.len() ==> snap.policies@[i].0@ != snap.policies@[j].0@,
        j < snap.disabled_nodes@.len() ==> snap.disabled_nodes@[i]@ != snap.disabled_nodes@[j]@,
        j < snap.exclusions@.len() ==> snap.exclusions@[i]@ != snap.exclusions@[j]@,
{
    if j < snap.policies@.len() {
        let p = policy_names(snap.policies@);
        assert(p[i] != p[j]);
    }
    if j < snap.disabled_nodes@.len() {
        let d = names(snap.disabled_nodes@);
        assert(d[i] != d[j]);
    }
    if j < snap.exclusions@.len() {
        let e = names(snap.exclusions@);
        assert(e[i] != e[j]);
    }
}

} // verus!
