//! The layers a request writes: the node split, the masks around it,
//! and the learned overrides.

use crate::chan_spec;
use crate::chan_spec::ChanSpec;
use crate::channels;
use crate::channels::{dir, scidd_of, Chan, ChanView};
use crate::json::Json;
use crate::onion_error::ChanUpdate;
use crate::overrides;
use crate::overrides::{OverridesView, Snapshot};
use crate::table::Table;
use crate::text;
use crate::text::{push_dec, push_hex, same_text};
use vstd::prelude::*;
use vstd::string::*;

verus! {

/// The stand-in destination node id.  Not a valid curve point; must
/// merely be distinct from every real node id (byte 1 == 0x00 makes
/// a gossip collision effectively impossible).
pub const FAKE_US_IN: &'static str = "0200000000000000000000000000000000000000000000000000000000000000ff";

/// Mirror scids are allocated in this block: far above the real
/// chain tip for decades, so they cannot collide with gossip.
pub const MIRROR_BLOCK: u64 = 16_000_000;

/// The persistent layer holding learned constraints across requests.
pub const PERSISTENT_LAYER: &'static str = "xrebalance";

/// One write into a layer.
#[derive(Debug)]
pub enum LayerOp<'a> {
    /// askrene-create-channel.
    CreateChannel { source: String, destination: String, scid: String, capacity_msat: u64 },
    /// askrene-update-channel: enabled, with a peer's own policy but for
    /// the minimum.  A member that the peer's update lacks is passed on
    /// as absent.
    CopyPolicy {
        scidd: String,
        htlc_minimum_msat: u64,
        htlc_maximum_msat: Option<&'a Json>,
        fee_base_msat: Option<&'a Json>,
        fee_proportional_millionths: Option<&'a Json>,
        cltv_expiry_delta: Option<&'a Json>,
    },
    /// askrene-update-channel: with a learned policy.
    SetPolicy { scidd: String, policy: ChanUpdate },
    /// askrene-update-channel: disabled.
    Disable { scidd: String },
    /// askrene-disable-node.
    DisableNode { node: String },
    /// askrene-inform-channel: "constrained" or "unconstrained".
    Inform { scidd: String, amount_msat: u64, constrained: bool },
}

/// A write with its texts as characters.
pub enum LayerOpView {
    CreateChannel {
        source: Seq<char>,
        destination: Seq<char>,
        scid: Seq<char>,
        capacity_msat: u64,
    },
    CopyPolicy {
        scidd: Seq<char>,
        htlc_minimum_msat: u64,
        htlc_maximum_msat: Option<Json>,
        fee_base_msat: Option<Json>,
        fee_proportional_millionths: Option<Json>,
        cltv_expiry_delta: Option<Json>,
    },
    SetPolicy { scidd: Seq<char>, policy: ChanUpdate },
    Disable { scidd: Seq<char> },
    DisableNode { node: Seq<char> },
    Inform { scidd: Seq<char>, amount_msat: u64, constrained: bool },
}

/// An optional reference as a value.
pub open spec fn unref(v: Option<&Json>) -> Option<Json> {
    match v {
        Some(v) => Some(*v),
        None => None,
    }
}

impl<'a> View for LayerOp<'a> {
    type V = LayerOpView;

    open spec fn view(&self) -> LayerOpView {
        match *self {
            LayerOp::CreateChannel {
                source,
                destination,
                scid,
                capacity_msat,
            } => LayerOpView::CreateChannel {
                source: source@,
                destination: destination@,
                scid: scid@,
                capacity_msat,
            },
            LayerOp::CopyPolicy {
                scidd,
                htlc_minimum_msat,
                htlc_maximum_msat,
                fee_base_msat,
                fee_proportional_millionths,
                cltv_expiry_delta,
            } => LayerOpView::CopyPolicy {
                scidd: scidd@,
                htlc_minimum_msat,
                htlc_maximum_msat: unref(htlc_maximum_msat),
                fee_base_msat: unref(fee_base_msat),
                fee_proportional_millionths: unref(fee_proportional_millionths),
                cltv_expiry_delta: unref(cltv_expiry_delta),
            },
            LayerOp::SetPolicy { scidd, policy } => LayerOpView::SetPolicy {
                scidd: scidd@,
                policy,
            },
            LayerOp::Disable { scidd } => LayerOpView::Disable { scidd: scidd@ },
            LayerOp::DisableNode { node } => LayerOpView::DisableNode { node: node@ },
            LayerOp::Inform { scidd, amount_msat, constrained } => LayerOpView::Inform {
                scidd: scidd@,
                amount_msat,
                constrained,
            },
        }
    }
}

/// A run of writes with their texts as characters.
pub open spec fn op_views<'a>(ops: Seq<LayerOp<'a>>) -> Seq<LayerOpView> {
    ops.map_values(|o: LayerOp<'a>| o@)
}

// ---------------------------------------------------------------------
// Layer names
// ---------------------------------------------------------------------

/// The name of a request's split layer.
pub open spec fn split_name(now_secs: u64, pid: u32, seq: u64) -> Seq<char> {
    "xrebalance-req-"@ + text::hex_numeral(now_secs as nat) + "-"@ + text::dec(pid as nat) + "-"@
        + text::dec(seq as nat)
}

/// The name of a request's split layer.  It must be unique per
/// request: concurrent requests sharing a scratch layer would
/// read each other's masks and race the removal.  The sequence
/// number disambiguates within one second, the pid across plugin
/// restarts, the timestamp across pid reuse.
pub fn split_layer_name(now_secs: u64, pid: u32, seq: u64) -> (r: String)
    ensures
        r@ == split_name(now_secs, pid, seq),
{
    let mut out = "xrebalance-req-".to_owned();
    push_hex(&mut out, now_secs);
    out.append("-");
    push_dec(&mut out, pid as u64);
    out.append("-");
    push_dec(&mut out, seq);
    out
}

/// Requests that differ in the second, the process or the sequence
/// number have different layers, and none has the persistent one.
pub proof fn law_split_names_differ(
    now_a: u64,
    pid_a: u32,
    seq_a: u64,
    now_b: u64,
    pid_b: u32,
    seq_b: u64,
)
    ensures
        split_name(now_a, pid_a, seq_a) == split_name(now_b, pid_b, seq_b) ==> now_a == now_b
            && pid_a == pid_b && seq_a == seq_b,
        split_name(now_a, pid_a, seq_a) != PERSISTENT_LAYER@,
{
    reveal_strlit("-");
    reveal_strlit("xrebalance-req-");
    reveal_strlit("xrebalance");
    let prefix = "xrebalance-req-"@;
    let (ha, hb) = (text::hex_numeral(now_a as nat), text::hex_numeral(now_b as nat));
    let (pa, pb) = (text::dec(pid_a as nat), text::dec(pid_b as nat));
    let (sa, sb) = (text::dec(seq_a as nat), text::dec(seq_b as nat));
    let (a, b) = (split_name(now_a, pid_a, seq_a), split_name(now_b, pid_b, seq_b));
    let dash = seq!['-'];
    assert("-"@ =~= dash);
    if a == b {
        let tail_a = pa + dash + sa;
        let tail_b = pb + dash + sb;
        assert(a.skip(prefix.len() as int) =~= ha + dash + tail_a);
        assert(b.skip(prefix.len() as int) =~= hb + dash + tail_b);
        text::lemma_hex_numeral(now_a as nat);
        text::lemma_hex_numeral(now_b as nat);
        text::lemma_split_unique(ha, tail_a, hb, tail_b, '-');
        text::law_numeral_round_trip(pid_a as nat);
        text::law_numeral_round_trip(pid_b as nat);
        text::law_numeral_round_trip(seq_a as nat);
        text::law_numeral_round_trip(seq_b as nat);
        assert forall|i: int| 0 <= i < pa.len() implies #[trigger] pa[i] != '-' by {
            assert(text::is_digit(pa[i]));
        }
        assert forall|i: int| 0 <= i < pb.len() implies #[trigger] pb[i] != '-' by {
            assert(text::is_digit(pb[i]));
        }
        text::lemma_split_unique(pa, sa, pb, sb, '-');
        if now_a != now_b {
            text::law_hex_numerals_differ(now_a as nat, now_b as nat);
        }
    }
    assert(a.len() > prefix.len());
}

/// Whether a listed layer carries the persistent layer's name.
pub open spec fn is_persistent(layer: Json) -> bool {
    layer.at("layer"@).text() == Some(PERSISTENT_LAYER@)
}

/// Whether the persistent layer exists.  `listed` is the reply of
/// askrene-listlayers.
pub fn persistent_layer_exists(listed: &Json) -> (r: bool)
    ensures
        r == exists|i: int|
            0 <= i < listed.at("layers"@).elements().len() && #[trigger] is_persistent(
                listed.at("layers"@).elements()[i],
            ),
{
    if let Some(layers) = listed.items_at("layers") {
        for i in 0..layers.len()
            invariant
                listed.at("layers"@).elements() == layers@,
                forall|j: int| 0 <= j < i ==> !#[trigger] is_persistent(layers@[j]),
        {
            if let Some(name) = layers[i].text_at("layer") {
                if same_text(name, PERSISTENT_LAYER) {
                    proof {
                        assert(is_persistent(layers@[i as int]));
                    }
                    return true;
                }
            }
        }
    }
    false
}

/// The timestamp before which learned constraints are dropped.
pub fn age_cutoff(now_secs: u64, constraint_age: u64) -> (r: u64)
    ensures
        r == if now_secs >= constraint_age {
            now_secs - constraint_age
        } else {
            0
        },
        r <= now_secs <= r + constraint_age,
        r > 0 ==> r + constraint_age == now_secs,
{
    now_secs.saturating_sub(constraint_age)
}

// ---------------------------------------------------------------------
// Overrides
// ---------------------------------------------------------------------

/// The writes that apply a snapshot: policy refreshes as channel
/// updates, failed forwarders as node disables, exclusions as 1msat
/// constraints.
pub open spec fn override_list(snap: Snapshot) -> Seq<LayerOpView> {
    snap.policies@.map_values(
        |p: (String, ChanUpdate)| LayerOpView::SetPolicy { scidd: p.0@, policy: p.1 },
    ) + snap.disabled_nodes@.map_values(|n: String| LayerOpView::DisableNode { node: n@ })
        + snap.exclusions@.map_values(
        |s: String| LayerOpView::Inform { scidd: s@, amount_msat: 1, constrained: true },
    )
}

/// The writes that apply the still-young learned overrides
/// (overrides.rs) to a request layer.  Each is best-effort -- a channel
/// gone from gossip since we learned about it must not fail the plan,
/// it just stops benefiting from the override.
pub fn override_ops(snap: &Snapshot) -> (r: Vec<LayerOp<'static>>)
    ensures
        op_views(r@) == override_list(*snap),
{
    let mut out: Vec<LayerOp<'static>> = Vec::new();
    let ghost all = override_list(*snap);
    for i in 0..snap.policies.len()
        invariant
            all == override_list(*snap),
            op_views(out@) == all.take(i as int),
    {
        let ghost before = out@;
        let op = LayerOp::SetPolicy {
            scidd: snap.policies[i].0.clone(),
            policy: snap.policies[i].1,
        };
        out.push(op);
        proof {
            assert(op_views(out@) =~= op_views(before).push(op@));
            assert(op@ == all[i as int]);
            assert(all.take(i + 1) =~= all.take(i as int).push(all[i as int]));
        }
    }
    for i in 0..snap.disabled_nodes.len()
        invariant
            all == override_list(*snap),
            op_views(out@) == all.take(snap.policies@.len() + i),
    {
        let ghost before = out@;
        let op = LayerOp::DisableNode { node: snap.disabled_nodes[i].clone() };
        out.push(op);
        proof {
            let k = snap.policies@.len() + i;
            assert(op_views(out@) =~= op_views(before).push(op@));
            assert(op@ == all[k]);
            assert(all.take(k + 1) =~= all.take(k).push(all[k]));
        }
    }
    for i in 0..snap.exclusions.len()
        invariant
            all == override_list(*snap),
            op_views(out@) == all.take(snap.policies@.len() + snap.disabled_nodes@.len() + i),
    {
        let ghost before = out@;
        let op = LayerOp::Inform {
            scidd: snap.exclusions[i].clone(),
            amount_msat: 1,
            constrained: true,
        };
        out.push(op);
        proof {
            let k = snap.policies@.len() + snap.disabled_nodes@.len() + i;
            assert(op_views(out@) =~= op_views(before).push(op@));
            assert(op@ == all[k as int]);
            assert(all.take(k + 1) =~= all.take(k as int).push(all[k as int]));
        }
    }
    proof {
        assert(all.take(all.len() as int) =~= all);
    }
    out
}

/// Every override that has not expired reaches the request's layer.
pub proof fn law_young_overrides_reach_the_layer(
    snap: Snapshot,
    store: OverridesView,
    name: Seq<char>,
)
    requires
        snap.holds(store),
    ensures
        store.policies.contains_key(name) ==> override_list(snap).contains(
            LayerOpView::SetPolicy { scidd: name, policy: store.policies[name].0 },
        ),
        store.disabled_nodes.contains_key(name) ==> override_list(snap).contains(
            LayerOpView::DisableNode { node: name },
        ),
        store.exclusions.contains_key(name) ==> override_list(snap).contains(
            LayerOpView::Inform { scidd: name, amount_msat: 1, constrained: true },
        ),
{
    let all = override_list(snap);
    let (p, d) = (snap.policies@.len() as int, snap.disabled_nodes@.len() as int);
    if store.policies.contains_key(name) {
        let names = overrides::policy_names(snap.policies@);
        assert(names.contains(name));
        let i = choose|i: int| 0 <= i < names.len() && names[i] == name;
        assert(snap.policies@[i].0@ == name);
        assert(all[i] == (LayerOpView::SetPolicy { scidd: name, policy: store.policies[name].0 }));
    }
    if store.disabled_nodes.contains_key(name) {
        let names = overrides::names(snap.disabled_nodes@);
        assert(names.contains(name));
        let i = choose|i: int| 0 <= i < names.len() && names[i] == name;
        assert(snap.disabled_nodes@[i]@ == name);
        assert(all[p + i] == (LayerOpView::DisableNode { node: name }));
    }
    if store.exclusions.contains_key(name) {
        let names = overrides::names(snap.exclusions@);
        assert(names.contains(name));
        let i = choose|i: int| 0 <= i < names.len() && names[i] == name;
        assert(snap.exclusions@[i]@ == name);
        assert(all[p + d + i] == (LayerOpView::Inform {
            scidd: name,
            amount_msat: 1,
            constrained: true,
        }));
    }
}

// ---------------------------------------------------------------------
// The split
// ---------------------------------------------------------------------

/// The scid of the mirror of destination `n`.
pub open spec fn mirror_scid(n: int) -> Seq<char> {
    text::dec(MIRROR_BLOCK as nat) + "x"@ + text::dec((n + 1) as nat) + "x0"@
}

/// The direction of a mirror that leads to the stand-in node.
pub open spec fn mirror_scidd(n: int, peer_id: Seq<char>) -> Seq<char> {
    channels::scidd(mirror_scid(n), channels::direction(peer_id, FAKE_US_IN@))
}

/// The direction of one of our channels that leads to `to`.
pub open spec fn real_scidd(scid: Seq<char>, from: Seq<char>, to: Seq<char>) -> Seq<char> {
    channels::scidd(scid, channels::direction(from, to))
}

/// What is known to fit through a mirror.
pub open spec fn known_msat(receivable_msat: u64, update: Json) -> u64 {
    match update.at("htlc_maximum_msat"@).uint() {
        Some(n) => chan_spec::min_msat(receivable_msat, n),
        None => receivable_msat,
    }
}

/// One more, or the same where there is no more.
pub open spec fn just_above(n: u64) -> u64 {
    if n < u64::MAX {
        (n + 1) as u64
    } else {
        n
    }
}

/// The larger of a policy's minimum and the fragment floor.
pub open spec fn mirror_minimum(update: Json, min_part_msat: u64) -> u64 {
    let own = channels::uint_or_zero(update.at("htlc_minimum_msat"@));
    if own >= min_part_msat {
        own
    } else {
        min_part_msat
    }
}

/// The writes that mirror destination `n`.
pub open spec fn mirror_one(
    n: int,
    spec_msat: Option<u64>,
    chan: ChanView,
    min_part_msat: u64,
) -> Seq<LayerOpView> {
    let update = chan.remote_update->0;
    let receivable = chan_spec::min_msat(chan.receivable_msat, chan_spec::cap_of(spec_msat));
    let known = known_msat(receivable, update);
    let scidd = mirror_scidd(n, chan.peer_id);
    seq![
        LayerOpView::CreateChannel {
            source: chan.peer_id,
            destination: FAKE_US_IN@,
            scid: mirror_scid(n),
            capacity_msat: receivable,
        },
        LayerOpView::CopyPolicy {
            scidd,
            htlc_minimum_msat: mirror_minimum(update, min_part_msat),
            htlc_maximum_msat: update.field("htlc_maximum_msat"@),
            fee_base_msat: update.field("fee_base_msat"@),
            fee_proportional_millionths: update.field("fee_proportional_millionths"@),
            cltv_expiry_delta: update.field("cltv_expiry_delta"@),
        },
    ] + (if known > 0 {
        seq![LayerOpView::Inform { scidd, amount_msat: known, constrained: false }]
    } else {
        seq![]
    }) + seq![
        LayerOpView::Inform { scidd, amount_msat: just_above(known), constrained: true },
    ]
}

/// The policy a snapshot holds for a channel direction.
pub open spec fn held_policy(policies: Seq<(String, ChanUpdate)>, scidd: Seq<char>) -> Option<
    ChanUpdate,
>
    decreases policies.len(),
{
    if policies.len() == 0 {
        None
    } else if policies[0].0@ == scidd {
        Some(policies[0].1)
    } else {
        held_policy(policies.skip(1), scidd)
    }
}

/// A learned policy as a mirror gets it: the minimum is no lower than the
/// fragment floor.
pub open spec fn mirrored_policy(cu: ChanUpdate, min_part_msat: u64) -> ChanUpdate {
    ChanUpdate {
        htlc_minimum_msat: if cu.htlc_minimum_msat >= min_part_msat {
            cu.htlc_minimum_msat
        } else {
            min_part_msat
        },
        ..cu
    }
}

/// The writes that carry what was learned of the return direction `home`
/// over to its mirror: the real direction is masked, so that nothing
/// written there has any effect.
pub open spec fn mirror_overrides(
    mirror: Seq<char>,
    home: Seq<char>,
    snap: Snapshot,
    min_part_msat: u64,
) -> Seq<LayerOpView> {
    (match held_policy(snap.policies@, home) {
        Some(cu) => seq![
            LayerOpView::SetPolicy { scidd: mirror, policy: mirrored_policy(cu, min_part_msat) },
        ],
        None => seq![],
    }) + (if overrides::names(snap.exclusions@).contains(home) {
        seq![LayerOpView::Inform { scidd: mirror, amount_msat: 1, constrained: true }]
    } else {
        seq![]
    })
}

/// Every destination is one of ours, with its peer's policy known.
pub open spec fn mirrorable(destinations: Seq<ChanSpec>, chans: Map<Seq<char>, ChanView>) -> bool {
    forall|i: int|
        0 <= i < destinations.len() ==> chans.contains_key(
            (#[trigger] destinations[i]).scid@,
        ) && chans[destinations[i].scid@].remote_update is Some
}

/// The writes that mirror the first `n` destinations.
pub open spec fn mirror_list(
    self_id: Seq<char>,
    destinations: Seq<ChanSpec>,
    chans: Map<Seq<char>, ChanView>,
    snap: Snapshot,
    min_part_msat: u64,
    n: int,
) -> Seq<LayerOpView>
    decreases n,
{
    if n <= 0 {
        seq![]
    } else {
        let d = destinations[n - 1];
        let chan = chans[d.scid@];
        mirror_list(self_id, destinations, chans, snap, min_part_msat, n - 1) + mirror_one(
            n - 1,
            d.max_msat,
            chan,
            min_part_msat,
        ) + mirror_overrides(
            mirror_scidd(n - 1, chan.peer_id),
            real_scidd(d.scid@, chan.peer_id, self_id),
            snap,
            min_part_msat,
        )
    }
}

/// From each mirror direction of the first `n` destinations to the real
/// direction it stands for.
pub open spec fn unsplit_map(
    self_id: Seq<char>,
    destinations: Seq<ChanSpec>,
    chans: Map<Seq<char>, ChanView>,
    n: int,
) -> Map<Seq<char>, Seq<char>>
    decreases n,
{
    if n <= 0 {
        Map::empty()
    } else {
        let scid = destinations[n - 1].scid@;
        let peer_id = chans[scid].peer_id;
        unsplit_map(self_id, destinations, chans, n - 1).insert(
            mirror_scidd(n - 1, peer_id),
            real_scidd(scid, peer_id, self_id),
        )
    }
}

/// From each real return direction of the first `n` destinations to the
/// scid to name in the onion instead, for those that have one.
pub open spec fn onion_map(
    self_id: Seq<char>,
    destinations: Seq<ChanSpec>,
    chans: Map<Seq<char>, ChanView>,
    n: int,
) -> Map<Seq<char>, Seq<char>>
    decreases n,
{
    if n <= 0 {
        Map::empty()
    } else {
        let scid = destinations[n - 1].scid@;
        let before = onion_map(self_id, destinations, chans, n - 1);
        match chans[scid].onion_scid {
            Some(alias) => before.insert(
                real_scidd(scid, chans[scid].peer_id, self_id),
                alias,
            ),
            None => before,
        }
    }
}

/// The cap of the source that names `scid`: none where no source does.
/// Of several the last counts.
pub open spec fn source_cap(sources: Seq<ChanSpec>, scid: Seq<char>) -> Option<Option<u64>>
    decreases sources.len(),
{
    if sources.len() == 0 {
        None
    } else if sources.last().scid@ == scid {
        Some(sources.last().max_msat)
    } else {
        source_cap(sources.drop_last(), scid)
    }
}

/// The writes that mask one of our channels: no flow may enter the real
/// us, and the drain side is pinned to the named sources, each within
/// its cap.
pub open spec fn mask_one(
    self_id: Seq<char>,
    sources: Seq<ChanSpec>,
    scid: Seq<char>,
    chan: ChanView,
) -> Seq<LayerOpView> {
    let out = real_scidd(scid, self_id, chan.peer_id);
    seq![LayerOpView::Disable { scidd: real_scidd(scid, chan.peer_id, self_id) }] + match source_cap(
        sources,
        scid,
    ) {
        None => seq![LayerOpView::Disable { scidd: out }],
        Some(Some(cap)) => if cap < chan.spendable_msat {
            seq![LayerOpView::Inform { scidd: out, amount_msat: just_above(cap), constrained: true }]
        } else {
            seq![]
        },
        Some(None) => seq![],
    }
}

/// The writes that mask the first `n` of the channels `keys`.
pub open spec fn mask_list(
    self_id: Seq<char>,
    sources: Seq<ChanSpec>,
    keys: Seq<Seq<char>>,
    chans: Map<Seq<char>, ChanView>,
    n: int,
) -> Seq<LayerOpView>
    decreases n,
{
    if n <= 0 {
        seq![]
    } else {
        mask_list(self_id, sources, keys, chans, n - 1) + mask_one(
            self_id,
            sources,
            keys[n - 1],
            chans[keys[n - 1]],
        )
    }
}

/// What a table of texts holds.
pub open spec fn text_map(t: Map<Seq<char>, String>) -> Map<Seq<char>, Seq<char>> {
    t.map_values(|s: String| s@)
}

/// A request's split layer: the writes that make it, and how to read
/// routes through it.
pub struct Split<'a> {
    pub ops: Vec<LayerOp<'a>>,
    /// mirror scidd -> real scidd.
    pub unsplit: Table<String>,
    /// real scidd -> the scid to name in the onion instead.  An
    /// unannounced channel's peer rejects forwarding by real scid
    /// (option_scid_alias privacy); the alias it assigned us --
    /// listpeerchannels alias.remote, the same value route hints
    /// carry -- must go in the onion.  Responses and notifications
    /// keep the real scid; only the onion sees the alias.
    pub onion_scids: Table<String>,
}

fn mirror_scid_of(n: usize) -> (r: String)
    requires
        n < usize::MAX,
    ensures
        r@ == mirror_scid(n as int),
{
    let mut out = String::new();
    push_dec(&mut out, MIRROR_BLOCK);
    out.append("x");
    push_dec(&mut out, n as u64 + 1);
    out.append("x0");
    proof {
        assert(out@ =~= mirror_scid(n as int));
    }
    out
}

fn push_mirror<'a>(
    ops: &mut Vec<LayerOp<'a>>,
    n: usize,
    dspec: &ChanSpec,
    peer_id: &str,
    receivable: u64,
    update: &'a Json,
    min_part_msat: u64,
    Ghost(chan): Ghost<ChanView>,
) -> (r: String)
    requires
        n < usize::MAX,
        chan.peer_id == peer_id@,
        chan.receivable_msat == receivable,
        chan.remote_update == Some(*update),
    ensures
        r@ == mirror_scidd(n as int, peer_id@),
        op_views(final(ops)@) == op_views(old(ops)@) + mirror_one(
            n as int,
            dspec.max_msat,
            chan,
            min_part_msat,
        ),
{
    // Local truth bounded by the caller's cap: what the channel
    // can still receive AND this request may deliver into it.
    let receivable_msat: u64 = dspec.capped(receivable);
    let scid = mirror_scid_of(n);
    let scidd = scidd_of(scid.as_str(), dir(peer_id, FAKE_US_IN));
    ops.push(
        LayerOp::CreateChannel {
            source: peer_id.to_owned(),
            destination: FAKE_US_IN.to_owned(),
            scid,
            capacity_msat: receivable_msat,
        },
    );
    // The fragment floor (xrebalance-min-part-msat) rides the
    // mirror's htlc_minimum_msat: every route crosses a mirror,
    // and the amount crossing it is the part's delivered
    // amount, so the solver itself refuses to plan a part
    // delivering less -- its refine stage drops sub-minimum
    // flows and re-solves the remainder over other corridors,
    // no post-pruning needed.
    let own: u64 = match update.uint_at("htlc_minimum_msat") {
        Some(m) => m,
        None => 0,
    };
    let htlc_minimum_msat: u64 = if own >= min_part_msat {
        own
    } else {
        min_part_msat
    };
    ops.push(
        LayerOp::CopyPolicy {
            scidd: scidd.clone(),
            htlc_minimum_msat,
            htlc_maximum_msat: update.get("htlc_maximum_msat"),
            fee_base_msat: update.get("fee_base_msat"),
            fee_proportional_millionths: update.get("fee_proportional_millionths"),
            cltv_expiry_delta: update.get("cltv_expiry_delta"),
        },
    );
    // auto.localchans asserts local liquidity as an exact
    // constraint (min = max) on the real direction it covers;
    // carry that onto the mirror, since otherwise the solver
    // applies its uniform prior to the mirror's capacity.  Same
    // cap as localchans (bounded by the peer's htlc maximum).
    let known: u64 = match update.uint_at("htlc_maximum_msat") {
        Some(m) if m < receivable_msat => m,
        _ => receivable_msat,
    };
    if known > 0 {
        ops.push(
            LayerOp::Inform { scidd: scidd.clone(), amount_msat: known, constrained: false },
        );
    }
    ops.push(
        LayerOp::Inform {
            scidd: scidd.clone(),
            amount_msat: known.saturating_add(1),
            constrained: true,
        },
    );
    proof {
        assert(op_views(final(ops)@) =~= op_views(old(ops)@) + mirror_one(
            n as int,
            dspec.max_msat,
            chan,
            min_part_msat,
        ));
    }
    scidd
}

fn find_policy(policies: &Vec<(String, ChanUpdate)>, scidd: &str) -> (r: Option<ChanUpdate>)
    ensures
        r == held_policy(policies@, scidd@),
{
    let mut i: usize = 0;
    proof {
        assert(policies@.skip(0) =~= policies@);
    }
    while i < policies.len()
        invariant
            i <= policies@.len(),
            held_policy(policies@, scidd@) == held_policy(policies@.skip(i as int), scidd@),
        decreases policies@.len() - i,
    {
        if same_text(policies[i].0.as_str(), scidd) {
            return Some(policies[i].1);
        }
        proof {
            assert(policies@.skip(i as int).skip(1) =~= policies@.skip(i + 1));
        }
        i = i + 1;
    }
    None
}

fn is_listed(list: &Vec<String>, name: &str) -> (r: bool)
    ensures
        r == overrides::names(list@).contains(name@),
{
    for i in 0..list.len()
        invariant
            forall|j: int| 0 <= j < i ==> (#[trigger] list@[j])@ != name@,
    {
        if same_text(list[i].as_str(), name) {
            proof {
                assert(overrides::names(list@)[i as int] == name@);
            }
            return true;
        }
    }
    proof {
        assert forall|j: int| 0 <= j < list@.len() implies overrides::names(list@)[j] != name@ by {
            assert(list@[j]@ != name@);
        }
    }
    false
}

fn push_mirror_overrides<'a>(
    ops: &mut Vec<LayerOp<'a>>,
    mirror: &str,
    home: &str,
    snap: &Snapshot,
    min_part_msat: u64,
)
    ensures
        op_views(final(ops)@) == op_views(old(ops)@) + mirror_overrides(
            mirror@,
            home@,
            *snap,
            min_part_msat,
        ),
{
    if let Some(cu) = find_policy(&snap.policies, home) {
        let mut policy = cu;
        if policy.htlc_minimum_msat < min_part_msat {
            policy.htlc_minimum_msat = min_part_msat;
        }
        ops.push(LayerOp::SetPolicy { scidd: mirror.to_owned(), policy });
    }
    if is_listed(&snap.exclusions, home) {
        ops.push(
            LayerOp::Inform { scidd: mirror.to_owned(), amount_msat: 1, constrained: true },
        );
    }
    proof {
        assert(op_views(final(ops)@) =~= op_views(old(ops)@) + mirror_overrides(
            mirror@,
            home@,
            *snap,
            min_part_msat,
        ));
    }
}

fn find_source(sources: &[ChanSpec], scid: &str) -> (r: Option<Option<u64>>)
    ensures
        r == source_cap(sources@, scid@),
{
    let mut i: usize = sources.len();
    proof {
        assert(sources@.take(sources@.len() as int) =~= sources@);
    }
    while i > 0
        invariant
            i <= sources@.len(),
            source_cap(sources@, scid@) == source_cap(sources@.take(i as int), scid@),
        decreases i,
    {
        proof {
            assert(sources@.take(i as int).drop_last() =~= sources@.take(i - 1));
            assert(sources@.take(i as int).last() == sources@[i - 1]);
        }
        if same_text(sources[i - 1].scid.as_str(), scid) {
            return Some(sources[i - 1].max_msat);
        }
        i = i - 1;
    }
    None
}

fn push_mask<'a>(
    ops: &mut Vec<LayerOp<'a>>,
    self_id: &str,
    sources: &[ChanSpec],
    scid: &str,
    chan: &Chan,
)
    ensures
        op_views(final(ops)@) == op_views(old(ops)@) + mask_one(
            self_id@,
            sources@,
            scid@,
            chan@,
        ),
{
    let peer_id = chan.peer_id.as_str();
    ops.push(LayerOp::Disable { scidd: scidd_of(scid, dir(peer_id, self_id)) });
    let out_scidd = scidd_of(scid, dir(self_id, peer_id));
    match find_source(sources, scid) {
        None => {
            ops.push(LayerOp::Disable { scidd: out_scidd });
        },
        // A binding source cap is one extra max constraint on
        // the real drain direction.  Layers intersect
        // constraints, and the solver resolves the resulting
        // min > max contradiction with auto.localchans' exact
        // spendable assertion by trusting the max, so the effective
        // liquidity becomes min(cap, spendable) -- reality binds when
        // it is the smaller.  A cap of 0 excludes the source outright.
        // The solver quantizes flow into ~amount/1000 units and
        // may sit one unit past a knowledge bound, so a cap is
        // honored to routing granularity, not to the msat.
        Some(Some(cap)) => if cap < chan.spendable_msat {
            ops.push(
                LayerOp::Inform { scidd: out_scidd, amount_msat: cap + 1, constrained: true },
            );
        },
        Some(None) => {},
    }
    proof {
        assert(op_views(final(ops)@) =~= op_views(old(ops)@) + mask_one(
            self_id@,
            sources@,
            scid@,
            chan@,
        ));
    }
}

/// Build the split: mirror each destination's (peer -> us) direction
/// into the stand-in node, with what was learned of it, remembering
/// which mirror stands for which channel, and mask the real us.
pub fn split_layer<'a>(
    self_id: &str,
    chans: &Table<Chan<'a>>,
    sources: &[ChanSpec],
    destinations: &[ChanSpec],
    snap: &Snapshot,
    min_part_msat: u64,
) -> (r: Split<'a>)
    requires
        chans.wf(),
        mirrorable(destinations@, channels::chan_map(chans@)),
    ensures
        r.unsplit.wf(),
        r.onion_scids.wf(),
        op_views(r.ops@) == mirror_list(
            self_id@,
            destinations@,
            channels::chan_map(chans@),
            *snap,
            min_part_msat,
            destinations@.len() as int,
        ) + mask_list(
            self_id@,
            sources@,
            chans.keys(),
            channels::chan_map(chans@),
            chans.keys().len() as int,
        ),
        text_map(r.unsplit@) == unsplit_map(
            self_id@,
            destinations@,
            channels::chan_map(chans@),
            destinations@.len() as int,
        ),
        text_map(r.onion_scids@) == onion_map(
            self_id@,
            destinations@,
            channels::chan_map(chans@),
            destinations@.len() as int,
        ),
        forall|i: int|
            0 <= i < destinations@.len() ==> ({
                let chan = chans@[(#[trigger] destinations@[i]).scid@]@;
                has_policy_of(
                    op_views(r.ops@),
                    mirror_scidd(i, chan.peer_id),
                    chan.remote_update->0,
                    min_part_msat,
                )
            }),
        forall|scid: Seq<char>| #[trigger]
            chans@.contains_key(scid) ==> {
                let peer_id = chans@[scid].peer_id@;
                let closes = |from: Seq<char>, to: Seq<char>|
                    op_views(r.ops@).contains(
                        LayerOpView::Disable { scidd: real_scidd(scid, from, to) },
                    );
                &&& closes(peer_id, self_id@)
                &&& (forall|s: int|
                    0 <= s < sources@.len() ==> (#[trigger] sources@[s]).scid@ != scid) ==> closes(
                    self_id@,
                    peer_id,
                )
            },
{
    let ghost cm = channels::chan_map(chans@);
    let mut ops: Vec<LayerOp<'a>> = Vec::new();
    let mut unsplit: Table<String> = Table::new();
    let mut onion_scids: Table<String> = Table::new();
    proof {
        assert(op_views(ops@) =~= seq![]);
        assert(text_map(unsplit@) =~= Map::empty());
        assert(text_map(onion_scids@) =~= Map::empty());
    }
    for n in 0..destinations.len()
        invariant
            chans.wf(),
            cm == channels::chan_map(chans@),
            mirrorable(destinations@, cm),
            unsplit.wf(),
            onion_scids.wf(),
            op_views(ops@) == mirror_list(
                self_id@,
                destinations@,
                cm,
                *snap,
                min_part_msat,
                n as int,
            ),
            text_map(unsplit@) == unsplit_map(self_id@, destinations@, cm, n as int),
            text_map(onion_scids@) == onion_map(self_id@, destinations@, cm, n as int),
    {
        let dspec = &destinations[n];
        let scid = dspec.scid.as_str();
        proof {
            assert(cm.contains_key(destinations@[n as int].scid@));
        }
        if let Some(chan) = chans.get(scid) {
            if let Some(update) = chan.remote_update {
                let peer_id = chan.peer_id.as_str();
                let home = scidd_of(scid, dir(peer_id, self_id));
                let ghost unsplit0 = unsplit@;
                let ghost onion0 = onion_scids@;
                if let Some(alias) = &chan.onion_scid {
                    onion_scids.insert(home.as_str(), alias.clone());
                }
                let mirror = push_mirror(
                    &mut ops,
                    n,
                    dspec,
                    peer_id,
                    chan.receivable_msat,
                    update,
                    min_part_msat,
                    Ghost(chan@),
                );
                push_mirror_overrides(
                    &mut ops,
                    mirror.as_str(),
                    home.as_str(),
                    snap,
                    min_part_msat,
                );
                let ghost home_view = home@;
                unsplit.insert(mirror.as_str(), home);
                proof {
                    assert(cm[scid@] == chan@);
                    assert(text_map(unsplit@) =~= text_map(unsplit0).insert(mirror@, home_view));
                    if chan.onion_scid is Some {
                        assert(text_map(onion_scids@) =~= text_map(onion0).insert(
                            home_view,
                            chan.onion_scid->0@,
                        ));
                    }
                }
            }
        }
    }
    let ghost mirrored = op_views(ops@);
    let count: usize = chans.len();
    for i in 0..count
        invariant
            chans.wf(),
            count == chans.keys().len(),
            cm == channels::chan_map(chans@),
            op_views(ops@) == mirrored + mask_list(
                self_id@,
                sources@,
                chans.keys(),
                cm,
                i as int,
            ),
    {
        let ghost before = op_views(ops@);
        push_mask(&mut ops, self_id, sources, chans.key(i), chans.value(i));
        proof {
            let k = chans.keys()[i as int];
            assert(cm[k] == chans@[k]@);
            assert(op_views(ops@) =~= mirrored + mask_list(
                self_id@,
                sources@,
                chans.keys(),
                cm,
                i + 1,
            ));
        }
    }
    proof {
        let all = op_views(ops@);
        let masks = mask_list(self_id@, sources@, chans.keys(), cm, count as int);
        assert(all.take(mirrored.len() as int) =~= mirrored);
        assert forall|i: int| 0 <= i < destinations@.len() implies ({
            let chan = chans@[(#[trigger] destinations@[i]).scid@]@;
            has_policy_of(
                all,
                mirror_scidd(i, chan.peer_id),
                chan.remote_update->0,
                min_part_msat,
            )
        }) by {
            let scid = destinations@[i].scid@;
            assert(cm.contains_key(scid) && cm[scid] == chans@[scid]@);
            lemma_policy_is_held(self_id@, destinations@, cm, *snap, min_part_msat, i, all);
        }
        assert forall|scid: Seq<char>| #[trigger] chans@.contains_key(scid) implies {
            let peer_id = chans@[scid].peer_id@;
            let closes = |from: Seq<char>, to: Seq<char>|
                all.contains(LayerOpView::Disable { scidd: real_scidd(scid, from, to) });
            &&& closes(peer_id, self_id@)
            &&& (forall|s: int|
                0 <= s < sources@.len() ==> (#[trigger] sources@[s]).scid@ != scid) ==> closes(
                self_id@,
                peer_id,
            )
        } by {
            chans.lemma_keys();
            assert(chans.keys().contains(scid));
            let i = choose|i: int| 0 <= i < chans.keys().len() && chans.keys()[i] == scid;
            let peer_id = chans@[scid].peer_id@;
            assert(cm[scid] == chans@[scid]@);
            law_masks_pin_the_drain(self_id@, sources@, chans.keys(), cm, count as int, i);
            law_sources_are_found_by_name(sources@, scid);
            let inbound = LayerOpView::Disable { scidd: real_scidd(scid, peer_id, self_id@) };
            let outbound = LayerOpView::Disable { scidd: real_scidd(scid, self_id@, peer_id) };
            let k = choose|k: int| 0 <= k < masks.len() && masks[k] == inbound;
            assert(all[mirrored.len() + k] == inbound);
            if source_cap(sources@, scid) is None {
                let k = choose|k: int| 0 <= k < masks.len() && masks[k] == outbound;
                assert(all[mirrored.len() + k] == outbound);
            }
        }
    }
    Split { ops, unsplit, onion_scids }
}

/// The writes hold an update of the mirror `scidd` with the terms of the
/// peer's update, each from the member of its name, and a minimum that is
/// no lower than the fragment floor.
pub open spec fn has_policy_of(
    ops: Seq<LayerOpView>,
    scidd: Seq<char>,
    update: Json,
    min_part_msat: u64,
) -> bool {
    exists|min: u64|
        min >= min_part_msat && #[trigger] ops.contains(
            LayerOpView::CopyPolicy {
                scidd,
                htlc_minimum_msat: min,
                htlc_maximum_msat: update.field("htlc_maximum_msat"@),
                fee_base_msat: update.field("fee_base_msat"@),
                fee_proportional_millionths: update.field("fee_proportional_millionths"@),
                cltv_expiry_delta: update.field("cltv_expiry_delta"@),
            },
        )
}

proof fn lemma_policy_is_held(
    self_id: Seq<char>,
    destinations: Seq<ChanSpec>,
    chans: Map<Seq<char>, ChanView>,
    snap: Snapshot,
    min_part_msat: u64,
    i: int,
    all: Seq<LayerOpView>,
)
    requires
        0 <= i < destinations.len(),
        chans[destinations[i].scid@].remote_update is Some,
        ({
            let mirrors = mirror_list(
                self_id,
                destinations,
                chans,
                snap,
                min_part_msat,
                destinations.len() as int,
            );
            mirrors.len() <= all.len() && all.take(mirrors.len() as int) == mirrors
        }),
    ensures
        has_policy_of(
            all,
            mirror_scidd(i, chans[destinations[i].scid@].peer_id),
            chans[destinations[i].scid@].remote_update->0,
            min_part_msat,
        ),
{
    let n = destinations.len() as int;
    let mirrors = mirror_list(self_id, destinations, chans, snap, min_part_msat, n);
    let chan = chans[destinations[i].scid@];
    let update = chan.remote_update->0;
    let min = mirror_minimum(update, min_part_msat);
    let op = LayerOpView::CopyPolicy {
        scidd: mirror_scidd(i, chan.peer_id),
        htlc_minimum_msat: min,
        htlc_maximum_msat: update.field("htlc_maximum_msat"@),
        fee_base_msat: update.field("fee_base_msat"@),
        fee_proportional_millionths: update.field("fee_proportional_millionths"@),
        cltv_expiry_delta: update.field("cltv_expiry_delta"@),
    };
    assert(mirror_one(i, destinations[i].max_msat, chan, min_part_msat)[1] == op);
    lemma_mirror_list_holds(self_id, destinations, chans, snap, min_part_msat, n, i, op);
    let k = choose|k: int| 0 <= k < mirrors.len() && mirrors[k] == op;
    assert(all.take(mirrors.len() as int)[k] == all[k]);
    assert(all.contains(op));
}

proof fn lemma_mirror_prefix(n: int, peer_id: Seq<char>)
    ensures
        mirror_scidd(n, peer_id) == (text::dec(MIRROR_BLOCK as nat) + "x"@) + text::dec(
            (n + 1) as nat,
        ) + ("x0/"@ + text::dec(channels::direction(peer_id, FAKE_US_IN@) as nat)),
{
    reveal_strlit("x0");
    reveal_strlit("/");
    reveal_strlit("x0/");
    let d = text::dec(channels::direction(peer_id, FAKE_US_IN@) as nat);
    assert(mirror_scidd(n, peer_id) =~= (text::dec(MIRROR_BLOCK as nat) + "x"@) + text::dec(
        (n + 1) as nat,
    ) + ("x0/"@ + d));
}

/// No two destinations share a mirror.
pub proof fn law_mirrors_differ(i: int, peer_i: Seq<char>, j: int, peer_j: Seq<char>)
    requires
        0 <= i,
        0 <= j,
        i != j,
    ensures
        mirror_scidd(i, peer_i) != mirror_scidd(j, peer_j),
{
    if mirror_scidd(i, peer_i) == mirror_scidd(j, peer_j) {
        reveal_strlit("x0/");
        let prefix = text::dec(MIRROR_BLOCK as nat) + "x"@;
        let (di, dj) = (text::dec((i + 1) as nat), text::dec((j + 1) as nat));
        let ti = "0/"@ + text::dec(channels::direction(peer_i, FAKE_US_IN@) as nat);
        let tj = "0/"@ + text::dec(channels::direction(peer_j, FAKE_US_IN@) as nat);
        reveal_strlit("0/");
        lemma_mirror_prefix(i, peer_i);
        lemma_mirror_prefix(j, peer_j);
        assert(mirror_scidd(i, peer_i).skip(prefix.len() as int) =~= di + seq!['x'] + ti);
        assert(mirror_scidd(j, peer_j).skip(prefix.len() as int) =~= dj + seq!['x'] + tj);
        text::law_numeral_round_trip((i + 1) as nat);
        text::law_numeral_round_trip((j + 1) as nat);
        assert forall|k: int| 0 <= k < di.len() implies #[trigger] di[k] != 'x' by {
            assert(text::is_digit(di[k]));
        }
        assert forall|k: int| 0 <= k < dj.len() implies #[trigger] dj[k] != 'x' by {
            assert(text::is_digit(dj[k]));
        }
        text::lemma_split_unique(di, ti, dj, tj, 'x');
    }
}

/// Ours is the only mapping in existence, and it loses nothing: a route
/// that ends on destination `i`'s mirror is read back to destination
/// `i`'s own channel.
pub proof fn law_unsplit_inverts_the_split(
    self_id: Seq<char>,
    destinations: Seq<ChanSpec>,
    chans: Map<Seq<char>, ChanView>,
    n: int,
    i: int,
)
    requires
        0 <= i < n <= destinations.len(),
    ensures
        ({
            let scid = destinations[i].scid@;
            let peer_id = chans[scid].peer_id;
            let unsplit = unsplit_map(self_id, destinations, chans, n);
            &&& unsplit.contains_key(mirror_scidd(i, peer_id))
            &&& unsplit[mirror_scidd(i, peer_id)] == real_scidd(scid, peer_id, self_id)
        }),
    decreases n,
{
    if i < n - 1 {
        law_unsplit_inverts_the_split(self_id, destinations, chans, n - 1, i);
        law_mirrors_differ(
            i,
            chans[destinations[i].scid@].peer_id,
            n - 1,
            chans[destinations[n - 1].scid@].peer_id,
        );
    }
}

/// Every channel's inbound direction is disabled, so that no flow enters
/// the real us, and so is every outbound one that no source names.
pub proof fn law_masks_pin_the_drain(
    self_id: Seq<char>,
    sources: Seq<ChanSpec>,
    keys: Seq<Seq<char>>,
    chans: Map<Seq<char>, ChanView>,
    n: int,
    i: int,
)
    requires
        0 <= i < n <= keys.len(),
    ensures
        mask_list(self_id, sources, keys, chans, n).contains(
            LayerOpView::Disable { scidd: real_scidd(keys[i], chans[keys[i]].peer_id, self_id) },
        ),
        source_cap(sources, keys[i]) is None ==> mask_list(
            self_id,
            sources,
            keys,
            chans,
            n,
        ).contains(
            LayerOpView::Disable { scidd: real_scidd(keys[i], self_id, chans[keys[i]].peer_id) },
        ),
    decreases n,
{
    let before = mask_list(self_id, sources, keys, chans, n - 1);
    let one = mask_one(self_id, sources, keys[n - 1], chans[keys[n - 1]]);
    let all = mask_list(self_id, sources, keys, chans, n);
    let inbound = LayerOpView::Disable {
        scidd: real_scidd(keys[i], chans[keys[i]].peer_id, self_id),
    };
    let outbound = LayerOpView::Disable {
        scidd: real_scidd(keys[i], self_id, chans[keys[i]].peer_id),
    };
    if i < n - 1 {
        law_masks_pin_the_drain(self_id, sources, keys, chans, n - 1, i);
        let k = choose|k: int| 0 <= k < before.len() && before[k] == inbound;
        assert(all[k] == inbound);
        if source_cap(sources, keys[i]) is None {
            let k = choose|k: int| 0 <= k < before.len() && before[k] == outbound;
            assert(all[k] == outbound);
        }
    } else {
        assert(one[0] == inbound);
        assert(all[before.len() as int] == inbound);
        if source_cap(sources, keys[i]) is None {
            assert(one[1] == outbound);
            assert(all[before.len() as int + 1] == outbound);
        }
    }
}

/// A mirror takes no HTLC below the fragment floor, whatever policy was
/// learned for it, and its capacity is no more than the channel can
/// receive and the caller allows.
pub proof fn law_mirror_bounds(
    n: int,
    spec_msat: Option<u64>,
    chan: ChanView,
    min_part_msat: u64,
    learned: ChanUpdate,
)
    ensures
        ({
            let ops = mirror_one(n, spec_msat, chan, min_part_msat);
            &&& ops[0] matches LayerOpView::CreateChannel { capacity_msat, .. }
                && capacity_msat <= chan.receivable_msat && capacity_msat <= chan_spec::cap_of(
                spec_msat,
            )
            &&& ops[1] matches LayerOpView::CopyPolicy { htlc_minimum_msat, .. }
                && htlc_minimum_msat >= min_part_msat
            &&& mirrored_policy(learned, min_part_msat).htlc_minimum_msat >= min_part_msat
        }),
{
}

proof fn lemma_held_policy(policies: Seq<(String, ChanUpdate)>, scidd: Seq<char>)
    requires
        overrides::policy_names(policies).contains(scidd),
    ensures
        held_policy(policies, scidd) is Some,
        exists|i: int|
            0 <= i < policies.len() && (#[trigger] policies[i]).0@ == scidd && held_policy(
                policies,
                scidd,
            ) == Some(policies[i].1),
    decreases policies.len(),
{
    let names = overrides::policy_names(policies);
    let k = choose|k: int| 0 <= k < names.len() && names[k] == scidd;
    assert(policies[k].0@ == scidd);
    if policies[0].0@ != scidd {
        let rest = policies.skip(1);
        assert(overrides::policy_names(rest)[k - 1] == scidd);
        lemma_held_policy(rest, scidd);
        let i = choose|i: int|
            0 <= i < rest.len() && (#[trigger] rest[i]).0@ == scidd && held_policy(rest, scidd)
                == Some(rest[i].1);
        assert(policies[i + 1] == rest[i]);
    }
}

/// What was learned of a return direction reaches its mirror, as long as
/// it has not expired: an exclusion takes the mirror out of
/// consideration, and a policy prices it.
pub proof fn law_overrides_reach_the_mirrors(
    self_id: Seq<char>,
    destinations: Seq<ChanSpec>,
    chans: Map<Seq<char>, ChanView>,
    snap: Snapshot,
    store: OverridesView,
    min_part_msat: u64,
    n: int,
    i: int,
)
    requires
        snap.holds(store),
        0 <= i < n <= destinations.len(),
    ensures
        ({
            let scid = destinations[i].scid@;
            let peer_id = chans[scid].peer_id;
            let home = real_scidd(scid, peer_id, self_id);
            let mirror = mirror_scidd(i, peer_id);
            let ops = mirror_list(self_id, destinations, chans, snap, min_part_msat, n);
            &&& store.exclusions.contains_key(home) ==> ops.contains(
                LayerOpView::Inform { scidd: mirror, amount_msat: 1, constrained: true },
            )
            &&& store.policies.contains_key(home) ==> ops.contains(
                LayerOpView::SetPolicy {
                    scidd: mirror,
                    policy: mirrored_policy(store.policies[home].0, min_part_msat),
                },
            )
        }),
    decreases n,
{
    let scid = destinations[i].scid@;
    let peer_id = chans[scid].peer_id;
    let home = real_scidd(scid, peer_id, self_id);
    let mirror = mirror_scidd(i, peer_id);
    let all = mirror_list(self_id, destinations, chans, snap, min_part_msat, n);
    let before = mirror_list(self_id, destinations, chans, snap, min_part_msat, n - 1);
    let avoid = LayerOpView::Inform { scidd: mirror, amount_msat: 1, constrained: true };
    let price = LayerOpView::SetPolicy {
        scidd: mirror,
        policy: mirrored_policy(store.policies[home].0, min_part_msat),
    };
    if i < n - 1 {
        law_overrides_reach_the_mirrors(
            self_id,
            destinations,
            chans,
            snap,
            store,
            min_part_msat,
            n - 1,
            i,
        );
        if store.exclusions.contains_key(home) {
            let k = choose|k: int| 0 <= k < before.len() && before[k] == avoid;
            assert(all[k] == avoid);
        }
        if store.policies.contains_key(home) {
            let k = choose|k: int| 0 <= k < before.len() && before[k] == price;
            assert(all[k] == price);
        }
    } else {
        let one = mirror_one(i, destinations[i].max_msat, chans[scid], min_part_msat);
        let learned = mirror_overrides(mirror, home, snap, min_part_msat);
        let at = (before.len() + one.len()) as int;
        assert(all =~= before + one + learned);
        if store.policies.contains_key(home) {
            assert(overrides::policy_names(snap.policies@).contains(home));
            lemma_held_policy(snap.policies@, home);
            assert(learned[0] == price);
            assert(all[at] == price);
        }
        if store.exclusions.contains_key(home) {
            assert(overrides::names(snap.exclusions@).contains(home));
            assert(learned.last() == avoid);
            assert(all[at + learned.len() - 1] == avoid);
        }
    }
}

// ---------------------------------------------------------------------
// What the split says of each channel
// ---------------------------------------------------------------------

/// The writes for one destination stand in the split's writes.
proof fn lemma_mirror_list_holds(
    self_id: Seq<char>,
    destinations: Seq<ChanSpec>,
    chans: Map<Seq<char>, ChanView>,
    snap: Snapshot,
    min_part_msat: u64,
    n: int,
    i: int,
    op: LayerOpView,
)
    requires
        0 <= i < n <= destinations.len(),
        mirror_one(i, destinations[i].max_msat, chans[destinations[i].scid@], min_part_msat).contains(
            op,
        ),
    ensures
        mirror_list(self_id, destinations, chans, snap, min_part_msat, n).contains(op),
    decreases n,
{
    let all = mirror_list(self_id, destinations, chans, snap, min_part_msat, n);
    let before = mirror_list(self_id, destinations, chans, snap, min_part_msat, n - 1);
    if i < n - 1 {
        lemma_mirror_list_holds(
            self_id,
            destinations,
            chans,
            snap,
            min_part_msat,
            n - 1,
            i,
            op,
        );
        let k = choose|k: int| 0 <= k < before.len() && before[k] == op;
        assert(all[k] == op);
    } else {
        let one = mirror_one(i, destinations[i].max_msat, chans[destinations[i].scid@], min_part_msat);
        let k = choose|k: int| 0 <= k < one.len() && one[k] == op;
        assert(all[before.len() + k] == op);
    }
}

/// Every destination is mirrored with its peer's own policy: the writes
/// hold an update of its mirror whose maximum, base fee, proportional fee
/// and cltv delta are each the member of that name in the peer's update,
/// and whose minimum is the peer's or the fragment floor, whichever is
/// larger.  The mirror is named from the destination's position and leads
/// from the peer to the stand-in node.
pub proof fn law_mirrors_have_the_peers_policy(
    self_id: Seq<char>,
    destinations: Seq<ChanSpec>,
    chans: Map<Seq<char>, ChanView>,
    snap: Snapshot,
    min_part_msat: u64,
    i: int,
    update: Json,
    own_msat: u64,
)
    requires
        0 <= i < destinations.len(),
        chans[destinations[i].scid@].remote_update == Some(update),
        update.at("htlc_minimum_msat"@) == Json::Uint(own_msat) || own_msat == 0 && !(update.at(
            "htlc_minimum_msat"@,
        ) is Uint),
    ensures
        exists|min: u64|
            (min == own_msat || min == min_part_msat) && min >= own_msat && min >= min_part_msat
                && #[trigger] mirror_list(
                self_id,
                destinations,
                chans,
                snap,
                min_part_msat,
                destinations.len() as int,
            ).contains(
                LayerOpView::CopyPolicy {
                    scidd: mirror_scidd(i, chans[destinations[i].scid@].peer_id),
                    htlc_minimum_msat: min,
                    htlc_maximum_msat: update.field("htlc_maximum_msat"@),
                    fee_base_msat: update.field("fee_base_msat"@),
                    fee_proportional_millionths: update.field("fee_proportional_millionths"@),
                    cltv_expiry_delta: update.field("cltv_expiry_delta"@),
                },
            ),
{
    let chan = chans[destinations[i].scid@];
    let min = if own_msat >= min_part_msat {
        own_msat
    } else {
        min_part_msat
    };
    let op = LayerOpView::CopyPolicy {
        scidd: mirror_scidd(i, chan.peer_id),
        htlc_minimum_msat: min,
        htlc_maximum_msat: update.field("htlc_maximum_msat"@),
        fee_base_msat: update.field("fee_base_msat"@),
        fee_proportional_millionths: update.field("fee_proportional_millionths"@),
        cltv_expiry_delta: update.field("cltv_expiry_delta"@),
    };
    let one = mirror_one(i, destinations[i].max_msat, chan, min_part_msat);
    assert(one[1] == op);
    lemma_mirror_list_holds(
        self_id,
        destinations,
        chans,
        snap,
        min_part_msat,
        destinations.len() as int,
        i,
        op,
    );
}

/// Every destination's mirror is created from its peer to the stand-in
/// node, with what the channel can receive as its capacity, or the
/// caller's cap where that is less.  What is known to fit through it --
/// the capacity, or the peer's maximum where that is less -- is told as
/// exact: that much passes, unless it is nothing, and one msat more does
/// not.
pub proof fn law_mirrors_carry_what_the_channel_can(
    self_id: Seq<char>,
    destinations: Seq<ChanSpec>,
    chans: Map<Seq<char>, ChanView>,
    snap: Snapshot,
    min_part_msat: u64,
    i: int,
    capacity_msat: u64,
    known_msat: u64,
)
    requires
        0 <= i < destinations.len(),
        ({
            let chan = chans[destinations[i].scid@];
            &&& destinations[i].max_msat is None ==> capacity_msat == chan.receivable_msat
            &&& destinations[i].max_msat matches Some(cap) ==> (if cap < chan.receivable_msat {
                capacity_msat == cap
            } else {
                capacity_msat == chan.receivable_msat
            })
            &&& chan.remote_update is Some
            &&& chan.remote_update->0.at("htlc_maximum_msat"@) matches Json::Uint(max) ==> (if max
                < capacity_msat {
                known_msat == max
            } else {
                known_msat == capacity_msat
            })
            &&& !(chan.remote_update->0.at("htlc_maximum_msat"@) is Uint) ==> known_msat
                == capacity_msat
        }),
        known_msat < u64::MAX,
    ensures
        ({
            let peer_id = chans[destinations[i].scid@].peer_id;
            let scidd = mirror_scidd(i, peer_id);
            let ops = mirror_list(
                self_id,
                destinations,
                chans,
                snap,
                min_part_msat,
                destinations.len() as int,
            );
            &&& ops.contains(
                LayerOpView::CreateChannel {
                    source: peer_id,
                    destination: "0200000000000000000000000000000000000000000000000000000000000000ff"@,
                    scid: mirror_scid(i),
                    capacity_msat,
                },
            )
            &&& known_msat > 0 ==> ops.contains(
                LayerOpView::Inform { scidd, amount_msat: known_msat, constrained: false },
            )
            &&& ops.contains(
                LayerOpView::Inform {
                    scidd,
                    amount_msat: (known_msat + 1) as u64,
                    constrained: true,
                },
            )
        }),
{
    reveal_strlit("0200000000000000000000000000000000000000000000000000000000000000ff");
    let chan = chans[destinations[i].scid@];
    let n = destinations.len() as int;
    let scidd = mirror_scidd(i, chan.peer_id);
    let one = mirror_one(i, destinations[i].max_msat, chan, min_part_msat);
    let create = LayerOpView::CreateChannel {
        source: chan.peer_id,
        destination: FAKE_US_IN@,
        scid: mirror_scid(i),
        capacity_msat,
    };
    let above = LayerOpView::Inform {
        scidd,
        amount_msat: (known_msat + 1) as u64,
        constrained: true,
    };
    let passes = LayerOpView::Inform { scidd, amount_msat: known_msat, constrained: false };
    assert(one[0] == create);
    lemma_mirror_list_holds(self_id, destinations, chans, snap, min_part_msat, n, i, create);
    assert(one.last() == above);
    lemma_mirror_list_holds(self_id, destinations, chans, snap, min_part_msat, n, i, above);
    if known_msat > 0 {
        assert(one[2] == passes);
        lemma_mirror_list_holds(self_id, destinations, chans, snap, min_part_msat, n, i, passes);
    }
}

/// A mirror is told nothing but its channel's own: one channel, one
/// policy, and at most the two bounds, whatever the other destinations
/// are.
pub proof fn law_mirrors_are_told_no_more(
    n: int,
    spec_msat: Option<u64>,
    chan: ChanView,
    min_part_msat: u64,
)
    ensures
        ({
            let ops = mirror_one(n, spec_msat, chan, min_part_msat);
            &&& 3 <= ops.len() <= 4
            &&& ops[0] is CreateChannel
            &&& ops[1] is CopyPolicy
            &&& forall|k: int| 2 <= k < ops.len() ==> #[trigger] ops[k] is Inform
            &&& forall|k: int|
                1 <= k < ops.len() ==> (match #[trigger] ops[k] {
                    LayerOpView::CopyPolicy { scidd, .. } => scidd == mirror_scidd(n, chan.peer_id),
                    LayerOpView::Inform { scidd, .. } => scidd == mirror_scidd(n, chan.peer_id),
                    _ => false,
                })
        }),
{
}

/// A mirror's name: its block, the destination's ordinal, and the
/// direction in which its peer's id and the stand-in's stand to each
/// other.
pub proof fn law_mirrors_are_named_by_ordinal(n: int, peer_id: Seq<char>)
    requires
        0 <= n,
    ensures
        mirror_scid(n) == "16000000x"@ + text::dec((n + 1) as nat) + "x0"@,
        mirror_scidd(n, peer_id) == mirror_scid(n) + if text::lex_less(
            peer_id,
            "0200000000000000000000000000000000000000000000000000000000000000ff"@,
        ) {
            "/0"@
        } else {
            "/1"@
        },
{
    reveal_strlit("16000000x");
    reveal_strlit("x");
    reveal_strlit("x0");
    reveal_strlit("0200000000000000000000000000000000000000000000000000000000000000ff");
    reveal_with_fuel(text::dec, 8);
    assert(text::dec(16_000_000) =~= seq!['1', '6', '0', '0', '0', '0', '0', '0']);
    assert(mirror_scid(n) =~= "16000000x"@ + text::dec((n + 1) as nat) + "x0"@);
    channels::law_directions_are_written(mirror_scid(n), peer_id, FAKE_US_IN@);
}

/// A learned policy is a mirror's as it was learned, but for the minimum:
/// that is the larger of the learned one and the fragment floor.
pub proof fn law_learned_policies_keep_their_terms(cu: ChanUpdate, min_part_msat: u64)
    ensures
        ({
            let p = mirrored_policy(cu, min_part_msat);
            &&& p.enabled == cu.enabled
            &&& p.cltv_expiry_delta == cu.cltv_expiry_delta
            &&& p.fee_base_msat == cu.fee_base_msat
            &&& p.fee_proportional_millionths == cu.fee_proportional_millionths
            &&& p.htlc_maximum_msat == cu.htlc_maximum_msat
            &&& p.htlc_minimum_msat >= cu.htlc_minimum_msat
            &&& p.htlc_minimum_msat >= min_part_msat
            &&& p.htlc_minimum_msat == cu.htlc_minimum_msat || p.htlc_minimum_msat == min_part_msat
        }),
{
}

proof fn lemma_held_policy_is_listed(policies: Seq<(String, ChanUpdate)>, scidd: Seq<char>)
    ensures
        held_policy(policies, scidd) matches Some(cu) ==> exists|i: int|
            0 <= i < policies.len() && (#[trigger] policies[i]).0@ == scidd && policies[i].1 == cu,
    decreases policies.len(),
{
    if policies.len() > 0 && policies[0].0@ != scidd {
        let rest = policies.skip(1);
        lemma_held_policy_is_listed(rest, scidd);
        if let Some(cu) = held_policy(rest, scidd) {
            let i = choose|i: int|
                0 <= i < rest.len() && (#[trigger] rest[i]).0@ == scidd && rest[i].1 == cu;
            assert(policies[i + 1] == rest[i]);
        }
    }
}

/// A mirror whose return direction was neither excluded nor refreshed is
/// told nothing learned.
pub proof fn law_nothing_learned_changes_no_mirror(
    mirror: Seq<char>,
    home: Seq<char>,
    snap: Snapshot,
    store: OverridesView,
    min_part_msat: u64,
)
    requires
        snap.holds(store),
    ensures
        !store.policies.contains_key(home) && !store.exclusions.contains_key(home)
            ==> mirror_overrides(mirror, home, snap, min_part_msat).len() == 0,
{
    lemma_held_policy_is_listed(snap.policies@, home);
    if held_policy(snap.policies@, home) is Some {
        let names = overrides::policy_names(snap.policies@);
        let i = choose|i: int|
            0 <= i < snap.policies@.len() && (#[trigger] snap.policies@[i]).0@ == home
                && snap.policies@[i].1 == held_policy(snap.policies@, home)->0;
        assert(names[i] == home);
        assert(names.contains(home));
    }
}

/// The routes can be read back over our own mirrors and no others: what
/// the map holds are the mirrors of the destinations.
pub proof fn law_only_mirrors_are_read_back(
    self_id: Seq<char>,
    destinations: Seq<ChanSpec>,
    chans: Map<Seq<char>, ChanView>,
    n: int,
    mirror: Seq<char>,
)
    requires
        0 <= n <= destinations.len(),
        unsplit_map(self_id, destinations, chans, n).contains_key(mirror),
    ensures
        exists|i: int|
            0 <= i < n && mirror == mirror_scidd(
                i,
                chans[(#[trigger] destinations[i]).scid@].peer_id,
            ),
    decreases n,
{
    if n > 0 {
        let d = destinations[n - 1];
        if mirror != mirror_scidd(n - 1, chans[d.scid@].peer_id) {
            law_only_mirrors_are_read_back(self_id, destinations, chans, n - 1, mirror);
        }
    }
}

/// A destination that has an alias is named by it in the onion, and one
/// that has none is not renamed; nothing else is.
pub proof fn law_aliases_go_into_the_onion(
    self_id: Seq<char>,
    destinations: Seq<ChanSpec>,
    chans: Map<Seq<char>, ChanView>,
    n: int,
    i: int,
)
    requires
        0 <= i < n <= destinations.len(),
        forall|j: int, k: int|
            0 <= j < k < destinations.len() ==> (#[trigger] destinations[j]).scid@ != (
            #[trigger] destinations[k]).scid@,
    ensures
        ({
            let scid = destinations[i].scid@;
            let home = real_scidd(scid, chans[scid].peer_id, self_id);
            let onion = onion_map(self_id, destinations, chans, n);
            &&& chans[scid].onion_scid is Some <==> onion.contains_key(home)
            &&& chans[scid].onion_scid matches Some(alias) ==> onion[home] == alias
        }),
    decreases n,
{
    let scid = destinations[i].scid@;
    let home = real_scidd(scid, chans[scid].peer_id, self_id);
    if i < n - 1 {
        let other = destinations[n - 1].scid@;
        law_aliases_go_into_the_onion(self_id, destinations, chans, n - 1, i);
        assert(scid != other);
        channels::law_names_tell_channels_apart(
            scid,
            channels::direction(chans[scid].peer_id, self_id),
            other,
            channels::direction(chans[other].peer_id, self_id),
        );
    } else {
        lemma_onion_keys(self_id, destinations, chans, n - 1, home);
        if onion_map(self_id, destinations, chans, n - 1).contains_key(home) {
            let j = choose|j: int|
                0 <= j < n - 1 && home == real_scidd(
                    (#[trigger] destinations[j]).scid@,
                    chans[destinations[j].scid@].peer_id,
                    self_id,
                );
            let other = destinations[j].scid@;
            assert(other != scid);
            channels::law_names_tell_channels_apart(
                scid,
                channels::direction(chans[scid].peer_id, self_id),
                other,
                channels::direction(chans[other].peer_id, self_id),
            );
        }
    }
}

proof fn lemma_onion_keys(
    self_id: Seq<char>,
    destinations: Seq<ChanSpec>,
    chans: Map<Seq<char>, ChanView>,
    n: int,
    home: Seq<char>,
)
    requires
        0 <= n <= destinations.len(),
    ensures
        onion_map(self_id, destinations, chans, n).contains_key(home) ==> exists|j: int|
            0 <= j < n && home == real_scidd(
                (#[trigger] destinations[j]).scid@,
                chans[destinations[j].scid@].peer_id,
                self_id,
            ),
    decreases n,
{
    if n > 0 {
        lemma_onion_keys(self_id, destinations, chans, n - 1, home);
        let d = destinations[n - 1];
        assert(home == real_scidd(d.scid@, chans[d.scid@].peer_id, self_id) || (
        onion_map(self_id, destinations, chans, n).contains_key(home) ==> onion_map(
            self_id,
            destinations,
            chans,
            n - 1,
        ).contains_key(home)));
    }
}

/// The cap of a source is the one its spec gives, and a channel that no
/// source names has none.
pub proof fn law_sources_are_found_by_name(sources: Seq<ChanSpec>, scid: Seq<char>)
    ensures
        match source_cap(sources, scid) {
            None => forall|i: int| 0 <= i < sources.len() ==> (#[trigger] sources[i]).scid@ != scid,
            Some(cap) => exists|i: int|
                0 <= i < sources.len() && (#[trigger] sources[i]).scid@ == scid
                    && sources[i].max_msat == cap && forall|j: int|
                    i < j < sources.len() ==> (#[trigger] sources[j]).scid@ != scid,
        },
    decreases sources.len(),
{
    if sources.len() > 0 {
        let rest = sources.drop_last();
        law_sources_are_found_by_name(rest, scid);
        if sources.last().scid@ == scid {
            assert(sources[sources.len() - 1].scid@ == scid);
        } else {
            match source_cap(rest, scid) {
                None => {
                    assert forall|i: int| 0 <= i < sources.len() implies (
                    #[trigger] sources[i]).scid@ != scid by {
                        if i < rest.len() {
                            assert(rest[i] == sources[i]);
                        }
                    }
                },
                Some(cap) => {
                    let i = choose|i: int|
                        0 <= i < rest.len() && (#[trigger] rest[i]).scid@ == scid
                            && rest[i].max_msat == cap && forall|j: int|
                            i < j < rest.len() ==> (#[trigger] rest[j]).scid@ != scid;
                    assert(sources[i] == rest[i]);
                    assert forall|j: int| i < j < sources.len() implies (
                    #[trigger] sources[j]).scid@ != scid by {
                        if j < rest.len() {
                            assert(rest[j] == sources[j]);
                        }
                    }
                },
            }
        }
    }
}

/// The drain side of a source stays open: none of the masks closes it.
/// What it may carry is bounded only where its cap is below what it can
/// send, and then one msat above the cap.
pub proof fn law_sources_stay_open(
    self_id: Seq<char>,
    sources: Seq<ChanSpec>,
    keys: Seq<Seq<char>>,
    chans: Map<Seq<char>, ChanView>,
    n: int,
    i: int,
    op: LayerOpView,
)
    requires
        0 <= n <= keys.len(),
        0 <= i < keys.len(),
        keys.no_duplicates(),
        exists|s: int| 0 <= s < sources.len() && (#[trigger] sources[s]).scid@ == keys[i],
        chans[keys[i]].peer_id != self_id,
        mask_list(self_id, sources, keys, chans, n).contains(op),
    ensures
        ({
            let out = real_scidd(keys[i], self_id, chans[keys[i]].peer_id);
            match op {
                LayerOpView::Disable { scidd } => scidd != out,
                LayerOpView::Inform { scidd, amount_msat, constrained } => scidd == out
                    ==> constrained && exists|s: int|
                    0 <= s < sources.len() && (#[trigger] sources[s]).scid@ == keys[i]
                        && sources[s].max_msat == Some((amount_msat - 1) as u64) && amount_msat
                        <= chans[keys[i]].spendable_msat,
                _ => false,
            }
        }),
    decreases n,
{
    let all = mask_list(self_id, sources, keys, chans, n);
    let k = choose|k: int| 0 <= k < all.len() && all[k] == op;
    if n > 0 {
        let before = mask_list(self_id, sources, keys, chans, n - 1);
        let (scid, chan) = (keys[n - 1], chans[keys[n - 1]]);
        let one = mask_one(self_id, sources, scid, chan);
        law_sources_are_found_by_name(sources, scid);
        if k < before.len() {
            assert(before[k] == op);
            law_sources_stay_open(self_id, sources, keys, chans, n - 1, i, op);
        } else {
            assert(one[k - before.len()] == op);
            let (a, b) = (
                channels::direction(chan.peer_id, self_id),
                channels::direction(self_id, chan.peer_id),
            );
            let c = channels::direction(self_id, chans[keys[i]].peer_id);
            channels::law_names_tell_channels_apart(scid, a, keys[i], c);
            channels::law_names_tell_channels_apart(scid, b, keys[i], c);
            channels::law_directions_differ(chans[keys[i]].peer_id, self_id);
        }
    }
}

proof fn lemma_mask_list_holds(
    self_id: Seq<char>,
    sources: Seq<ChanSpec>,
    keys: Seq<Seq<char>>,
    chans: Map<Seq<char>, ChanView>,
    n: int,
    i: int,
    op: LayerOpView,
)
    requires
        0 <= i < n <= keys.len(),
        mask_one(self_id, sources, keys[i], chans[keys[i]]).contains(op),
    ensures
        mask_list(self_id, sources, keys, chans, n).contains(op),
    decreases n,
{
    let all = mask_list(self_id, sources, keys, chans, n);
    let before = mask_list(self_id, sources, keys, chans, n - 1);
    if i < n - 1 {
        lemma_mask_list_holds(self_id, sources, keys, chans, n - 1, i, op);
        let k = choose|k: int| 0 <= k < before.len() && before[k] == op;
        assert(all[k] == op);
    } else {
        let one = mask_one(self_id, sources, keys[i], chans[keys[i]]);
        let k = choose|k: int| 0 <= k < one.len() && one[k] == op;
        assert(all[before.len() + k] == op);
    }
}

/// A channel's directions are closed as they must be: inbound always, so
/// that no flow enters the real us; outbound where no source names it.  A
/// source whose cap is below what it can send is told that one msat above
/// the cap does not pass.
pub proof fn law_masks_close_what_is_not_a_source(
    self_id: Seq<char>,
    sources: Seq<ChanSpec>,
    keys: Seq<Seq<char>>,
    chans: Map<Seq<char>, ChanView>,
    i: int,
    cap: u64,
)
    requires
        0 <= i < keys.len(),
    ensures
        ({
            let ops = mask_list(self_id, sources, keys, chans, keys.len() as int);
            let chan = chans[keys[i]];
            let inbound = keys[i] + if text::lex_less(chan.peer_id, self_id) {
                "/0"@
            } else {
                "/1"@
            };
            let outbound = keys[i] + if text::lex_less(self_id, chan.peer_id) {
                "/0"@
            } else {
                "/1"@
            };
            &&& ops.contains(LayerOpView::Disable { scidd: inbound })
            &&& (forall|s: int|
                0 <= s < sources.len() ==> (#[trigger] sources[s]).scid@ != keys[i])
                ==> ops.contains(LayerOpView::Disable { scidd: outbound })
            &&& cap < chan.spendable_msat && (exists|s: int|
                0 <= s < sources.len() && (#[trigger] sources[s]).scid@ == keys[i]
                    && sources[s].max_msat == Some(cap) && forall|t: int|
                    s < t < sources.len() ==> (#[trigger] sources[t]).scid@ != keys[i])
                ==> ops.contains(
                LayerOpView::Inform {
                    scidd: outbound,
                    amount_msat: (cap + 1) as u64,
                    constrained: true,
                },
            )
        }),
{
    let n = keys.len() as int;
    let chan = chans[keys[i]];
    channels::law_directions_are_written(keys[i], chan.peer_id, self_id);
    channels::law_directions_are_written(keys[i], self_id, chan.peer_id);
    law_sources_are_found_by_name(sources, keys[i]);
    let one = mask_one(self_id, sources, keys[i], chan);
    lemma_mask_list_holds(self_id, sources, keys, chans, n, i, one[0]);
    if source_cap(sources, keys[i]) is None {
        lemma_mask_list_holds(self_id, sources, keys, chans, n, i, one[1]);
    } else if source_cap(sources, keys[i]) == Some(Some(cap)) && cap < chan.spendable_msat {
        lemma_mask_list_holds(self_id, sources, keys, chans, n, i, one[1]);
    }
}

/// A snapshot is applied as it is: one write for each policy, disabled
/// node and exclusion that it holds, and no other.
pub proof fn law_snapshots_are_applied_as_they_are(snap: Snapshot, i: int)
    requires
        0 <= i < override_list(snap).len(),
    ensures
        override_list(snap).len() == snap.policies@.len() + snap.disabled_nodes@.len()
            + snap.exclusions@.len(),
        match override_list(snap)[i] {
            LayerOpView::SetPolicy { scidd, policy } => exists|k: int|
                0 <= k < snap.policies@.len() && (#[trigger] snap.policies@[k]).0@ == scidd
                    && snap.policies@[k].1 == policy,
            LayerOpView::DisableNode { node } => exists|k: int|
                0 <= k < snap.disabled_nodes@.len() && (#[trigger] snap.disabled_nodes@[k])@ == node,
            LayerOpView::Inform { scidd, amount_msat, constrained } => amount_msat == 1
                && constrained && exists|k: int|
                0 <= k < snap.exclusions@.len() && (#[trigger] snap.exclusions@[k])@ == scidd,
            _ => false,
        },
{
    let (p, d) = (snap.policies@.len() as int, snap.disabled_nodes@.len() as int);
    if i < p {
        assert(snap.policies@[i].0@ == snap.policies@[i].0@);
    } else if i < p + d {
        assert(override_list(snap)[i] == (LayerOpView::DisableNode {
            node: snap.disabled_nodes@[i - p]@,
        }));
    } else {
        assert(override_list(snap)[i] == (LayerOpView::Inform {
            scidd: snap.exclusions@[i - p - d]@,
            amount_msat: 1,
            constrained: true,
        }));
    }
}

/// A request's layer is named after the second, the process and the
/// sequence number.
pub proof fn law_split_names_are_written(now_secs: u64, pid: u32, seq: u64)
    ensures
        split_name(now_secs, pid, seq) == "xrebalance-req-"@ + text::hex_numeral(now_secs as nat)
            + seq!['-'] + text::dec(pid as nat) + seq!['-'] + text::dec(seq as nat),
        PERSISTENT_LAYER@ == "xrebalance"@,
{
    reveal_strlit("-");
    assert("-"@ =~= seq!['-']);
}

/// A listed layer is the persistent one exactly where it goes by its name.
pub proof fn law_the_persistent_layer_goes_by_its_name(layer: Json)
    ensures
        is_persistent(layer) <==> (layer.at("layer"@) matches Json::Str(s) && s@ == "xrebalance"@),
{
}

/// What was learned of a return direction is told to its mirror and to
/// nothing else: at most a policy and an exclusion.
pub proof fn law_learned_writes_are_the_mirrors(
    mirror: Seq<char>,
    home: Seq<char>,
    snap: Snapshot,
    min_part_msat: u64,
    k: int,
)
    requires
        0 <= k < mirror_overrides(mirror, home, snap, min_part_msat).len(),
    ensures
        mirror_overrides(mirror, home, snap, min_part_msat).len() <= 2,
        match mirror_overrides(mirror, home, snap, min_part_msat)[k] {
            LayerOpView::SetPolicy { scidd, policy } => scidd == mirror && exists|i: int|
                0 <= i < snap.policies@.len() && (#[trigger] snap.policies@[i]).0@ == home && policy
                    == mirrored_policy(snap.policies@[i].1, min_part_msat),
            LayerOpView::Inform { scidd, amount_msat, constrained } => scidd == mirror && amount_msat
                == 1 && constrained && exists|i: int|
                0 <= i < snap.exclusions@.len() && (#[trigger] snap.exclusions@[i])@ == home,
            _ => false,
        },
{
    lemma_held_policy_is_listed(snap.policies@, home);
    let names = overrides::names(snap.exclusions@);
    if names.contains(home) {
        let i = choose|i: int| 0 <= i < names.len() && names[i] == home;
        assert(snap.exclusions@[i]@ == home);
    }
}

/// Every write of the mirrors is for the mirror of some destination.
pub proof fn law_mirror_writes_are_of_destinations(
    self_id: Seq<char>,
    destinations: Seq<ChanSpec>,
    chans: Map<Seq<char>, ChanView>,
    snap: Snapshot,
    min_part_msat: u64,
    n: int,
    op: LayerOpView,
)
    requires
        0 <= n <= destinations.len(),
        mirror_list(self_id, destinations, chans, snap, min_part_msat, n).contains(op),
    ensures
        exists|i: int|
            0 <= i < n && {
                let chan = chans[(#[trigger] destinations[i]).scid@];
                let mirror = mirror_scidd(i, chan.peer_id);
                match op {
                    LayerOpView::CreateChannel { source, scid, .. } => source == chan.peer_id && scid
                        == mirror_scid(i),
                    LayerOpView::CopyPolicy { scidd, .. } => scidd == mirror,
                    LayerOpView::SetPolicy { scidd, .. } => scidd == mirror,
                    LayerOpView::Inform { scidd, .. } => scidd == mirror,
                    LayerOpView::Disable { .. } => false,
                    LayerOpView::DisableNode { .. } => false,
                }
            },
    decreases n,
{
    let all = mirror_list(self_id, destinations, chans, snap, min_part_msat, n);
    let k = choose|k: int| 0 <= k < all.len() && all[k] == op;
    if n > 0 {
        let before = mirror_list(self_id, destinations, chans, snap, min_part_msat, n - 1);
        let d = destinations[n - 1];
        let chan = chans[d.scid@];
        let mirror = mirror_scidd(n - 1, chan.peer_id);
        let home = real_scidd(d.scid@, chan.peer_id, self_id);
        let one = mirror_one(n - 1, d.max_msat, chan, min_part_msat);
        let learned = mirror_overrides(mirror, home, snap, min_part_msat);
        assert(all =~= before + one + learned);
        if k < before.len() {
            assert(before[k] == op);
            law_mirror_writes_are_of_destinations(
                self_id,
                destinations,
                chans,
                snap,
                min_part_msat,
                n - 1,
                op,
            );
        } else if k < before.len() + one.len() {
            assert(one[k - before.len()] == op);
        } else {
            let at = k - before.len() - one.len();
            assert(learned[at] == op);
            law_learned_writes_are_the_mirrors(mirror, home, snap, min_part_msat, at);
        }
    }
}

/// Every mask is of one of our own channels: it closes a direction of it,
/// or bounds the direction out of it.
pub proof fn law_masks_are_of_our_channels(
    self_id: Seq<char>,
    sources: Seq<ChanSpec>,
    keys: Seq<Seq<char>>,
    chans: Map<Seq<char>, ChanView>,
    n: int,
    op: LayerOpView,
)
    requires
        0 <= n <= keys.len(),
        mask_list(self_id, sources, keys, chans, n).contains(op),
    ensures
        exists|i: int|
            0 <= i < n && {
                let peer_id = chans[#[trigger] keys[i]].peer_id;
                let (inbound, outbound) = (
                    real_scidd(keys[i], peer_id, self_id),
                    real_scidd(keys[i], self_id, peer_id),
                );
                match op {
                    LayerOpView::Disable { scidd } => scidd == inbound || scidd == outbound,
                    LayerOpView::Inform { scidd, constrained, .. } => scidd == outbound
                        && constrained,
                    _ => false,
                }
            },
    decreases n,
{
    let all = mask_list(self_id, sources, keys, chans, n);
    let k = choose|k: int| 0 <= k < all.len() && all[k] == op;
    if n > 0 {
        let before = mask_list(self_id, sources, keys, chans, n - 1);
        let one = mask_one(self_id, sources, keys[n - 1], chans[keys[n - 1]]);
        if k < before.len() {
            assert(before[k] == op);
            law_masks_are_of_our_channels(self_id, sources, keys, chans, n - 1, op);
        } else {
            assert(one[k - before.len()] == op);
        }
    }
}

} // verus!
