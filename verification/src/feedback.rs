//! What a part's outcome teaches.
//!
//! Liquidity goes to the persistent layer: what a hop demonstrably
//! carried, and what it could not.  Everything else -- a forwarder's
//! current policy, a channel that cannot be priced or is gone, a node
//! that fails -- goes to the override store (overrides.rs) and expires
//! there.

use crate::channels::scidd_of;
use crate::exec;
use crate::exec::{erring_hop, PartHop, PartHopView};
use crate::json::Json;
use crate::layer::{LayerOp, LayerOpView};
use crate::onion_error;
use crate::onion_error::{classify_fee_insufficient, parse_chan_update, ChanUpdate, FeeFault};
use crate::outside;
use crate::overrides;
use crate::overrides::{Overrides, OverridesView};
use crate::text;
use crate::text::same_text;
use vstd::prelude::*;
use vstd::string::*;

verus! {

/// BOLT 4 temporary_channel_failure (UPDATE|7): a liquidity failure,
/// the one failure class whose feedback belongs in the persistent
/// layer.
pub const WIRE_TEMPORARY_CHANNEL_FAILURE: u64 = 0x1007;

/// BOLT 4 amount_below_minimum (UPDATE|11).
pub const WIRE_AMOUNT_BELOW_MINIMUM: u64 = 0x100b;

/// BOLT 4 fee_insufficient (UPDATE|12).
pub const WIRE_FEE_INSUFFICIENT: u64 = 0x100c;

/// BOLT 4 incorrect_cltv_expiry (UPDATE|13).
pub const WIRE_INCORRECT_CLTV_EXPIRY: u64 = 0x100d;

/// BOLT 4 expiry_too_soon (UPDATE|14).
pub const WIRE_EXPIRY_TOO_SOON: u64 = 0x100e;

/// BOLT 4 unknown_next_peer (PERM|10).
pub const WIRE_UNKNOWN_NEXT_PEER: u64 = 0x400a;

/// BOLT 4's NODE flag: the failure is the node's, not a channel's.
pub const NODE_FLAG: u64 = 0x2000;

/// One thing an outcome teaches.
#[derive(Debug)]
pub enum Lesson {
    /// The channel direction carried the amount, or could not
    /// ("constrained").
    Liquidity { scidd: String, amount_msat: u64, constrained: bool },
    /// The channel direction's policy is this one.
    Policy { scidd: String, policy: ChanUpdate },
    /// The channel direction is to be avoided for a while.
    Exclude { scidd: String },
    /// The node is to be avoided for a while.
    DisableNode { node: String },
}

/// A lesson with its texts as characters.
pub enum LessonView {
    Liquidity { scidd: Seq<char>, amount_msat: u64, constrained: bool },
    Policy { scidd: Seq<char>, policy: ChanUpdate },
    Exclude { scidd: Seq<char> },
    DisableNode { node: Seq<char> },
}

impl View for Lesson {
    type V = LessonView;

    open spec fn view(&self) -> LessonView {
        match *self {
            Lesson::Liquidity { scidd, amount_msat, constrained } => LessonView::Liquidity {
                scidd: scidd@,
                amount_msat,
                constrained,
            },
            Lesson::Policy { scidd, policy } => LessonView::Policy { scidd: scidd@, policy },
            Lesson::Exclude { scidd } => LessonView::Exclude { scidd: scidd@ },
            Lesson::DisableNode { node } => LessonView::DisableNode { node: node@ },
        }
    }
}

/// A run of lessons with their texts as characters.
pub open spec fn lesson_views(lessons: Seq<Lesson>) -> Seq<LessonView> {
    lessons.map_values(|l: Lesson| l@)
}

/// What the first `n` hops proved: each NETWORK hop demonstrably carried
/// its amount.  Our own channels are left out (auto.localchans owns
/// local truth).
pub open spec fn proven(hops: Seq<PartHopView>, n: int) -> Seq<LessonView>
    decreases n,
{
    if n <= 0 {
        seq![]
    } else if hops[n - 1].ours {
        proven(hops, n - 1)
    } else {
        proven(hops, n - 1).push(
            LessonView::Liquidity {
                scidd: hops[n - 1].scidd,
                amount_msat: hops[n - 1].amount_msat,
                constrained: false,
            },
        )
    }
}

/// Avoid hop `i`, where there is one.  It may well be our own channel:
/// what a peer enforces on it is nothing that local truth knows.
pub open spec fn exclusion(hops: Seq<PartHopView>, i: int) -> Seq<LessonView> {
    if 0 <= i < hops.len() {
        seq![LessonView::Exclude { scidd: hops[i].scidd }]
    } else {
        seq![]
    }
}

/// What a liquidity failure at hop `k` teaches: the hop could not pass
/// its amount, and every network hop before it demonstrably forwarded.
pub open spec fn liquidity_lessons(hops: Seq<PartHopView>, k: int) -> Seq<LessonView> {
    proven(hops, k) + (if hops[k].ours {
        seq![]
    } else {
        seq![
            LessonView::Liquidity {
                scidd: hops[k].scidd,
                amount_msat: hops[k].amount_msat,
                constrained: true,
            },
        ]
    })
}

/// Whether an update states no policy at all: some forwarders zero it
/// for privacy.
pub open spec fn is_blank(cu: ChanUpdate) -> bool {
    cu.cltv_expiry_delta == 0 && cu.htlc_minimum_msat == 0 && cu.fee_base_msat == 0
        && cu.fee_proportional_millionths == 0 && cu.htlc_maximum_msat == 0
}

/// The policy a failure carries, if it carries one.
pub open spec fn carried_policy(data: Json) -> Option<ChanUpdate> {
    match data.at("raw_message"@).text() {
        None => None,
        Some(raw) => match outside::hex_decoded(raw) {
            None => None,
            Some(bytes) => match onion_error::payload_update(bytes) {
                Some(cu) => if is_blank(cu) {
                    None
                } else {
                    Some(cu)
                },
                None => None,
            },
        },
    }
}

/// What a returned policy for hop `k` teaches: the stale values are
/// overridden, but where the "refreshed" values equal what gossip or
/// the store already said, the channel is avoided instead.
pub open spec fn refresh_lessons(
    hops: Seq<PartHopView>,
    k: int,
    cu: ChanUpdate,
    store: OverridesView,
    gossip: Option<ChanUpdate>,
    now: u64,
) -> Seq<LessonView> {
    if store.repeats(hops[k].scidd, cu, now) || (gossip matches Some(g) && g.agrees(cu)) {
        seq![LessonView::Exclude { scidd: hops[k].scidd }]
    } else {
        seq![LessonView::Policy { scidd: hops[k].scidd, policy: cu }]
    }
}

/// The fee the route allocated at the node before hop `k`.
pub open spec fn allocated(hops: Seq<PartHopView>, k: int) -> u64 {
    if 0 < k && hops[k - 1].amount_msat >= hops[k].amount_msat {
        (hops[k - 1].amount_msat - hops[k].amount_msat) as u64
    } else {
        0
    }
}

/// What a fee_insufficient at hop `k` teaches.  Without an update to
/// compare, stale gossip and an inbound fee look the same, so both
/// candidate channels are avoided; a positive inbound fee, which the
/// sender cannot price, indicts the incoming channel.
pub open spec fn fee_lessons(
    hops: Seq<PartHopView>,
    k: int,
    update: Option<ChanUpdate>,
    store: OverridesView,
    gossip: Option<ChanUpdate>,
    now: u64,
) -> Seq<LessonView> {
    match update {
        None => exclusion(hops, k - 1) + exclusion(hops, k),
        Some(cu) => match onion_error::fee_fault(
            allocated(hops, k),
            hops[k].amount_msat,
            Some(cu),
        ) {
            FeeFault::Inbound => exclusion(hops, k - 1),
            FeeFault::StaleOutbound => refresh_lessons(hops, k, cu, store, gossip, now),
        },
    }
}

/// What a node-level failure teaches: the node is avoided, never our
/// own.
pub open spec fn node_lessons(data: Json, self_id: Option<Seq<char>>) -> Seq<LessonView> {
    match (data.at("erring_node"@).text(), self_id) {
        (Some(node), Some(us)) => if node != us {
            seq![LessonView::DisableNode { node }]
        } else {
            seq![]
        },
        _ => seq![],
    }
}

/// Whether a failcode is a node's failure.
pub open spec fn is_node_level(failcode: u64) -> bool {
    (failcode / NODE_FLAG) % 2 == 1
}

/// What a failure with the failcode `failcode` at hop `k` teaches.
pub open spec fn hop_lessons(
    hops: Seq<PartHopView>,
    k: int,
    failcode: u64,
    data: Json,
    store: OverridesView,
    gossip: Option<ChanUpdate>,
    now: u64,
) -> Seq<LessonView> {
    if failcode == WIRE_TEMPORARY_CHANNEL_FAILURE {
        liquidity_lessons(hops, k)
    } else if failcode == WIRE_UNKNOWN_NEXT_PEER {
        exclusion(hops, k)
    } else if failcode == WIRE_FEE_INSUFFICIENT {
        fee_lessons(hops, k, carried_policy(data), store, gossip, now)
    } else if failcode == WIRE_AMOUNT_BELOW_MINIMUM || failcode == WIRE_INCORRECT_CLTV_EXPIRY
        || failcode == WIRE_EXPIRY_TOO_SOON {
        match carried_policy(data) {
            Some(cu) => refresh_lessons(hops, k, cu, store, gossip, now),
            None => seq![],
        }
    } else {
        seq![]
    }
}

/// What a failure's data teaches.
pub open spec fn failure_lessons(
    hops: Seq<PartHopView>,
    data: Json,
    self_id: Option<Seq<char>>,
    store: OverridesView,
    gossip: Option<ChanUpdate>,
    now: u64,
) -> Seq<LessonView> {
    match data.at("failcode"@).uint() {
        None => seq![],
        Some(failcode) => if is_node_level(failcode) {
            node_lessons(data, self_id)
        } else {
            match exec::erring_index(hops, data) {
                None => seq![],
                Some(k) => hop_lessons(hops, k, failcode, data, store, gossip, now),
            }
        },
    }
}

fn push_proven(out: &mut Vec<Lesson>, hops: &[PartHop], n: usize)
    requires
        n <= hops@.len(),
        old(out)@.len() == 0,
    ensures
        lesson_views(final(out)@) == proven(exec::hop_views(hops@), n as int),
{
    proof {
        assert(lesson_views(out@) =~= seq![]);
    }
    for i in 0..n
        invariant
            n <= hops@.len(),
            lesson_views(out@) == proven(exec::hop_views(hops@), i as int),
    {
        let h = &hops[i];
        proof {
            assert(exec::hop_views(hops@)[i as int] == h@);
        }
        if !h.ours {
            let ghost before = out@;
            let lesson = Lesson::Liquidity {
                scidd: h.scidd.clone(),
                amount_msat: h.amount_msat,
                constrained: false,
            };
            out.push(lesson);
            proof {
                assert(lesson_views(out@) =~= lesson_views(before).push(lesson@));
            }
        }
    }
}

/// What a settled part teaches: every network hop demonstrably carried
/// its amount.
pub fn success_feedback(hops: &[PartHop]) -> (r: Vec<Lesson>)
    ensures
        lesson_views(r@) == proven(exec::hop_views(hops@), hops@.len() as int),
{
    let mut out: Vec<Lesson> = Vec::new();
    push_proven(&mut out, hops, hops.len());
    out
}

fn liquidity_feedback(hops: &[PartHop], k: usize) -> (r: Vec<Lesson>)
    requires
        k < hops@.len(),
    ensures
        lesson_views(r@) == liquidity_lessons(exec::hop_views(hops@), k as int),
{
    let mut out: Vec<Lesson> = Vec::new();
    push_proven(&mut out, hops, k);
    let h = &hops[k];
    let ghost before = out@;
    proof {
        assert(exec::hop_views(hops@)[k as int] == h@);
    }
    if !h.ours {
        out.push(
            Lesson::Liquidity {
                scidd: h.scidd.clone(),
                amount_msat: h.amount_msat,
                constrained: true,
            },
        );
    }
    proof {
        assert(lesson_views(out@) =~= liquidity_lessons(exec::hop_views(hops@), k as int));
    }
    out
}

fn push_exclusion(out: &mut Vec<Lesson>, hops: &[PartHop], i: usize)
    requires
        i < hops@.len(),
    ensures
        lesson_views(final(out)@) == lesson_views(old(out)@) + exclusion(
            exec::hop_views(hops@),
            i as int,
        ),
{
    let h = &hops[i];
    proof {
        assert(exec::hop_views(hops@)[i as int] == h@);
    }
    out.push(Lesson::Exclude { scidd: h.scidd.clone() });
    proof {
        assert(lesson_views(final(out)@) =~= lesson_views(old(out)@) + exclusion(
            exec::hop_views(hops@),
            i as int,
        ));
    }
}

fn policy_in(data: &Json) -> (r: Option<ChanUpdate>)
    ensures
        r == carried_policy(*data),
{
    let raw = match data.text_at("raw_message") {
        Some(s) => s,
        None => return None,
    };
    match parse_chan_update(raw) {
        Some(cu) => if cu.cltv_expiry_delta == 0 && cu.htlc_minimum_msat == 0 && cu.fee_base_msat
            == 0 && cu.fee_proportional_millionths == 0 && cu.htlc_maximum_msat == 0 {
            None
        } else {
            Some(cu)
        },
        None => None,
    }
}

fn refresh_feedback(
    hops: &[PartHop],
    k: usize,
    cu: ChanUpdate,
    store: &Overrides,
    gossip: Option<ChanUpdate>,
    now: u64,
) -> (r: Vec<Lesson>)
    requires
        k < hops@.len(),
        store.wf(),
    ensures
        lesson_views(r@) == refresh_lessons(
            exec::hop_views(hops@),
            k as int,
            cu,
            store@,
            gossip,
            now,
        ),
{
    let mut out: Vec<Lesson> = Vec::new();
    let h = &hops[k];
    proof {
        assert(exec::hop_views(hops@)[k as int] == h@);
    }
    let advertised = match gossip {
        Some(g) => g.same_policy(&cu),
        None => false,
    };
    if store.is_repeat(h.scidd.as_str(), &cu, now) || advertised {
        out.push(Lesson::Exclude { scidd: h.scidd.clone() });
    } else {
        out.push(Lesson::Policy { scidd: h.scidd.clone(), policy: cu });
    }
    proof {
        assert(lesson_views(out@) =~= refresh_lessons(
            exec::hop_views(hops@),
            k as int,
            cu,
            store@,
            gossip,
            now,
        ));
    }
    out
}

fn fee_feedback(
    hops: &[PartHop],
    k: usize,
    update: Option<ChanUpdate>,
    store: &Overrides,
    gossip: Option<ChanUpdate>,
    now: u64,
) -> (r: Vec<Lesson>)
    requires
        k < hops@.len(),
        store.wf(),
    ensures
        lesson_views(r@) == fee_lessons(
            exec::hop_views(hops@),
            k as int,
            update,
            store@,
            gossip,
            now,
        ),
{
    let ghost hv = exec::hop_views(hops@);
    let mut out: Vec<Lesson> = Vec::new();
    proof {
        assert(lesson_views(out@) =~= seq![]);
        assert(hv[k as int] == hops@[k as int]@);
        if k > 0 {
            assert(hv[k - 1] == hops@[k - 1]@);
        }
    }
    match update {
        None => {
            if k > 0 {
                push_exclusion(&mut out, hops, k - 1);
            }
            push_exclusion(&mut out, hops, k);
            proof {
                assert(lesson_views(out@) =~= exclusion(hv, k - 1) + exclusion(hv, k as int));
            }
        },
        Some(cu) => {
            let alloc_msat: u64 = if k > 0 {
                hops[k - 1].amount_msat.saturating_sub(hops[k].amount_msat)
            } else {
                0
            };
            match classify_fee_insufficient(alloc_msat, hops[k].amount_msat, Some(&cu)) {
                FeeFault::Inbound => {
                    if k > 0 {
                        push_exclusion(&mut out, hops, k - 1);
                    }
                    proof {
                        assert(lesson_views(out@) =~= exclusion(hv, k - 1));
                    }
                },
                FeeFault::StaleOutbound => {
                    return refresh_feedback(hops, k, cu, store, gossip, now);
                },
            }
        },
    }
    out
}

fn node_feedback(data: &Json, self_id: Option<&str>) -> (r: Vec<Lesson>)
    ensures
        lesson_views(r@) == node_lessons(
            *data,
            match self_id {
                Some(s) => Some(s@),
                None => None,
            },
        ),
{
    let mut out: Vec<Lesson> = Vec::new();
    if let Some(node) = data.text_at("erring_node") {
        if let Some(us) = self_id {
            if !same_text(node, us) {
                out.push(Lesson::DisableNode { node: node.to_owned() });
            }
        }
    }
    proof {
        assert(lesson_views(out@) =~= node_lessons(
            *data,
            match self_id {
                Some(s) => Some(s@),
                None => None,
            },
        ));
    }
    out
}

/// What a failed part teaches.  `gossip` is the policy gossip
/// advertises for the erring hop, where it is known.
#[verifier::rlimit(40)]
pub fn failure_feedback(
    hops: &[PartHop],
    data: &Json,
    self_id: Option<&str>,
    store: &Overrides,
    gossip: Option<ChanUpdate>,
    now: u64,
) -> (r: Vec<Lesson>)
    requires
        store.wf(),
    ensures
        lesson_views(r@) == failure_lessons(
            exec::hop_views(hops@),
            *data,
            match self_id {
                Some(s) => Some(s@),
                None => None,
            },
            store@,
            gossip,
            now,
        ),
        forall|i: int|
            0 <= i < r@.len() ==> ((#[trigger] r@[i])@ matches LessonView::Policy { scidd, policy }
                ==> !store@.repeats(scidd, policy, now) && (gossip matches Some(g) ==> !g.agrees(
                policy,
            ))),
{
    let mut out: Vec<Lesson> = Vec::new();
    let ghost hv = exec::hop_views(hops@);
    let ghost us = match self_id {
        Some(s) => Some(s@),
        None => None,
    };
    let ghost taught = failure_lessons(hv, *data, us, store@, gossip, now);
    proof {
        assert forall|i: int| 0 <= i < taught.len() implies (
        #[trigger] taught[i] matches LessonView::Policy { scidd, policy } ==> !store@.repeats(
            scidd,
            policy,
            now,
        ) && (gossip matches Some(g) ==> !g.agrees(policy))) by {
            law_refreshes_say_something_new(hv, *data, us, store@, gossip, now, i);
        }
        assert forall|v: Seq<Lesson>, i: int|
            lesson_views(v) == taught && 0 <= i < v.len() implies #[trigger] v[i]@ == taught[i] by {
            assert(lesson_views(v)[i] == v[i]@);
        }
        assert(lesson_views(out@) =~= seq![]);
    }
    let failcode: u64 = match data.uint_at("failcode") {
        Some(n) => n,
        None => return out,
    };
    if (failcode / NODE_FLAG) % 2 == 1 {
        return node_feedback(data, self_id);
    }
    let k: usize = match erring_hop(hops, data) {
        Some(k) => k,
        None => return out,
    };
    if failcode == WIRE_TEMPORARY_CHANNEL_FAILURE {
        return liquidity_feedback(hops, k);
    }
    if failcode == WIRE_UNKNOWN_NEXT_PEER {
        push_exclusion(&mut out, hops, k);
        proof {
            assert(lesson_views(out@) =~= exclusion(hv, k as int));
        }
        return out;
    }
    if failcode == WIRE_FEE_INSUFFICIENT {
        return fee_feedback(hops, k, policy_in(data), store, gossip, now);
    }
    if failcode == WIRE_AMOUNT_BELOW_MINIMUM || failcode == WIRE_INCORRECT_CLTV_EXPIRY || failcode
        == WIRE_EXPIRY_TOO_SOON {
        return match policy_in(data) {
            Some(cu) => refresh_feedback(hops, k, cu, store, gossip, now),
            None => out,
        };
    }
    out
}

/// The policy an entry of listchannels advertises.
pub open spec fn advertised(entry: Json) -> Option<ChanUpdate> {
    match (
        entry.at("delay"@).uint(),
        entry.at("htlc_minimum_msat"@).uint(),
        entry.at("base_fee_millisatoshi"@).uint(),
        entry.at("fee_per_millionth"@).uint(),
        entry.at("htlc_maximum_msat"@).uint(),
    ) {
        (Some(delay), Some(min), Some(base), Some(prop), Some(max)) => if delay <= u16::MAX && base
            <= u32::MAX && prop <= u32::MAX {
            Some(
                ChanUpdate {
                    enabled: entry.at("active"@) == Json::Bool(true),
                    cltv_expiry_delta: delay as u16,
                    htlc_minimum_msat: min,
                    fee_base_msat: base as u32,
                    fee_proportional_millionths: prop as u32,
                    htlc_maximum_msat: max,
                    inbound_fee: None,
                },
            )
        } else {
            None
        },
        _ => None,
    }
}

/// The policy the first entry at or after `i` for the channel direction
/// advertises.
pub open spec fn gossip_from(entries: Seq<Json>, scidd: Seq<char>, i: int) -> Option<ChanUpdate>
    decreases entries.len() - i,
{
    if i < 0 || i >= entries.len() {
        None
    } else if names_direction(entries[i], scidd) {
        advertised(entries[i])
    } else {
        gossip_from(entries, scidd, i + 1)
    }
}

/// Whether an entry of listchannels is for the channel direction.
pub open spec fn names_direction(entry: Json, scidd: Seq<char>) -> bool {
    match (entry.at("short_channel_id"@).text(), entry.at("direction"@).uint()) {
        (Some(scid), Some(dir)) => crate::channels::scidd(scid, dir) == scidd,
        _ => false,
    }
}

fn advertised_by(entry: &Json) -> (r: Option<ChanUpdate>)
    ensures
        r == advertised(*entry),
{
    let delay: u64 = match entry.uint_at("delay") {
        Some(n) => n,
        None => return None,
    };
    let min: u64 = match entry.uint_at("htlc_minimum_msat") {
        Some(n) => n,
        None => return None,
    };
    let base: u64 = match entry.uint_at("base_fee_millisatoshi") {
        Some(n) => n,
        None => return None,
    };
    let prop: u64 = match entry.uint_at("fee_per_millionth") {
        Some(n) => n,
        None => return None,
    };
    let max: u64 = match entry.uint_at("htlc_maximum_msat") {
        Some(n) => n,
        None => return None,
    };
    if delay <= u16::MAX as u64 && base <= u32::MAX as u64 && prop <= u32::MAX as u64 {
        Some(
            ChanUpdate {
                enabled: entry.flag_at("active"),
                cltv_expiry_delta: delay as u16,
                htlc_minimum_msat: min,
                fee_base_msat: base as u32,
                fee_proportional_millionths: prop as u32,
                htlc_maximum_msat: max,
                inbound_fee: None,
            },
        )
    } else {
        None
    }
}

/// The policy gossip advertises for a channel direction.  `listed` is
/// the reply of listchannels.
pub fn gossip_policy(listed: &Json, scidd: &str) -> (r: Option<ChanUpdate>)
    ensures
        r == gossip_from(listed.at("channels"@).elements(), scidd@, 0),
{
    let entries = match listed.items_at("channels") {
        Some(e) => e,
        None => return None,
    };
    for i in 0..entries.len()
        invariant
            entries@ == listed.at("channels"@).elements(),
            gossip_from(entries@, scidd@, 0) == gossip_from(entries@, scidd@, i as int),
    {
        let entry = &entries[i];
        let named = match (entry.text_at("short_channel_id"), entry.uint_at("direction")) {
            (Some(scid), Some(dir)) => same_text(scidd_of(scid, dir).as_str(), scidd),
            _ => false,
        };
        if named {
            return advertised_by(entry);
        }
    }
    None
}

/// The store once it has taken a lesson in.  Liquidity is not for it.
pub open spec fn taught(store: OverridesView, lesson: LessonView, now: u64) -> OverridesView {
    match lesson {
        LessonView::Liquidity { .. } => store,
        LessonView::Policy { scidd, policy } => store.with_policy(scidd, policy, now),
        LessonView::Exclude { scidd } => store.with_exclusion(scidd, now),
        LessonView::DisableNode { node } => store.with_disabled_node(node, now),
    }
}

/// Take a lesson into the override store.  False for liquidity, which
/// belongs in the persistent layer.
pub fn learn(store: &mut Overrides, lesson: &Lesson, now: u64) -> (r: bool)
    requires
        old(store).wf(),
    ensures
        final(store).wf(),
        final(store)@ == taught(old(store)@, lesson@, now),
        r == !(lesson@ is Liquidity),
{
    match lesson {
        Lesson::Liquidity { .. } => false,
        Lesson::Policy { scidd, policy } => {
            store.record_policy(scidd.as_str(), *policy, now);
            true
        },
        Lesson::Exclude { scidd } => {
            store.record_exclusion(scidd.as_str(), now);
            true
        },
        Lesson::DisableNode { node } => {
            store.record_disabled_node(node.as_str(), now);
            true
        },
    }
}

/// The coalescer's key for a liquidity write.
pub open spec fn inform_key_of(scidd: Seq<char>, constrained: bool) -> Seq<char> {
    scidd + "|"@ + (if constrained {
        "constrained"@
    } else {
        "unconstrained"@
    })
}

/// The coalescer's key for a liquidity write.
pub fn inform_key(scidd: &str, constrained: bool) -> (r: String)
    ensures
        r@ == inform_key_of(scidd@, constrained),
{
    let mut out = scidd.to_owned();
    out.append("|");
    if constrained {
        out.append("constrained");
    } else {
        out.append("unconstrained");
    }
    out
}

/// Each channel direction and kind of bound has a key of its own.
pub proof fn law_inform_keys_differ(a: Seq<char>, x: bool, b: Seq<char>, y: bool)
    ensures
        inform_key_of(a, x) == inform_key_of(b, y) ==> a == b && x == y,
{
    reveal_strlit("|");
    reveal_strlit("constrained");
    reveal_strlit("unconstrained");
    let (k, l) = (inform_key_of(a, x), inform_key_of(b, y));
    if k == l {
        // What stands before the last "constrained" tells the kinds apart.
        assert(k[k.len() - 12] == if x {
            '|'
        } else {
            'n'
        });
        assert(l[l.len() - 12] == if y {
            '|'
        } else {
            'n'
        });
        assert(a =~= k.take(a.len() as int));
        assert(b =~= l.take(b.len() as int));
    }
}

/// A liquidity lesson as the write it asks for.
#[derive(Debug)]
pub struct LiquidityWrite {
    /// The coalescer's key for it.
    pub key: String,
    /// What the channel carried bounds its liquidity from below; what it
    /// could not carry, from above.
    pub is_lower_bound: bool,
    pub amount_msat: u64,
    /// The write into the persistent layer.
    pub op: LayerOp<'static>,
}

/// The write a lesson asks of the persistent layer; None for one that
/// belongs in the override store.
pub fn liquidity_write(lesson: &Lesson) -> (r: Option<LiquidityWrite>)
    ensures
        match (r, lesson@) {
            (Some(w), LessonView::Liquidity { scidd, amount_msat, constrained }) => {
                &&& w.key@ == inform_key_of(scidd, constrained)
                &&& w.is_lower_bound == !constrained
                &&& w.amount_msat == amount_msat
                &&& w.op@ == (LayerOpView::Inform { scidd, amount_msat, constrained })
            },
            (r, l) => r is None && !(l is Liquidity),
        },
{
    match lesson {
        Lesson::Liquidity { scidd, amount_msat, constrained } => Some(
            LiquidityWrite {
                key: inform_key(scidd.as_str(), *constrained),
                is_lower_bound: !*constrained,
                amount_msat: *amount_msat,
                op: LayerOp::Inform {
                    scidd: scidd.clone(),
                    amount_msat: *amount_msat,
                    constrained: *constrained,
                },
            },
        ),
        _ => None,
    }
}

/// A channel direction a lesson is about.
pub open spec fn taught_scidd(l: LessonView) -> Option<Seq<char>> {
    match l {
        LessonView::Liquidity { scidd, .. } => Some(scidd),
        LessonView::Policy { scidd, .. } => Some(scidd),
        LessonView::Exclude { scidd } => Some(scidd),
        LessonView::DisableNode { .. } => None,
    }
}

proof fn lemma_proven_is_network(hops: Seq<PartHopView>, n: int, i: int)
    requires
        0 <= n <= hops.len(),
        0 <= i < proven(hops, n).len(),
    ensures
        exists|j: int|
            0 <= j < n && !(#[trigger] hops[j]).ours && taught_scidd(proven(hops, n)[i]) == Some(
                hops[j].scidd,
            ),
        proven(hops, n)[i] matches LessonView::Liquidity { constrained, .. } && !constrained,
    decreases n,
{
    let before = proven(hops, n - 1);
    if hops[n - 1].ours || i < before.len() {
        lemma_proven_is_network(hops, n - 1, i);
        assert(proven(hops, n)[i] == before[i]);
    } else {
        assert(!hops[n - 1].ours);
    }
}

/// A settled part teaches every network hop's liquidity and nothing of
/// our own channels; each lesson is a lower bound.
pub proof fn law_success_teaches_the_network(hops: Seq<PartHopView>, i: int)
    requires
        0 <= i < proven(hops, hops.len() as int).len(),
    ensures
        exists|j: int|
            0 <= j < hops.len() && !(#[trigger] hops[j]).ours && taught_scidd(
                proven(hops, hops.len() as int)[i],
            ) == Some(hops[j].scidd),
        proven(hops, hops.len() as int)[i] matches LessonView::Liquidity { constrained, .. }
            && !constrained,
{
    lemma_proven_is_network(hops, hops.len() as int, i);
}

/// No network hop is left out of what the first `n` hops proved: neither
/// where the part settled, nor where it got no further.
pub proof fn law_success_is_complete(hops: Seq<PartHopView>, n: int, j: int)
    requires
        0 <= j < n <= hops.len(),
        !hops[j].ours,
    ensures
        proven(hops, n).contains(
            LessonView::Liquidity {
                scidd: hops[j].scidd,
                amount_msat: hops[j].amount_msat,
                constrained: false,
            },
        ),
    decreases n,
{
    let before = proven(hops, n - 1);
    let all = proven(hops, n);
    let lesson = LessonView::Liquidity {
        scidd: hops[j].scidd,
        amount_msat: hops[j].amount_msat,
        constrained: false,
    };
    if j < n - 1 {
        law_success_is_complete(hops, n - 1, j);
        let k = choose|k: int| 0 <= k < before.len() && before[k] == lesson;
        assert(all[k] == lesson);
    } else {
        assert(all.last() == lesson);
    }
}

/// A forwarder that returns the policy it already returned gets its
/// channel avoided: once the refresh was taken in, and while it is young,
/// the same update teaches an exclusion, whatever gossip says by then.
pub proof fn law_a_repeated_refresh_excludes(
    hops: Seq<PartHopView>,
    k: int,
    cu: ChanUpdate,
    store: OverridesView,
    now: u64,
    gossip: Option<ChanUpdate>,
    later: u64,
)
    requires
        0 <= k < hops.len(),
        overrides::is_young(now, later, store.max_age),
    ensures
        refresh_lessons(
            hops,
            k,
            cu,
            taught(store, LessonView::Policy { scidd: hops[k].scidd, policy: cu }, now),
            gossip,
            later,
        ) == seq![LessonView::Exclude { scidd: hops[k].scidd }],
{
}

/// A fee_insufficient behind another hop always teaches: an inbound fee
/// excludes the surcharging incoming channel, and one without an update
/// to compare excludes both candidates -- our own channels no less than
/// others.
pub proof fn law_fee_failures_exclude(
    hops: Seq<PartHopView>,
    k: int,
    update: Option<ChanUpdate>,
    store: OverridesView,
    gossip: Option<ChanUpdate>,
    now: u64,
)
    requires
        0 < k < hops.len(),
    ensures
        update is None ==> fee_lessons(hops, k, update, store, gossip, now) == seq![
            LessonView::Exclude { scidd: hops[k - 1].scidd },
            LessonView::Exclude { scidd: hops[k].scidd },
        ],
        update is Some && onion_error::fee_fault(allocated(hops, k), hops[k].amount_msat, update)
            == FeeFault::Inbound ==> fee_lessons(hops, k, update, store, gossip, now) == seq![
            LessonView::Exclude { scidd: hops[k - 1].scidd },
        ],
{
    assert(exclusion(hops, k - 1) + exclusion(hops, k) =~= seq![
        LessonView::Exclude { scidd: hops[k - 1].scidd },
        LessonView::Exclude { scidd: hops[k].scidd },
    ]);
}

/// Whatever a failure teaches of a channel is about a hop of the part,
/// and what it teaches of liquidity is about a network hop: local truth
/// never reaches the learned layer.  Our own node is never disabled.
pub proof fn law_failures_teach_of_the_route(
    hops: Seq<PartHopView>,
    data: Json,
    self_id: Option<Seq<char>>,
    store: OverridesView,
    gossip: Option<ChanUpdate>,
    now: u64,
    i: int,
)
    requires
        0 <= i < failure_lessons(hops, data, self_id, store, gossip, now).len(),
    ensures
        ({
            let l = failure_lessons(hops, data, self_id, store, gossip, now)[i];
            match l {
                LessonView::DisableNode { node } => self_id is Some && node != self_id->0,
                _ => exists|j: int|
                    0 <= j < hops.len() && (l is Liquidity ==> !(#[trigger] hops[j]).ours)
                        && taught_scidd(l) == Some(hops[j].scidd),
            }
        }),
{
    let lessons = failure_lessons(hops, data, self_id, store, gossip, now);
    let l = lessons[i];
    if !is_node_level(data.at("failcode"@).uint()->0) {
        let k = exec::erring_index(hops, data)->0;
        lemma_erring_in_range(hops, data);
        let p = proven(hops, k);
        let failcode = data.at("failcode"@).uint()->0;
        if failcode == WIRE_TEMPORARY_CHANNEL_FAILURE {
            if i < p.len() {
                lemma_proven_is_network(hops, k, i);
                assert(l == p[i]);
            } else {
                assert(!hops[k].ours);
            }
        } else if taught_scidd(l) == Some(hops[k].scidd) {
            assert(!(l is Liquidity));
        } else {
            assert(0 < k && taught_scidd(l) == Some(hops[k - 1].scidd));
        }
    }
}

proof fn lemma_erring_in_range(hops: Seq<PartHopView>, data: Json)
    requires
        exec::erring_index(hops, data) is Some,
    ensures
        0 <= exec::erring_index(hops, data)->0 < hops.len(),
{
    let chan = data.at("erring_channel"@).text()->0;
    let dir = data.at("erring_direction"@).uint()->0;
    lemma_named_in_range(hops, chan, dir, 0);
}

proof fn lemma_named_in_range(hops: Seq<PartHopView>, chan: Seq<char>, dir: u64, i: int)
    requires
        0 <= i,
        exec::named_from(hops, chan, dir, i) is Some,
    ensures
        i <= exec::named_from(hops, chan, dir, i)->0 < hops.len(),
    decreases hops.len() - i,
{
    if !exec::is_named(hops[i], chan, dir) {
        lemma_named_in_range(hops, chan, dir, i + 1);
    }
}

// ---------------------------------------------------------------------
// What each failure teaches
// ---------------------------------------------------------------------

/// What the first `n` hops proved is said of each network hop once, with
/// the amount it carried: there are as many lessons as such hops, and each
/// is one of theirs.
pub proof fn law_hops_prove_their_own_amount(hops: Seq<PartHopView>, n: int, i: int)
    requires
        0 <= n <= hops.len(),
        0 <= i < proven(hops, n).len(),
    ensures
        proven(hops, n).len() == hops.take(n).filter(|h: PartHopView| !h.ours).len(),
        exists|j: int|
            0 <= j < n && !(#[trigger] hops[j]).ours && proven(hops, n)[i]
                == (LessonView::Liquidity {
                scidd: hops[j].scidd,
                amount_msat: hops[j].amount_msat,
                constrained: false,
            }),
    decreases n,
{
    lemma_proven_count(hops, n);
    let before = proven(hops, n - 1);
    if hops[n - 1].ours || i < before.len() {
        law_hops_prove_their_own_amount(hops, n - 1, i);
        assert(proven(hops, n)[i] == before[i]);
    } else {
        assert(!hops[n - 1].ours);
    }
}

proof fn lemma_proven_count(hops: Seq<PartHopView>, n: int)
    requires
        0 <= n <= hops.len(),
    ensures
        proven(hops, n).len() == hops.take(n).filter(|h: PartHopView| !h.ours).len(),
    decreases n,
{
    reveal(Seq::filter);
    if n > 0 {
        lemma_proven_count(hops, n - 1);
        assert(hops.take(n).drop_last() =~= hops.take(n - 1));
        assert(hops.take(n).last() == hops[n - 1]);
    }
}

/// A temporary_channel_failure (0x1007) teaches of liquidity and nothing
/// else: the hop it names could not carry its amount, every network hop
/// before it carried its own, and nothing is said of the hops behind it or
/// of our own channels.
pub proof fn law_liquidity_failures_bound_the_erring_hop(
    hops: Seq<PartHopView>,
    data: Json,
    self_id: Option<Seq<char>>,
    store: OverridesView,
    gossip: Option<ChanUpdate>,
    now: u64,
    k: int,
    i: int,
)
    requires
        data.at("failcode"@) == Json::Uint(0x1007),
        exec::erring_index(hops, data) == Some(k),
    ensures
        ({
            let lessons = failure_lessons(hops, data, self_id, store, gossip, now);
            let says = |j: int, constrained: bool|
                LessonView::Liquidity {
                    scidd: hops[j].scidd,
                    amount_msat: hops[j].amount_msat,
                    constrained,
                };
            &&& 0 <= k < hops.len()
            &&& !hops[k].ours ==> lessons.len() > 0 && lessons.last() == says(k, true)
            &&& 0 <= i < k && !hops[i].ours ==> lessons.contains(says(i, false))
            &&& 0 <= i < lessons.len() ==> exists|j: int|
                0 <= j <= k && !(#[trigger] hops[j]).ours && lessons[i] == says(j, j == k)
        }),
{
    lemma_erring_in_range(hops, data);
    let lessons = failure_lessons(hops, data, self_id, store, gossip, now);
    let p = proven(hops, k);
    if 0 <= i < k && !hops[i].ours {
        law_success_is_complete(hops, k, i);
        let lesson = LessonView::Liquidity {
            scidd: hops[i].scidd,
            amount_msat: hops[i].amount_msat,
            constrained: false,
        };
        let w = choose|w: int| 0 <= w < p.len() && p[w] == lesson;
        assert(lessons[w] == lesson);
    }
    if 0 <= i < lessons.len() {
        if i < p.len() {
            law_hops_prove_their_own_amount(hops, k, i);
            assert(lessons[i] == p[i]);
        } else {
            assert(!hops[k].ours);
        }
    }
}

/// What a returned policy teaches where the failure is one of the
/// policy's: amount_below_minimum (0x100b), incorrect_cltv_expiry (0x100d)
/// and expiry_too_soon (0x100e).  A policy that is neither the one held
/// nor the one gossip advertises is taken over for the hop; one that is
/// gets the hop avoided; without one nothing is learned.
pub proof fn law_policy_failures_refresh_the_hop(
    hops: Seq<PartHopView>,
    data: Json,
    self_id: Option<Seq<char>>,
    store: OverridesView,
    gossip: Option<ChanUpdate>,
    now: u64,
    failcode: u64,
    k: int,
)
    requires
        failcode == 0x100b || failcode == 0x100d || failcode == 0x100e,
        data.at("failcode"@) == Json::Uint(failcode),
        exec::erring_index(hops, data) == Some(k),
    ensures
        ({
            let lessons = failure_lessons(hops, data, self_id, store, gossip, now);
            match carried_policy(data) {
                None => lessons.len() == 0,
                Some(cu) => {
                    let known = store.repeats(hops[k].scidd, cu, now) || (gossip matches Some(g)
                        && g.agrees(cu));
                    &&& known ==> lessons == seq![LessonView::Exclude { scidd: hops[k].scidd }]
                    &&& !known ==> lessons == seq![
                        LessonView::Policy { scidd: hops[k].scidd, policy: cu },
                    ]
                },
            }
        }),
{
}

/// What a fee_insufficient (0x100c) teaches.  Where the fee allocated at
/// the erring node covers the update it carries, the incoming channel is
/// avoided; where it does not, the outgoing channel's policy is refreshed;
/// without an update both are avoided.
pub proof fn law_fee_failures_indict_one_side(
    hops: Seq<PartHopView>,
    data: Json,
    self_id: Option<Seq<char>>,
    store: OverridesView,
    gossip: Option<ChanUpdate>,
    now: u64,
    k: int,
)
    requires
        data.at("failcode"@) == Json::Uint(0x100c),
        exec::erring_index(hops, data) == Some(k),
        0 < k,
    ensures
        ({
            let lessons = failure_lessons(hops, data, self_id, store, gossip, now);
            let avoid = |j: int| LessonView::Exclude { scidd: hops[j].scidd };
            match carried_policy(data) {
                None => lessons == seq![avoid(k - 1), avoid(k)],
                Some(cu) => {
                    let paid = if hops[k - 1].amount_msat > hops[k].amount_msat {
                        hops[k - 1].amount_msat - hops[k].amount_msat
                    } else {
                        0
                    };
                    let asked = cu.fee_base_msat + cu.fee_proportional_millionths
                        * hops[k].amount_msat / 1_000_000;
                    let known = store.repeats(hops[k].scidd, cu, now) || (gossip matches Some(g)
                        && g.agrees(cu));
                    &&& paid >= asked ==> lessons == seq![avoid(k - 1)]
                    &&& paid < asked && known ==> lessons == seq![avoid(k)]
                    &&& paid < asked && !known ==> lessons == seq![
                        LessonView::Policy { scidd: hops[k].scidd, policy: cu },
                    ]
                },
            }
        }),
{
    lemma_erring_in_range(hops, data);
    law_fee_failures_exclude(hops, k, carried_policy(data), store, gossip, now);
}

/// An unknown_next_peer (0x400a) gets the hop avoided, and nothing else.
/// A failure that names no hop of the part, or whose code is none of
/// those that teach, teaches nothing.
pub proof fn law_other_failures_teach_little(
    hops: Seq<PartHopView>,
    data: Json,
    self_id: Option<Seq<char>>,
    store: OverridesView,
    gossip: Option<ChanUpdate>,
    now: u64,
    failcode: u64,
)
    requires
        data.at("failcode"@) == Json::Uint(failcode),
        (failcode / 0x2000) % 2 == 0,
    ensures
        ({
            let lessons = failure_lessons(hops, data, self_id, store, gossip, now);
            match exec::erring_index(hops, data) {
                None => lessons.len() == 0,
                Some(k) => {
                    &&& failcode == 0x400a ==> lessons == seq![
                        LessonView::Exclude { scidd: hops[k].scidd },
                    ]
                    &&& failcode != 0x1007 && failcode != 0x400a && failcode != 0x100b && failcode
                        != 0x100c && failcode != 0x100d && failcode != 0x100e ==> lessons.len()
                        == 0
                },
            }
        }),
{
    if exec::erring_index(hops, data) is Some {
        lemma_erring_in_range(hops, data);
    }
}

/// A failure whose code has the NODE bit (0x2000) is the node's: it gets
/// the node avoided that it names, unless that is us or we do not know who
/// we are, and teaches nothing of a channel.
pub proof fn law_node_failures_avoid_the_node(
    hops: Seq<PartHopView>,
    data: Json,
    us: Seq<char>,
    store: OverridesView,
    gossip: Option<ChanUpdate>,
    now: u64,
    failcode: u64,
)
    requires
        data.at("failcode"@) == Json::Uint(failcode),
        failcode & 0x2000 != 0,
    ensures
        ({
            let lessons = failure_lessons(hops, data, Some(us), store, gossip, now);
            let node = data.at("erring_node"@);
            &&& node matches Json::Str(s) ==> lessons == if s@ != us {
                seq![LessonView::DisableNode { node: s@ }]
            } else {
                seq![]
            }
            &&& !(node is Str) ==> lessons.len() == 0
            &&& failure_lessons(hops, data, None, store, gossip, now).len() == 0
        }),
{
    assert((failcode / 0x2000) % 2 == 1) by (bit_vector)
        requires
            failcode & 0x2000 != 0,
    ;
}

/// A failure without a code teaches nothing; a code is the node's exactly
/// where it has the NODE bit.
pub proof fn law_failures_are_told_by_their_code(
    hops: Seq<PartHopView>,
    data: Json,
    self_id: Option<Seq<char>>,
    store: OverridesView,
    gossip: Option<ChanUpdate>,
    now: u64,
    failcode: u64,
)
    ensures
        !(data.at("failcode"@) is Uint) ==> failure_lessons(
            hops,
            data,
            self_id,
            store,
            gossip,
            now,
        ).len() == 0,
        is_node_level(failcode) <==> failcode & 0x2000 != 0,
{
    assert(((failcode / 0x2000) % 2 == 1) == (failcode & 0x2000 != 0)) by (bit_vector);
}

/// A failure carries the policy its raw message holds, unless that states
/// no policy at all: no delta, no minimum, no fees and no maximum.
pub proof fn law_failures_carry_what_they_hold(data: Json, bytes: Seq<u8>)
    requires
        data.at("raw_message"@) matches Json::Str(s) && outside::hex_decoded(s@) == Some(bytes),
    ensures
        match onion_error::payload_update(bytes) {
            None => carried_policy(data) is None,
            Some(cu) => if cu.cltv_expiry_delta == 0 && cu.htlc_minimum_msat == 0
                && cu.htlc_maximum_msat == 0 && cu.fee_base_msat == 0
                && cu.fee_proportional_millionths == 0 {
                carried_policy(data) is None
            } else {
                carried_policy(data) == Some(cu)
            },
        },
{
}

/// A failure without a raw message, or with one that is not hexadecimal,
/// carries no policy.
pub proof fn law_unreadable_messages_carry_nothing(data: Json)
    ensures
        !(data.at("raw_message"@) is Str) ==> carried_policy(data) is None,
        data.at("raw_message"@) matches Json::Str(s) ==> (outside::hex_decoded(s@) is None
            ==> carried_policy(data) is None),
{
}

/// Gossip advertises the policy of the first entry for the direction:
/// its delay, minimum, fees and maximum, enabled where it is active.
/// Where one of them is missing or out of range it advertises none.
pub proof fn law_gossip_is_read_from_its_entry(
    entry: Json,
    delay: u64,
    min_msat: u64,
    base_msat: u64,
    ppm: u64,
    max_msat: u64,
)
    requires
        entry.at("delay"@) == Json::Uint(delay),
        entry.at("htlc_minimum_msat"@) == Json::Uint(min_msat),
        entry.at("base_fee_millisatoshi"@) == Json::Uint(base_msat),
        entry.at("fee_per_millionth"@) == Json::Uint(ppm),
        entry.at("htlc_maximum_msat"@) == Json::Uint(max_msat),
    ensures
        match advertised(entry) {
            Some(p) => {
                &&& p.enabled == (entry.at("active"@) == Json::Bool(true))
                &&& p.cltv_expiry_delta == delay
                &&& p.htlc_minimum_msat == min_msat
                &&& p.fee_base_msat == base_msat
                &&& p.fee_proportional_millionths == ppm
                &&& p.htlc_maximum_msat == max_msat
            },
            None => delay >= 0x1_0000 || base_msat >= 0x1_0000_0000 || ppm >= 0x1_0000_0000,
        },
{
}

/// An entry that lacks a term advertises no policy.
pub proof fn law_incomplete_entries_advertise_nothing(entry: Json)
    ensures
        !(entry.at("delay"@) is Uint) || !(entry.at("htlc_minimum_msat"@) is Uint) || !(entry.at(
            "base_fee_millisatoshi"@,
        ) is Uint) || !(entry.at("fee_per_millionth"@) is Uint) || !(entry.at("htlc_maximum_msat"@)
            is Uint) ==> advertised(entry) is None,
{
}

proof fn lemma_gossip_at(entries: Seq<Json>, scidd: Seq<char>, i: int, k: int)
    requires
        0 <= i <= k <= entries.len(),
        forall|j: int| i <= j < k ==> !names_direction(#[trigger] entries[j], scidd),
    ensures
        gossip_from(entries, scidd, i) == gossip_from(entries, scidd, k),
    decreases k - i,
{
    if i < k {
        assert(!names_direction(entries[i], scidd));
        lemma_gossip_at(entries, scidd, i + 1, k);
    }
}

/// Gossip of a direction is read from the first entry whose channel and
/// direction are its own, and there is none where no entry's are.
pub proof fn law_gossip_is_the_first_entry_of_the_direction(
    entries: Seq<Json>,
    scidd: Seq<char>,
    k: int,
)
    ensures
        ({
            let named = |e: Json|
                match (e.at("short_channel_id"@), e.at("direction"@)) {
                    (Json::Str(s), Json::Uint(d)) => s@ + seq!['/'] + text::dec(d as nat) == scidd,
                    _ => false,
                };
            &&& (forall|j: int| 0 <= j < entries.len() ==> !named(#[trigger] entries[j]))
                ==> gossip_from(entries, scidd, 0) is None
            &&& 0 <= k < entries.len() && named(entries[k]) && (forall|j: int|
                0 <= j < k ==> !named(#[trigger] entries[j])) ==> gossip_from(entries, scidd, 0)
                == advertised(entries[k])
        }),
{
    reveal_strlit("/");
    assert("/"@ =~= seq!['/']);
    assert forall|j: int| 0 <= j < entries.len() implies names_direction(
        #[trigger] entries[j],
        scidd,
    ) == match (entries[j].at("short_channel_id"@), entries[j].at("direction"@)) {
        (Json::Str(s), Json::Uint(d)) => s@ + seq!['/'] + text::dec(d as nat) == scidd,
        _ => false,
    } by {}
    let named = |e: Json|
        match (e.at("short_channel_id"@), e.at("direction"@)) {
            (Json::Str(s), Json::Uint(d)) => s@ + seq!['/'] + text::dec(d as nat) == scidd,
            _ => false,
        };
    if forall|j: int| 0 <= j < entries.len() ==> !named(#[trigger] entries[j]) {
        lemma_gossip_at(entries, scidd, 0, entries.len() as int);
    }
    if 0 <= k < entries.len() && named(entries[k]) && (forall|j: int|
        0 <= j < k ==> !named(#[trigger] entries[j])) {
        lemma_gossip_at(entries, scidd, 0, k);
        assert(names_direction(entries[k], scidd));
    }
}

/// A lesson is taken in under its own name and the time it was learned,
/// and changes nothing else; liquidity is not for the store.
pub proof fn law_lessons_are_taken_in(
    store: OverridesView,
    name: Seq<char>,
    cu: ChanUpdate,
    amount_msat: u64,
    constrained: bool,
    now: u64,
)
    ensures
        taught(store, LessonView::Liquidity { scidd: name, amount_msat, constrained }, now) == store,
        ({
            let after = taught(store, LessonView::Policy { scidd: name, policy: cu }, now);
            &&& after.policies == store.policies.insert(name, (cu, now))
            &&& after.disabled_nodes == store.disabled_nodes
            &&& after.exclusions == store.exclusions
            &&& after.max_age == store.max_age
        }),
        ({
            let after = taught(store, LessonView::Exclude { scidd: name }, now);
            &&& after.exclusions == store.exclusions.insert(name, now)
            &&& after.policies == store.policies
            &&& after.disabled_nodes == store.disabled_nodes
            &&& after.max_age == store.max_age
        }),
        ({
            let after = taught(store, LessonView::DisableNode { node: name }, now);
            &&& after.disabled_nodes == store.disabled_nodes.insert(name, now)
            &&& after.policies == store.policies
            &&& after.exclusions == store.exclusions
            &&& after.max_age == store.max_age
        }),
{
}

/// A liquidity write's key as it is written.
pub proof fn law_inform_keys_are_written(scidd: Seq<char>)
    ensures
        inform_key_of(scidd, true) == scidd + "|constrained"@,
        inform_key_of(scidd, false) == scidd + "|unconstrained"@,
{
    reveal_strlit("|");
    reveal_strlit("constrained");
    reveal_strlit("unconstrained");
    reveal_strlit("|constrained");
    reveal_strlit("|unconstrained");
    assert(inform_key_of(scidd, true) =~= scidd + "|constrained"@);
    assert(inform_key_of(scidd, false) =~= scidd + "|unconstrained"@);
}

/// A fee_insufficient (0x100c) at the first hop has no incoming channel to
/// avoid: nothing was allocated before it, so that any fee asked is the
/// hop's own.
pub proof fn law_fee_failures_at_the_first_hop(
    hops: Seq<PartHopView>,
    data: Json,
    self_id: Option<Seq<char>>,
    store: OverridesView,
    gossip: Option<ChanUpdate>,
    now: u64,
)
    requires
        data.at("failcode"@) == Json::Uint(0x100c),
        exec::erring_index(hops, data) == Some(0int),
    ensures
        ({
            let lessons = failure_lessons(hops, data, self_id, store, gossip, now);
            let avoid = LessonView::Exclude { scidd: hops[0].scidd };
            match carried_policy(data) {
                None => lessons == seq![avoid],
                Some(cu) => {
                    let asked = cu.fee_base_msat + cu.fee_proportional_millionths
                        * hops[0].amount_msat / 1_000_000;
                    let known = store.repeats(hops[0].scidd, cu, now) || (gossip matches Some(g)
                        && g.agrees(cu));
                    &&& asked <= 0 ==> lessons.len() == 0
                    &&& asked > 0 && known ==> lessons == seq![avoid]
                    &&& asked > 0 && !known ==> lessons == seq![
                        LessonView::Policy { scidd: hops[0].scidd, policy: cu },
                    ]
                },
            }
        }),
{
    lemma_erring_in_range(hops, data);
    assert(exclusion(hops, -1) + exclusion(hops, 0) =~= seq![
        LessonView::Exclude { scidd: hops[0].scidd },
    ]);
}

/// A refresh says something new: a policy that gossip advertises already,
/// or that is already held, is never taken over as one.
pub proof fn law_refreshes_say_something_new(
    hops: Seq<PartHopView>,
    data: Json,
    self_id: Option<Seq<char>>,
    store: OverridesView,
    gossip: Option<ChanUpdate>,
    now: u64,
    i: int,
)
    requires
        0 <= i < failure_lessons(hops, data, self_id, store, gossip, now).len(),
    ensures
        failure_lessons(hops, data, self_id, store, gossip, now)[i] matches LessonView::Policy {
            scidd,
            policy,
        } ==> !store.repeats(scidd, policy, now) && (gossip matches Some(g) ==> !g.agrees(policy)),
{
    let failcode = data.at("failcode"@).uint()->0;
    if !is_node_level(failcode) && exec::erring_index(hops, data) is Some {
        let k = exec::erring_index(hops, data)->0;
        lemma_erring_in_range(hops, data);
        if failcode == WIRE_TEMPORARY_CHANNEL_FAILURE && i < proven(hops, k).len() {
            lemma_proven_is_network(hops, k, i);
        }
    }
}

} // verus!
