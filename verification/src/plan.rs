//! Route planning: the client-side node split.
//!
//! askrene's getroutes rejects source == destination, so a circular
//! self-rebalance query is reshaped into a regular s -> t problem
//! inside a per-request layer (layer.rs):
//!
//!   - a fake "us_in" node id stands in for our own inbound side;
//!   - every destination channel's (peer -> us) direction gets a
//!     mirror (peer -> us_in) channel with a caller-allocated fake
//!     scid, the real direction's fee/cltv policy, and capacity set
//!     to the channel's actual receivable (local truth askrene's
//!     own gossip view cannot know), bounded by the caller's
//!     per-destination cap, with htlc_minimum raised to the
//!     fragment floor (xrebalance-min-part-msat), and with what was
//!     learned of the real direction carried over;
//!   - every real (peer -> us) direction is disabled, so no flow
//!     can enter or transit the real us;
//!   - every (us -> peer) direction not named in sources is
//!     disabled, pinning the drain side; a source's optional cap
//!     becomes an extra max constraint on its drain direction;
//!   - getroutes runs source=us, destination=us_in.
//!
//! The final hop of each returned route crosses a mirror scid we
//! allocated, so we translate it back to the real return channel
//! before anyone else sees it.  The split layer is listed LAST in
//! the getroutes layers so its masks override auto.localchans (an
//! update-only layer entry ordered before the auto.localchans add
//! would silently suppress the channel instead).

use crate::chan_spec;
use crate::chan_spec::ChanSpec;
use crate::channels;
use crate::channels::{Chan, ChanView};
use crate::exec;
use crate::json::Json;
use crate::layer;
use crate::layer::{FAKE_US_IN, PERSISTENT_LAYER};
use crate::order;
use crate::order::sorted;
use crate::request;
use crate::request::FeeBudget;
use crate::table::Table;
use crate::text;
use crate::text::{chars_of, find_chars, has_text, push_dec, same_text, split_once, string_of};
use vstd::prelude::*;
use vstd::string::*;

verus! {

// ---------------------------------------------------------------------
// Rates and lengths
// ---------------------------------------------------------------------

/// Effective fee rate in ppm of what was delivered; None until
/// anything is.
pub open spec fn ppm_of(fee_msat: u64, delivered_msat: u64) -> Option<u64> {
    if delivered_msat == 0 {
        None
    } else {
        Some(
            ((fee_msat * 1_000_000 / (delivered_msat as int)) % 0x1_0000_0000_0000_0000) as u64,
        )
    }
}

/// Effective fee rate in ppm of what was delivered; None until
/// anything is.  A rate past the range of the result keeps its low 64
/// bits.
pub fn fee_ppm(fee_msat: u64, delivered_msat: u64) -> (r: Option<u64>)
    ensures
        r == ppm_of(fee_msat, delivered_msat),
        r is None <==> delivered_msat == 0,
        r matches Some(ppm) ==> fee_msat <= delivered_msat ==> ppm * delivered_msat <= fee_msat
            * 1_000_000 < (ppm + 1) * delivered_msat,
{
    if delivered_msat == 0 {
        return None;
    }
    let rate: u128 = fee_msat as u128 * 1_000_000 / delivered_msat as u128;
    proof {
        let (n, d, q) = (fee_msat * 1_000_000, delivered_msat as int, rate as int);
        assert(q * d <= n < (q + 1) * d && (fee_msat <= d ==> q <= 1_000_000)) by (nonlinear_arith)
            requires
                q == n / d,
                n == fee_msat * 1_000_000,
                d > 0,
        ;
    }
    Some((rate % 0x1_0000_0000_0000_0000) as u64)
}

/// Whether one part's fee honors the caller's fee rate
/// (maxfee_msat / amount_msat) on the amount the part delivers.
pub open spec fn within_rate(
    fee_msat: int,
    delivered_msat: int,
    maxfee_msat: u64,
    amount_msat: u64,
) -> bool {
    fee_msat * amount_msat <= maxfee_msat * delivered_msat
}

proof fn lemma_product_fits(a: u128, b: u128)
    requires
        a <= u64::MAX,
        b <= u64::MAX,
    ensures
        0 <= a * b <= u128::MAX,
{
    assert(0 <= a * b <= 0xffff_ffff_ffff_ffff * 0xffff_ffff_ffff_ffff) by (nonlinear_arith)
        requires
            0 <= a <= 0xffff_ffff_ffff_ffff,
            0 <= b <= 0xffff_ffff_ffff_ffff,
    ;
}

/// Whether one part's fee honors the caller's fee rate
/// (maxfee_msat / amount_msat) on the amount the part delivers.
pub fn part_within_rate(
    fee_msat: u64,
    delivered_msat: u64,
    maxfee_msat: u64,
    amount_msat: u64,
) -> (r: bool)
    ensures
        r == within_rate(fee_msat as int, delivered_msat as int, maxfee_msat, amount_msat),
        r <==> fee_msat * amount_msat <= maxfee_msat * delivered_msat,
{
    proof {
        lemma_product_fits(fee_msat as u128, amount_msat as u128);
        lemma_product_fits(maxfee_msat as u128, delivered_msat as u128);
    }
    fee_msat as u128 * amount_msat as u128 <= maxfee_msat as u128 * delivered_msat as u128
}

/// lightningd's sendpay crashes (SIGSEGV in serialize_onionpacket)
/// when a route's per-hop TLV payloads overflow the fixed 1300-byte
/// onion: create_onionpacket returns NULL and lightningd/pay.c uses
/// it unchecked.  Observed at 25 and 26 hops in production.  The
/// real limit is payload bytes, not hops; 20 leaves comfortable
/// margin.  Remove once CLN rejects the route instead of crashing.
pub const MAX_SAFE_HOPS: usize = 20;

/// Whether one part's route is short enough to fit the onion.
pub fn part_within_length(n_hops: usize) -> (r: bool)
    ensures
        r == (n_hops <= MAX_SAFE_HOPS),
        r <==> n_hops < 21,
{
    n_hops <= MAX_SAFE_HOPS
}

// ---------------------------------------------------------------------
// Errors
// ---------------------------------------------------------------------

/// Why planning failed.
#[derive(Debug, PartialEq, Eq)]
pub enum PlanError {
    /// A spec names a channel that is not ours or not usable.
    UnknownChannel(String),
    /// A destination's peer has not told us its policy.
    NoRemoteUpdate(String),
    /// The request's layer could not be created or written.
    Layer(String),
    /// A solved route has no path.
    NoPath,
    /// A solved route has no hop.
    EmptyPath,
    /// A solved route ends elsewhere.
    NotAtSplit,
    /// A solved route's final hop has no scid.
    NoFinalScid,
    /// A solved route's final hop is none of our mirrors.
    UnknownMirror(String),
    /// What the kept routes send or deliver does not fit.
    TotalsOverflow,
    /// The kept routes cost more than the budget.
    OverBudget { fee_msat: u64, maxfee_msat: u64 },
}

/// A planning failure with its text as characters.
pub enum PlanErrorView {
    UnknownChannel(Seq<char>),
    NoRemoteUpdate(Seq<char>),
    Layer(Seq<char>),
    NoPath,
    EmptyPath,
    NotAtSplit,
    NoFinalScid,
    UnknownMirror(Seq<char>),
    TotalsOverflow,
    OverBudget { fee_msat: u64, maxfee_msat: u64 },
}

impl View for PlanError {
    type V = PlanErrorView;

    open spec fn view(&self) -> PlanErrorView {
        match *self {
            PlanError::UnknownChannel(s) => PlanErrorView::UnknownChannel(s@),
            PlanError::NoRemoteUpdate(s) => PlanErrorView::NoRemoteUpdate(s@),
            PlanError::Layer(s) => PlanErrorView::Layer(s@),
            PlanError::NoPath => PlanErrorView::NoPath,
            PlanError::EmptyPath => PlanErrorView::EmptyPath,
            PlanError::NotAtSplit => PlanErrorView::NotAtSplit,
            PlanError::NoFinalScid => PlanErrorView::NoFinalScid,
            PlanError::UnknownMirror(s) => PlanErrorView::UnknownMirror(s@),
            PlanError::TotalsOverflow => PlanErrorView::TotalsOverflow,
            PlanError::OverBudget { fee_msat, maxfee_msat } => PlanErrorView::OverBudget {
                fee_msat,
                maxfee_msat,
            },
        }
    }
}

impl PlanErrorView {
    /// The failure in words.
    pub open spec fn message(self) -> Seq<char> {
        match self {
            PlanErrorView::UnknownChannel(s) => "unknown channel "@ + s
                + ": not ours, or not in CHANNELD_NORMAL"@,
            PlanErrorView::NoRemoteUpdate(s) => "destination "@ + s
                + ": peer's channel_update not yet seen; cannot mirror its policy"@,
            PlanErrorView::Layer(s) => s,
            PlanErrorView::NoPath => "getroutes: route without path"@,
            PlanErrorView::EmptyPath => "empty path"@,
            PlanErrorView::NotAtSplit => "getroutes: route does not end at the split node"@,
            PlanErrorView::NoFinalScid => "final hop without scid"@,
            PlanErrorView::UnknownMirror(s) => "final hop over unknown mirror "@ + s,
            PlanErrorView::TotalsOverflow => "planned amounts overflow"@,
            PlanErrorView::OverBudget { fee_msat, maxfee_msat } => "planned fee "@ + text::dec(
                fee_msat as nat,
            ) + "msat exceeds budget "@ + text::dec(maxfee_msat as nat) + "msat"@,
        }
    }
}

impl PlanError {
    /// The failure in words.
    pub fn message(&self) -> (r: String)
        ensures
            r@ == self@.message(),
    {
        match self {
            PlanError::UnknownChannel(s) => {
                let mut out = "unknown channel ".to_owned();
                out.append(s);
                out.append(": not ours, or not in CHANNELD_NORMAL");
                out
            },
            PlanError::NoRemoteUpdate(s) => {
                let mut out = "destination ".to_owned();
                out.append(s);
                out.append(": peer's channel_update not yet seen; cannot mirror its policy");
                out
            },
            PlanError::Layer(s) => s.clone(),
            PlanError::NoPath => "getroutes: route without path".to_owned(),
            PlanError::EmptyPath => "empty path".to_owned(),
            PlanError::NotAtSplit => "getroutes: route does not end at the split node".to_owned(),
            PlanError::NoFinalScid => "final hop without scid".to_owned(),
            PlanError::UnknownMirror(s) => {
                let mut out = "final hop over unknown mirror ".to_owned();
                out.append(s);
                out
            },
            PlanError::TotalsOverflow => "planned amounts overflow".to_owned(),
            PlanError::OverBudget { fee_msat, maxfee_msat } => {
                let mut out = "planned fee ".to_owned();
                push_dec(&mut out, *fee_msat);
                out.append("msat exceeds budget ");
                push_dec(&mut out, *maxfee_msat);
                out.append("msat");
                out
            },
        }
    }
}

// ---------------------------------------------------------------------
// What the channels can carry
// ---------------------------------------------------------------------

/// The first spec at or after `i` that names none of our channels.
pub open spec fn first_unknown(
    specs: Seq<ChanSpec>,
    chans: Map<Seq<char>, ChanView>,
    i: int,
) -> Option<Seq<char>>
    decreases specs.len() - i,
{
    if i < 0 || i >= specs.len() {
        None
    } else if !chans.contains_key(specs[i].scid@) {
        Some(specs[i].scid@)
    } else {
        first_unknown(specs, chans, i + 1)
    }
}

/// The first destination at or after `i` whose peer's policy is unknown.
pub open spec fn first_unmirrorable(
    specs: Seq<ChanSpec>,
    chans: Map<Seq<char>, ChanView>,
    i: int,
) -> Option<Seq<char>>
    decreases specs.len() - i,
{
    if i < 0 || i >= specs.len() {
        None
    } else if chans[specs[i].scid@].remote_update is None {
        Some(specs[i].scid@)
    } else {
        first_unmirrorable(specs, chans, i + 1)
    }
}

/// What is wrong with the named channels: first a name that is none of
/// ours, then a destination that cannot be mirrored.
pub open spec fn channel_fault(
    sources: Seq<ChanSpec>,
    destinations: Seq<ChanSpec>,
    chans: Map<Seq<char>, ChanView>,
) -> Option<PlanErrorView> {
    if let Some(scid) = first_unknown(sources, chans, 0) {
        Some(PlanErrorView::UnknownChannel(scid))
    } else if let Some(scid) = first_unknown(destinations, chans, 0) {
        Some(PlanErrorView::UnknownChannel(scid))
    } else if let Some(scid) = first_unmirrorable(destinations, chans, 0) {
        Some(PlanErrorView::NoRemoteUpdate(scid))
    } else {
        None
    }
}

/// Every spec names one of our channels.
pub open spec fn all_known(specs: Seq<ChanSpec>, chans: Map<Seq<char>, ChanView>) -> bool {
    forall|i: int| 0 <= i < specs.len() ==> chans.contains_key((#[trigger] specs[i]).scid@)
}

fn check_known(specs: &[ChanSpec], chans: &Table<Chan>) -> (r: Result<(), PlanError>)
    requires
        chans.wf(),
    ensures
        match r {
            Ok(_) => first_unknown(specs@, channels::chan_map(chans@), 0) is None && all_known(
                specs@,
                channels::chan_map(chans@),
            ),
            Err(e) => e@ matches PlanErrorView::UnknownChannel(scid) && first_unknown(
                specs@,
                channels::chan_map(chans@),
                0,
            ) == Some(scid),
        },
{
    for i in 0..specs.len()
        invariant
            chans.wf(),
            first_unknown(specs@, channels::chan_map(chans@), 0) == first_unknown(
                specs@,
                channels::chan_map(chans@),
                i as int,
            ),
            forall|j: int|
                0 <= j < i ==> channels::chan_map(chans@).contains_key(
                    (#[trigger] specs@[j]).scid@,
                ),
    {
        let scid = specs[i].scid.as_str();
        if !chans.contains_key(scid) {
            return Err(PlanError::UnknownChannel(scid.to_owned()));
        }
    }
    Ok(())
}

/// Check that every named channel is ours, and that every destination
/// can be mirrored.
pub fn check_channels(
    sources: &[ChanSpec],
    destinations: &[ChanSpec],
    chans: &Table<Chan>,
) -> (r: Result<(), PlanError>)
    requires
        chans.wf(),
    ensures
        match r {
            Ok(_) => channel_fault(sources@, destinations@, channels::chan_map(chans@)) is None,
            Err(e) => channel_fault(sources@, destinations@, channels::chan_map(chans@)) == Some(
                e@,
            ),
        },
        r is Ok ==> all_known(sources@, channels::chan_map(chans@)) && layer::mirrorable(
            destinations@,
            channels::chan_map(chans@),
        ),
{
    let ghost cm = channels::chan_map(chans@);
    match check_known(sources, chans) {
        Ok(_) => {},
        Err(e) => return Err(e),
    }
    match check_known(destinations, chans) {
        Ok(_) => {},
        Err(e) => return Err(e),
    }
    for i in 0..destinations.len()
        invariant
            chans.wf(),
            cm == channels::chan_map(chans@),
            all_known(sources@, cm),
            all_known(destinations@, cm),
            first_unknown(sources@, cm, 0) is None,
            first_unknown(destinations@, cm, 0) is None,
            first_unmirrorable(destinations@, cm, 0) == first_unmirrorable(
                destinations@,
                cm,
                i as int,
            ),
            forall|j: int|
                0 <= j < i ==> cm[(#[trigger] destinations@[j]).scid@].remote_update is Some,
    {
        let scid = destinations[i].scid.as_str();
        proof {
            assert(cm.contains_key(destinations@[i as int].scid@));
        }
        if let Some(chan) = chans.get(scid) {
            proof {
                assert(cm[scid@] == chan@);
            }
            if chan.remote_update.is_none() {
                return Err(PlanError::NoRemoteUpdate(scid.to_owned()));
            }
        }
    }
    Ok(())
}

/// What the first `n` sources carry under their caps.
pub open spec fn source_sum(
    specs: Seq<ChanSpec>,
    chans: Map<Seq<char>, ChanView>,
    n: int,
) -> int
    decreases n,
{
    if n <= 0 {
        0
    } else {
        source_sum(specs, chans, n - 1) + specs[n - 1]@.capped(
            chans[specs[n - 1].scid@].spendable_msat,
        )
    }
}

/// What the first `n` destinations take under their caps.
pub open spec fn destination_sum(
    specs: Seq<ChanSpec>,
    chans: Map<Seq<char>, ChanView>,
    n: int,
) -> int
    decreases n,
{
    if n <= 0 {
        0
    } else {
        destination_sum(specs, chans, n - 1) + specs[n - 1]@.capped(
            chans[specs[n - 1].scid@].receivable_msat,
        )
    }
}

/// What the sources carry under their caps, at most the largest amount.
pub open spec fn source_bound(specs: Seq<ChanSpec>, chans: Map<Seq<char>, ChanView>) -> u64 {
    request::saturated(source_sum(specs, chans, specs.len() as int))
}

/// What the destinations take under their caps, at most the largest
/// amount.
pub open spec fn destination_bound(specs: Seq<ChanSpec>, chans: Map<Seq<char>, ChanView>) -> u64 {
    request::saturated(destination_sum(specs, chans, specs.len() as int))
}

/// What the sources can deliver once the fee budget is set aside.
pub open spec fn movable(budget: FeeBudget, src_bound: u64) -> u64 {
    match budget {
        FeeBudget::Msat(msat) => if src_bound >= msat {
            (src_bound - msat) as u64
        } else {
            0
        },
        FeeBudget::Ppm(ppm) => (src_bound * 1_000_000 / (1_000_000 + ppm)) as u64,
    }
}

/// The ask clamped to what both sides can carry.
pub open spec fn clamped(ask_msat: u64, src_movable: u64, dst_bound: u64) -> u64 {
    chan_spec::min_msat(chan_spec::min_msat(ask_msat, src_movable), dst_bound)
}

proof fn lemma_movable(budget: FeeBudget, src_bound: u64)
    ensures
        ({
            let m = movable(budget, src_bound);
            &&& m <= src_bound
            &&& budget is Ppm ==> m == src_bound * 1_000_000 / (1_000_000 + budget->Ppm_0)
            &&& budget is Ppm ==> m * (1_000_000 + budget->Ppm_0) <= src_bound * 1_000_000
        }),
{
    if let FeeBudget::Ppm(ppm) = budget {
        let n = src_bound * 1_000_000;
        let d = 1_000_000 + ppm;
        let q = n / d;
        assert(0 <= q <= src_bound && q * d <= n) by (nonlinear_arith)
            requires
                q == n / d,
                d >= 1_000_000,
                n == src_bound * 1_000_000,
                0 <= src_bound,
        ;
    }
}

/// The fee headroom is real: whatever is moved out of what the sources
/// can deliver, they can carry it together with the fees the budget
/// allows for it.  An absolute budget that leaves room to deliver
/// anything fits beside it; a rate always does.
pub proof fn law_fee_headroom(budget: FeeBudget, src_bound: u64, amount_msat: u64)
    requires
        0 < amount_msat <= movable(budget, src_bound),
    ensures
        amount_msat + budget.allowance(amount_msat) <= src_bound,
{
    lemma_movable(budget, src_bound);
    if let FeeBudget::Ppm(ppm) = budget {
        let m = movable(budget, src_bound);
        let fee = amount_msat * ppm / 1_000_000;
        assert(amount_msat * (1_000_000 + ppm) <= m * (1_000_000 + ppm)) by (nonlinear_arith)
            requires
                0 <= amount_msat <= m,
                0 <= ppm,
        ;
        assert(fee * 1_000_000 <= amount_msat * ppm);
        assert(amount_msat * (1_000_000 + ppm) == amount_msat * 1_000_000 + amount_msat * ppm)
            by (nonlinear_arith);
    }
}

proof fn lemma_allowance_fits(budget: FeeBudget, src_bound: u64, amount_msat: u64)
    requires
        amount_msat <= movable(budget, src_bound),
    ensures
        0 <= budget.allowance(amount_msat) <= u64::MAX,
{
    if amount_msat > 0 {
        law_fee_headroom(budget, src_bound, amount_msat);
    }
    request::law_allowance_is_monotone(budget, 0, amount_msat);
    if let FeeBudget::Ppm(ppm) = budget {
        assert(0 * ppm == 0) by (nonlinear_arith);
    }
}

/// How much a round plans for, and at what price.
#[derive(Debug, Clone, Copy, PartialEq, Eq, Structural)]
pub struct Sizing {
    /// What the sources can deliver, after fee headroom.
    pub src_movable: u64,
    /// What the destinations can take.
    pub dst_bound: u64,
    /// The ask clamped to both.
    pub amount_msat: u64,
    /// What the budget allows for that amount.
    pub maxfee_msat: u64,
}

/// How much to plan for.
pub open spec fn sizing(ask_msat: u64, budget: FeeBudget, src_bound: u64, dst_bound: u64) -> Sizing {
    let src_movable = movable(budget, src_bound);
    let amount_msat = clamped(ask_msat, src_movable, dst_bound);
    Sizing {
        src_movable,
        dst_bound,
        amount_msat,
        maxfee_msat: budget.allowance(amount_msat) as u64,
    }
}

fn source_bound_of(specs: &[ChanSpec], chans: &Table<Chan>) -> (r: u64)
    requires
        chans.wf(),
        all_known(specs@, channels::chan_map(chans@)),
    ensures
        r == source_bound(specs@, channels::chan_map(chans@)),
{
    let ghost cm = channels::chan_map(chans@);
    let mut sum: u64 = 0;
    for i in 0..specs.len()
        invariant
            chans.wf(),
            cm == channels::chan_map(chans@),
            all_known(specs@, cm),
            sum == request::saturated(source_sum(specs@, cm, i as int)),
            source_sum(specs@, cm, i as int) >= 0,
    {
        proof {
            assert(cm.contains_key(specs@[i as int].scid@));
        }
        if let Some(chan) = chans.get(specs[i].scid.as_str()) {
            proof {
                assert(cm[specs@[i as int].scid@] == chan@);
            }
            sum = sum.saturating_add(specs[i].capped(chan.spendable_msat));
        }
    }
    sum
}

fn destination_bound_of(specs: &[ChanSpec], chans: &Table<Chan>) -> (r: u64)
    requires
        chans.wf(),
        all_known(specs@, channels::chan_map(chans@)),
    ensures
        r == destination_bound(specs@, channels::chan_map(chans@)),
{
    let ghost cm = channels::chan_map(chans@);
    let mut sum: u64 = 0;
    for i in 0..specs.len()
        invariant
            chans.wf(),
            cm == channels::chan_map(chans@),
            all_known(specs@, cm),
            sum == request::saturated(destination_sum(specs@, cm, i as int)),
            destination_sum(specs@, cm, i as int) >= 0,
    {
        proof {
            assert(cm.contains_key(specs@[i as int].scid@));
        }
        if let Some(chan) = chans.get(specs[i].scid.as_str()) {
            proof {
                assert(cm[specs@[i as int].scid@] == chan@);
            }
            sum = sum.saturating_add(specs[i].capped(chan.receivable_msat));
        }
    }
    sum
}

/// The ask clamped to what both sides can carry, with its budget.
///
/// The source bound carries the fees too: what crosses a source
/// channel is delivered PLUS everything downstream hops charge.
/// Clamping delivery to the raw bound would go infeasible at the
/// margin, so the fee budget is set aside on the source side
/// first (worst case: every budgeted msat is spent).  The
/// destination side needs no headroom -- the last hop delivers
/// net of fees.
pub fn size(ask_msat: u64, budget: FeeBudget, src_bound: u64, dst_bound: u64) -> (r: Sizing)
    ensures
        r == sizing(ask_msat, budget, src_bound, dst_bound),
        r.maxfee_msat == budget.allowance(r.amount_msat),
        r.amount_msat <= ask_msat,
        r.amount_msat <= dst_bound,
        r.amount_msat <= r.src_movable,
        r.amount_msat == ask_msat || r.amount_msat == dst_bound || r.amount_msat == r.src_movable,
        r.dst_bound == dst_bound,
        budget matches FeeBudget::Msat(msat) ==> r.src_movable == if msat <= src_bound {
            src_bound - msat
        } else {
            0
        },
        budget matches FeeBudget::Ppm(ppm) ==> r.src_movable * (1_000_000 + ppm) <= src_bound
            * 1_000_000 < (r.src_movable + 1) * (1_000_000 + ppm),
        r.amount_msat > 0 ==> r.amount_msat + r.maxfee_msat <= src_bound,
{
    proof {
        lemma_movable(budget, src_bound);
    }
    let src_movable: u64 = match budget {
        FeeBudget::Msat(msat) => src_bound.saturating_sub(msat),
        FeeBudget::Ppm(ppm) => (src_bound as u128 * 1_000_000 / (1_000_000 + ppm as u128)) as u64,
    };
    let mut amount_msat: u64 = ask_msat;
    if src_movable < amount_msat {
        amount_msat = src_movable;
    }
    if dst_bound < amount_msat {
        amount_msat = dst_bound;
    }
    proof {
        lemma_allowance_fits(budget, src_bound, amount_msat);
        if amount_msat > 0 {
            law_fee_headroom(budget, src_bound, amount_msat);
        }
    }
    let maxfee_msat: u64 = match budget.allow(amount_msat) {
        Some(n) => n,
        None => 0,
    };
    proof {
        law_the_amount_is_the_least_of_three(ask_msat, budget, src_bound, dst_bound);
    }
    Sizing { src_movable, dst_bound, amount_msat, maxfee_msat }
}

/// An ask larger than the sources can carry drains them, as far as the
/// destinations take it, rather than planning nothing.
pub proof fn law_large_asks_drain_the_sources(
    ask_msat: u64,
    budget: FeeBudget,
    src_bound: u64,
    dst_bound: u64,
)
    requires
        ask_msat >= movable(budget, src_bound),
    ensures
        sizing(ask_msat, budget, src_bound, dst_bound).amount_msat == chan_spec::min_msat(
            movable(budget, src_bound),
            dst_bound,
        ),
{
}

/// Check the named channels and clamp the ask to what they can carry:
/// more than this is infeasible by local arithmetic alone, and
/// the ppm fee budget must price the movable amount, not the ask.
pub fn size_request(
    ask_msat: u64,
    budget: FeeBudget,
    sources: &[ChanSpec],
    destinations: &[ChanSpec],
    chans: &Table<Chan>,
) -> (r: Result<Sizing, PlanError>)
    requires
        chans.wf(),
    ensures
        ({
            let cm = channels::chan_map(chans@);
            match r {
                Ok(s) => channel_fault(sources@, destinations@, cm) is None && s == sizing(
                    ask_msat,
                    budget,
                    source_bound(sources@, cm),
                    destination_bound(destinations@, cm),
                ) && s.maxfee_msat == budget.allowance(s.amount_msat),
                Err(e) => channel_fault(sources@, destinations@, cm) == Some(e@),
            }
        }),
        r is Ok ==> layer::mirrorable(destinations@, channels::chan_map(chans@)),
        r matches Ok(s) ==> {
            let takes = destination_sum(
                destinations@,
                channels::chan_map(chans@),
                destinations@.len() as int,
            );
            let carries = source_sum(
                sources@,
                channels::chan_map(chans@),
                sources@.len() as int,
            );
            &&& s.amount_msat <= ask_msat
            &&& s.amount_msat <= takes
            &&& s.amount_msat > 0 ==> s.amount_msat + s.maxfee_msat <= carries
            &&& s.amount_msat == ask_msat || s.amount_msat == s.src_movable || s.amount_msat == takes
                || s.amount_msat == u64::MAX
        },
{
    proof {
        let cm = channels::chan_map(chans@);
        lemma_sums_are_natural(sources@, cm, sources@.len() as int);
        lemma_sums_are_natural(destinations@, cm, destinations@.len() as int);
    }
    match check_channels(sources, destinations, chans) {
        Ok(_) => {},
        Err(e) => return Err(e),
    }
    proof {
        let cm = channels::chan_map(chans@);
        assert forall|i: int| 0 <= i < destinations@.len() implies cm.contains_key(
            (#[trigger] destinations@[i]).scid@,
        ) by {}
    }
    let src_bound: u64 = source_bound_of(sources, chans);
    let dst_bound: u64 = destination_bound_of(destinations, chans);
    Ok(size(ask_msat, budget, src_bound, dst_bound))
}

// ---------------------------------------------------------------------
// The outcome
// ---------------------------------------------------------------------

/// Solved parts that were not kept.
#[derive(Debug)]
pub struct Pruned {
    /// Parts over the hop cap.
    pub long: usize,
    /// The rates of the parts over the fee rate cap, in ppm.
    pub rates: Vec<u64>,
    /// What those would have delivered, at most the largest amount.
    pub rate_msat: u64,
}

/// The outcome of planning: translated, sendpay-ready routes.
pub struct PlanResult {
    /// The amount planning settled on: the request clamped to what
    /// the channels can carry under their caps -- min(amount,
    /// source bounds less the fee budget, destination bounds), each
    /// channel's bound being min(cap, live liquidity) -- and then,
    /// when no route existed at that amount, descended by the
    /// ladder to what the network could actually carry.
    pub effective_amount_msat: u64,
    pub maxfee_msat: u64,
    pub delivered_msat: u64,
    pub fee_msat: u64,
    /// getroutes routes with final hops translated to real channels.
    pub routes: Vec<Json>,
    /// real scidd -> the scid to name in the onion instead (layer.rs).
    pub onion_scids: Table<String>,
    /// Set when there are no routes.
    pub detail: Option<String>,
    /// What the solve offered beyond the routes.
    pub pruned: Pruned,
}

/// An optional text as characters.
pub open spec fn text_of(s: Option<String>) -> Option<Seq<char>> {
    match s {
        Some(s) => Some(s@),
        None => None,
    }
}

impl PlanResult {
    /// A plan without routes.
    pub open spec fn moves_nothing(
        &self,
        amount_msat: u64,
        maxfee_msat: u64,
        detail: Seq<char>,
    ) -> bool {
        &&& self.effective_amount_msat == amount_msat
        &&& self.maxfee_msat == maxfee_msat
        &&& self.delivered_msat == 0
        &&& self.fee_msat == 0
        &&& self.routes@.len() == 0
        &&& text_of(self.detail) == Some(detail)
        &&& self.pruned.long == 0
        &&& self.pruned.rates@.len() == 0
        &&& self.pruned.rate_msat == 0
    }
}

fn without_routes(
    amount_msat: u64,
    maxfee_msat: u64,
    onion_scids: Table<String>,
    detail: String,
) -> (r: PlanResult)
    ensures
        r.moves_nothing(amount_msat, maxfee_msat, detail@),
        r.onion_scids == onion_scids,
{
    PlanResult {
        effective_amount_msat: amount_msat,
        maxfee_msat,
        delivered_msat: 0,
        fee_msat: 0,
        routes: Vec::new(),
        onion_scids,
        detail: Some(detail),
        pruned: Pruned { long: 0, rates: Vec::new(), rate_msat: 0 },
    }
}

/// Which side leaves nothing to move.
pub open spec fn idle_detail(s: Sizing) -> Seq<char> {
    "nothing can move: the "@ + (if s.src_movable == 0 && s.dst_bound == 0 {
        "sources (after fee headroom) and destinations leave"@
    } else if s.src_movable == 0 {
        "sources (after fee headroom) leave"@
    } else {
        "destinations leave"@
    }) + " nothing within their limits"@
}

/// The plan for an ask that was clamped to nothing; None for any other.
pub fn nothing_moves(s: &Sizing) -> (r: Option<PlanResult>)
    ensures
        match r {
            Some(p) => s.amount_msat == 0 && p.moves_nothing(0, s.maxfee_msat, idle_detail(*s))
                && p.onion_scids.wf() && p.onion_scids@ == Map::<Seq<char>, String>::empty(),
            None => s.amount_msat > 0,
        },
        r is Some <==> s.amount_msat == 0,
{
    if s.amount_msat > 0 {
        return None;
    }
    let mut detail = "nothing can move: the ".to_owned();
    if s.src_movable == 0 && s.dst_bound == 0 {
        detail.append("sources (after fee headroom) and destinations leave");
    } else if s.src_movable == 0 {
        detail.append("sources (after fee headroom) leave");
    } else {
        detail.append("destinations leave");
    }
    detail.append(" nothing within their limits");
    Some(without_routes(0, s.maxfee_msat, Table::new(), detail))
}

// ---------------------------------------------------------------------
// The descent ladder
// ---------------------------------------------------------------------

/// How many rungs the ladder has.
pub const RUNGS: usize = 5;

/// The amount at rung `k`: all of it, then 3/4, 1/2, 1/4 and 1/8.
pub open spec fn rung(amount_msat: u64, k: int) -> u64 {
    if k <= 0 {
        amount_msat
    } else if k == 1 {
        (amount_msat * 3 / 4) as u64
    } else if k == 2 {
        amount_msat / 2
    } else if k == 3 {
        amount_msat / 4
    } else {
        amount_msat / 8
    }
}

/// The rung below rung `k`: none past the last, nor where the amount is
/// gone or no smaller.
pub open spec fn next_rung(amount_msat: u64, k: int) -> Option<int> {
    if k + 1 < RUNGS && rung(amount_msat, k + 1) != 0 && rung(amount_msat, k + 1) != rung(
        amount_msat,
        k,
    ) {
        Some(k + 1)
    } else {
        None
    }
}

/// The ladder goes strictly down and never reaches zero.
pub proof fn law_ladder_descends(amount_msat: u64, k: int)
    requires
        0 <= k,
        next_rung(amount_msat, k) is Some,
    ensures
        0 < rung(amount_msat, next_rung(amount_msat, k)->0) < rung(amount_msat, k) <= amount_msat,
        next_rung(amount_msat, k)->0 < RUNGS,
{
}

/// Whether getroutes found no route: the one failure that descends.
/// One over the fee budget (206) does not: base fees weigh
/// proportionally MORE at smaller amounts.
pub open spec fn is_no_route(raw: Seq<char>) -> bool {
    text::find(raw, "Error code 205"@) is Some
}

/// The descent ladder.  getroutes is all-or-nothing at the asked
/// amount, and when the clamp binds at a bound -- especially the
/// destination side, which carries no fee slack -- the ask sits
/// exactly at the optimistic edge of what the network might
/// carry: one thin corridor fails the whole solve even though
/// most of the amount is movable.  On a no-route failure (205)
/// the solve retries at smaller amounts, probing for what IS
/// movable -- the plan-time face of "partial delivery is the
/// norm".  A ppm budget re-derives per rung (the rate is what
/// the caller fixed); an absolute msat budget stands as given.
#[derive(Debug, Clone, Copy, PartialEq, Eq, Structural)]
pub struct Ladder {
    /// The amount the ladder starts from.
    pub amount_msat: u64,
    pub budget: FeeBudget,
    /// The rung to try.
    pub step: usize,
    /// Its amount.
    pub rung_msat: u64,
    /// Its fee budget.
    pub maxfee_msat: u64,
    /// Whether a rung had no route.
    pub descended: bool,
}

fn rung_of(amount_msat: u64, k: usize) -> (r: u64)
    requires
        k < RUNGS,
    ensures
        r == rung(amount_msat, k as int),
        r <= amount_msat,
{
    match k {
        0 => amount_msat,
        1 => (amount_msat as u128 * 3 / 4) as u64,
        2 => amount_msat / 2,
        3 => amount_msat / 4,
        _ => amount_msat / 8,
    }
}

impl Ladder {
    /// The ladder stands on a rung, at that rung's amount and budget.
    pub open spec fn wf(&self) -> bool {
        &&& self.step < RUNGS
        &&& 0 < self.rung_msat <= self.amount_msat
        &&& self.rung_msat == rung(self.amount_msat, self.step as int)
        &&& self.maxfee_msat == self.budget.allowance(self.rung_msat)
        &&& 0 <= self.budget.allowance(self.amount_msat) <= u64::MAX
    }

    /// A ladder at the top; None where there is nothing to move or the
    /// budget does not fit.
    pub fn start(amount_msat: u64, budget: FeeBudget) -> (r: Option<Self>)
        ensures
            match r {
                Some(l) => amount_msat > 0 && l.wf() && l == (Ladder {
                    amount_msat,
                    budget,
                    step: 0,
                    rung_msat: amount_msat,
                    maxfee_msat: l.maxfee_msat,
                    descended: false,
                }),
                None => amount_msat == 0 || budget.allowance(amount_msat) > u64::MAX,
            },
            r is Some <==> amount_msat > 0 && budget.allowance(amount_msat) <= u64::MAX,
            r matches Some(l) ==> l.rung_msat == amount_msat && l.budget == budget && !l.descended
                && l.maxfee_msat == budget.allowance(amount_msat),
    {
        if amount_msat == 0 {
            return None;
        }
        proof {
            request::law_allowance_is_monotone(budget, amount_msat, amount_msat);
        }
        match budget.allow(amount_msat) {
            Some(maxfee_msat) => Some(
                Ladder {
                    amount_msat,
                    budget,
                    step: 0,
                    rung_msat: amount_msat,
                    maxfee_msat,
                    descended: false,
                },
            ),
            None => None,
        }
    }

    /// Whether the failure `raw` leads to the rung below.
    pub open spec fn goes_on(self, raw: Seq<char>) -> bool {
        is_no_route(raw) && next_rung(self.amount_msat, self.step as int) is Some
    }

    /// The ladder after the failure `raw`: on the rung below where it
    /// leads there, else where it stood.
    pub open spec fn after_failure(self, raw: Seq<char>) -> Ladder {
        let below = rung(self.amount_msat, self.step + 1);
        if self.goes_on(raw) {
            Ladder {
                step: (self.step + 1) as usize,
                rung_msat: below,
                maxfee_msat: self.budget.allowance(below) as u64,
                descended: true,
                ..self
            }
        } else {
            Ladder { descended: self.descended || is_no_route(raw), ..self }
        }
    }

    /// Step down after the failure `raw`.  False where the ladder ends:
    /// another failure than a missing route, or no rung left.
    pub fn descend(&mut self, raw: &str) -> (r: bool)
        requires
            old(self).wf(),
        ensures
            final(self).wf(),
            r == old(self).goes_on(raw@),
            *final(self) == old(self).after_failure(raw@),
    {
        if !has_text(raw, "Error code 205") {
            return false;
        }
        self.descended = true;
        let k: usize = self.step + 1;
        if k >= RUNGS {
            return false;
        }
        let below: u64 = rung_of(self.amount_msat, k);
        if below == 0 || below == self.rung_msat {
            return false;
        }
        proof {
            request::law_allowance_is_monotone(self.budget, below, self.amount_msat);
        }
        match self.budget.allow(below) {
            Some(maxfee_msat) => {
                self.step = k;
                self.rung_msat = below;
                self.maxfee_msat = maxfee_msat;
                true
            },
            None => {
                proof {
                    assert(false);
                }
                false
            },
        }
    }
}

/// Only a missing route leads down the ladder: after any other failure it
/// stands where it stood.
pub proof fn law_only_missing_routes_descend(ladder: Ladder, raw: Seq<char>)
    ensures
        ladder.goes_on(raw) ==> is_no_route(raw),
        !is_no_route(raw) ==> ladder.after_failure(raw) == ladder,
{
}

/// Down the ladder a rate is derived anew for each amount, and an
/// absolute budget stands as given.
pub proof fn law_budgets_keep_their_form(ladder: Ladder, raw: Seq<char>)
    requires
        ladder.wf(),
    ensures
        ({
            let after = ladder.after_failure(raw);
            &&& after.wf()
            &&& after.budget == ladder.budget
            &&& ladder.budget matches FeeBudget::Msat(msat) ==> after.maxfee_msat == msat
            &&& ladder.budget matches FeeBudget::Ppm(ppm) ==> after.maxfee_msat == after.rung_msat
                * ppm / 1_000_000
        }),
{
    if ladder.goes_on(raw) {
        law_ladder_descends(ladder.amount_msat, ladder.step as int);
        request::law_allowance_is_monotone(
            ladder.budget,
            rung(ladder.amount_msat, ladder.step + 1),
            ladder.amount_msat,
        );
    }
}

/// The parameters of one getroutes call.
#[derive(Debug)]
pub struct RouteQuery {
    pub source: String,
    pub destination: String,
    pub amount_msat: u64,
    pub layers: Vec<String>,
    pub maxfee_msat: u64,
    pub final_cltv: u64,
    pub maxparts: Option<u32>,
}

impl RouteQuery {
    /// The query is that for the rung `ladder` stands on.
    pub open spec fn is_for(
        &self,
        ladder: Ladder,
        self_id: Seq<char>,
        split: Seq<char>,
        final_cltv: u64,
        maxparts: Option<u32>,
    ) -> bool {
        &&& self.source@ == self_id
        &&& self.destination@ == FAKE_US_IN@
        &&& self.amount_msat == ladder.rung_msat
        &&& self.layers@.map_values(|s: String| s@) == seq![
            "auto.localchans"@,
            PERSISTENT_LAYER@,
            split,
        ]
        &&& self.maxfee_msat == ladder.maxfee_msat
        &&& self.final_cltv == final_cltv
        &&& self.maxparts == maxparts
    }
}

/// The query for the rung the ladder stands on.
pub fn route_query(
    ladder: &Ladder,
    self_id: &str,
    split: &str,
    final_cltv: u64,
    maxparts: Option<u32>,
) -> (r: RouteQuery)
    ensures
        r.source@ == self_id@,
        r.destination@ == FAKE_US_IN@,
        r.amount_msat == ladder.rung_msat,
        r.layers@.map_values(|s: String| s@) == seq!["auto.localchans"@, PERSISTENT_LAYER@, split@],
        r.maxfee_msat == ladder.maxfee_msat,
        r.final_cltv == final_cltv,
        r.maxparts == maxparts,
        r.is_for(*ladder, self_id@, split@, final_cltv, maxparts),
{
    let mut layers: Vec<String> = Vec::new();
    layers.push("auto.localchans".to_owned());
    layers.push(PERSISTENT_LAYER.to_owned());
    // Split layer LAST: its masks must override auto.localchans.
    layers.push(split.to_owned());
    proof {
        assert(layers@.map_values(|s: String| s@) =~= seq![
            "auto.localchans"@,
            PERSISTENT_LAYER@,
            split@,
        ]);
    }
    RouteQuery {
        source: self_id.to_owned(),
        destination: FAKE_US_IN.to_owned(),
        amount_msat: ladder.rung_msat,
        layers,
        maxfee_msat: ladder.maxfee_msat,
        final_cltv,
        maxparts,
    }
}

/// The code a getroutes failure names: what stands between the first
/// "Error code " and the next ':' or "Error code ".
pub open spec fn error_code(raw: Seq<char>) -> Option<Seq<char>> {
    match text::find(raw, "Error code "@) {
        None => None,
        Some(i) => {
            let rest = raw.skip(i + "Error code "@.len());
            let seg = match text::find(rest, "Error code "@) {
                Some(j) => rest.take(j),
                None => rest,
            };
            Some(
                match text::split_at_first(seg, ':') {
                    Some((code, _)) => code,
                    None => seg,
                },
            )
        },
    }
}

fn error_code_of(raw: &str) -> (r: Option<String>)
    ensures
        text_of(r) == error_code(raw@),
{
    let hay = chars_of(raw);
    let needle = chars_of("Error code ");
    match find_chars(&hay, &needle) {
        None => None,
        Some(i) => {
            let end: usize = hay.len();
            let from: usize = i + needle.len();
            let rest = chars_of(string_of(&hay, from, end).as_str());
            proof {
                assert(rest@ =~= raw@.skip(i + "Error code "@.len()));
            }
            let to: usize = match find_chars(&rest, &needle) {
                Some(j) => j,
                None => rest.len(),
            };
            let seg = string_of(&rest, 0, to);
            proof {
                assert(seg@ =~= rest@.take(to as int));
                assert(rest@.take(rest@.len() as int) =~= rest@);
            }
            match split_once(seg.as_str(), ':') {
                Some((code, _)) => Some(code),
                None => Some(seg),
            }
        },
    }
}

/// What to tell the caller of an infeasible solve.
pub open spec fn infeasible_detail(raw: Seq<char>, split: Seq<char>, descended: bool) -> Seq<char> {
    if text::find(raw, split) is Some {
        "no usable route from the sources to the destinations at this amount and budget"@ + (
        if descended {
            ", nor at smaller amounts"@
        } else {
            seq![]
        }) + match error_code(raw) {
            Some(code) => " (getroutes "@ + code + ")"@,
            None => seq![],
        }
    } else {
        raw
    }
}

/// What to tell the caller of an infeasible solve.
///
/// askrene's no-usable-paths diagnostic (205) names the
/// closest unusable path, which here means our own mask
/// layer and mirror scids -- internals this API never
/// otherwise exposes, and nothing a caller can act on.
/// Summarize when the message names the request layer.
pub fn describe_infeasible(raw: &str, split: &str, descended: bool) -> (r: String)
    ensures
        r@ == infeasible_detail(raw@, split@, descended),
{
    if !has_text(raw, split) {
        return raw.to_owned();
    }
    let mut out =
        "no usable route from the sources to the destinations at this amount and budget".to_owned();
    if descended {
        out.append(", nor at smaller amounts");
    }
    if let Some(code) = error_code_of(raw) {
        out.append(" (getroutes ");
        out.append(code.as_str());
        out.append(")");
    }
    proof {
        assert(out@ =~= infeasible_detail(raw@, split@, descended));
    }
    out
}

/// The plan for an infeasible solve.  Infeasible is a RESULT, not an
/// error: zero moved.  (Real infrastructure failures -- askrene absent,
/// malformed request -- also land here; the detail string tells the
/// caller which it was.)
pub fn infeasible(
    s: &Sizing,
    raw: &str,
    split: &str,
    descended: bool,
    onion_scids: Table<String>,
) -> (r: PlanResult)
    ensures
        r.moves_nothing(
            s.amount_msat,
            s.maxfee_msat,
            infeasible_detail(raw@, split@, descended),
        ),
        r.onion_scids == onion_scids,
{
    let detail = describe_infeasible(raw, split, descended);
    without_routes(s.amount_msat, s.maxfee_msat, onion_scids, detail)
}

// ---------------------------------------------------------------------
// Settling on routes
// ---------------------------------------------------------------------

/// What becomes of one solved route.
pub enum Verdict {
    /// The solve is unusable.
    Fault(PlanErrorView),
    /// Over the hop cap.
    TooLong,
    /// Over the fee rate cap.
    OverRate { ppm: u64, delivered_msat: u64 },
    /// Kept, returning through `home`.
    Keep { sent_msat: u64, delivered_msat: u64, home: Seq<char> },
}

/// What is sent beyond what is delivered.
pub open spec fn fee_between(sent_msat: u64, delivered_msat: u64) -> u64 {
    if sent_msat >= delivered_msat {
        (sent_msat - delivered_msat) as u64
    } else {
        0
    }
}

/// The hops of a route.
pub open spec fn path_of(route: Json) -> Option<Seq<Json>> {
    route.at("path"@).items()
}

/// What becomes of one solved route under the settled amount and budget.
///
/// The quote budget is aggregate, but parts settle
/// independently: if the cheap parts fail and an expensive
/// one completes, the delivered total is priced over the
/// caller's rate.  Each part must honor the rate on its own.
pub open spec fn verdict(
    route: Json,
    unsplit: Map<Seq<char>, Seq<char>>,
    amount_msat: u64,
    maxfee_msat: u64,
) -> Verdict {
    match path_of(route) {
        None => Verdict::Fault(PlanErrorView::NoPath),
        Some(path) => if path.len() > MAX_SAFE_HOPS {
            Verdict::TooLong
        } else if path.len() == 0 {
            Verdict::Fault(PlanErrorView::EmptyPath)
        } else {
            let sent_msat = channels::uint_or_zero(path[0].at("amount_in_msat"@));
            let last = path.last();
            let delivered_msat = channels::uint_or_zero(last.at("amount_out_msat"@));
            let fee_msat = fee_between(sent_msat, delivered_msat);
            if last.at("node_id_out"@).text() != Some(FAKE_US_IN@) {
                Verdict::Fault(PlanErrorView::NotAtSplit)
            } else {
                match last.at("short_channel_id_dir"@).text() {
                    None => Verdict::Fault(PlanErrorView::NoFinalScid),
                    Some(mirror) => if !unsplit.contains_key(mirror) {
                        Verdict::Fault(PlanErrorView::UnknownMirror(mirror))
                    } else if !within_rate(
                        fee_msat as int,
                        delivered_msat as int,
                        maxfee_msat,
                        amount_msat,
                    ) {
                        Verdict::OverRate {
                            ppm: match ppm_of(fee_msat, delivered_msat) {
                                Some(n) => n,
                                None => 0,
                            },
                            delivered_msat,
                        }
                    } else {
                        Verdict::Keep { sent_msat, delivered_msat, home: unsplit[mirror] }
                    },
                }
            }
        },
    }
}

/// The fault of the first unusable route at or after `i`.
pub open spec fn first_fault(
    routes: Seq<Json>,
    unsplit: Map<Seq<char>, Seq<char>>,
    amount_msat: u64,
    maxfee_msat: u64,
    i: int,
) -> Option<PlanErrorView>
    decreases routes.len() - i,
{
    if i < 0 || i >= routes.len() {
        None
    } else {
        match verdict(routes[i], unsplit, amount_msat, maxfee_msat) {
            Verdict::Fault(e) => Some(e),
            _ => first_fault(routes, unsplit, amount_msat, maxfee_msat, i + 1),
        }
    }
}

/// What a run of solved routes comes to.
pub struct Tally {
    pub sent: int,
    pub delivered: int,
    pub long: int,
    pub rates: Seq<u64>,
    pub rate_msat: int,
    /// The positions of the kept routes.
    pub kept: Seq<int>,
}

/// What the first `n` solved routes come to.
pub open spec fn tally(
    routes: Seq<Json>,
    unsplit: Map<Seq<char>, Seq<char>>,
    amount_msat: u64,
    maxfee_msat: u64,
    n: int,
) -> Tally
    decreases n,
{
    if n <= 0 {
        Tally { sent: 0, delivered: 0, long: 0, rates: seq![], rate_msat: 0, kept: seq![] }
    } else {
        let t = tally(routes, unsplit, amount_msat, maxfee_msat, n - 1);
        match verdict(routes[n - 1], unsplit, amount_msat, maxfee_msat) {
            Verdict::Fault(_) => t,
            Verdict::TooLong => Tally { long: t.long + 1, ..t },
            Verdict::OverRate { ppm, delivered_msat } => Tally {
                rates: t.rates.push(ppm),
                rate_msat: t.rate_msat + delivered_msat,
                ..t
            },
            Verdict::Keep { sent_msat, delivered_msat, .. } => Tally {
                sent: t.sent + sent_msat,
                delivered: t.delivered + delivered_msat,
                kept: t.kept.push(n - 1),
                ..t
            },
        }
    }
}

/// `new` is the hop `old` translated: it leads home to us over `home`,
/// and nothing else of it changed.
pub open spec fn hop_translated(
    new: Json,
    old: Json,
    home: Seq<char>,
    self_id: Seq<char>,
) -> bool {
    &&& new.at("short_channel_id_dir"@).text() == Some(home)
    &&& new.at("node_id_out"@).text() == Some(self_id)
    &&& forall|k: Seq<char>|
        k != "short_channel_id_dir"@ && k != "node_id_out"@ ==> #[trigger] new.field(k)
            == old.field(k)
}

/// `new` is the route `old` with its final hop translated.
pub open spec fn route_translated(
    new: Json,
    old: Json,
    home: Seq<char>,
    self_id: Seq<char>,
) -> bool {
    &&& path_of(new) is Some && path_of(old) is Some
    &&& path_of(old)->0.len() > 0
    &&& path_of(new)->0.drop_last() == path_of(old)->0.drop_last()
    &&& path_of(new)->0.len() == path_of(old)->0.len()
    &&& hop_translated(path_of(new)->0.last(), path_of(old)->0.last(), home, self_id)
    &&& forall|k: Seq<char>| k != "path"@ ==> #[trigger] new.field(k) == old.field(k)
}

fn translate(route: Json, home: &str, self_id: &str) -> (r: Json)
    requires
        path_of(route) is Some,
        path_of(route)->0.len() > 0,
        path_of(route)->0.last() is Object,
    ensures
        route_translated(r, route, home@, self_id@),
{
    let (rest, mut path) = route.take_items("path");
    let ghost hops = path@;
    if let Some(last) = path.pop() {
        proof {
            reveal_strlit("short_channel_id_dir");
            reveal_strlit("node_id_out");
            assert("short_channel_id_dir"@.len() != "node_id_out"@.len());
        }
        let moved = last.with_member("short_channel_id_dir", Json::Str(home.to_owned()));
        let hop = moved.with_member("node_id_out", Json::Str(self_id.to_owned()));
        proof {
            assert(hop_translated(hop, last, home@, self_id@));
        }
        path.push(hop);
        proof {
            assert(path@.drop_last() =~= hops.drop_last());
        }
    }
    rest.with_member("path", Json::Array(path))
}

/// The kept routes, each translated.
pub open spec fn translations(
    out: Seq<Json>,
    routes: Seq<Json>,
    kept: Seq<int>,
    unsplit: Map<Seq<char>, Seq<char>>,
    self_id: Seq<char>,
) -> bool {
    &&& out.len() == kept.len()
    &&& forall|j: int|
        0 <= j < out.len() ==> {
            let old = routes[#[trigger] kept[j]];
            let mirror = path_of(old)->0.last().at("short_channel_id_dir"@).text()->0;
            route_translated(out[j], old, unsplit[mirror], self_id)
        }
}

/// Why a solve left no route to send.
pub open spec fn pruned_detail(kept: int, solved: int, long: int) -> Option<Seq<char>> {
    if kept > 0 || solved == 0 {
        None
    } else if long == 0 {
        Some(
            "all "@ + text::dec(solved as nat) + " planned parts exceeded the fee rate cap"@,
        )
    } else {
        Some(
            "all "@ + text::dec(solved as nat) + " planned parts pruned: "@ + text::dec(long as nat)
                + " over "@ + text::dec(MAX_SAFE_HOPS as nat) + " hops, "@ + text::dec(
                (solved - long) as nat,
            ) + " over the fee rate cap"@,
        )
    }
}

fn describe_pruned(kept: usize, solved: usize, long: usize) -> (r: Option<String>)
    requires
        long <= solved,
    ensures
        text_of(r) == pruned_detail(kept as int, solved as int, long as int),
{
    if kept > 0 || solved == 0 {
        return None;
    }
    let mut out = "all ".to_owned();
    push_dec(&mut out, solved as u64);
    if long == 0 {
        out.append(" planned parts exceeded the fee rate cap");
    } else {
        out.append(" planned parts pruned: ");
        push_dec(&mut out, long as u64);
        out.append(" over ");
        push_dec(&mut out, MAX_SAFE_HOPS as u64);
        out.append(" hops, ");
        push_dec(&mut out, (solved - long) as u64);
        out.append(" over the fee rate cap");
    }
    Some(out)
}

/// A verdict as executable code gets it.
enum Judged {
    TooLong,
    OverRate { ppm: u64, delivered_msat: u64 },
    Keep { sent_msat: u64, delivered_msat: u64, home: String },
}

fn judge(
    route: &Json,
    unsplit: &Table<String>,
    amount_msat: u64,
    maxfee_msat: u64,
) -> (r: Result<Judged, PlanError>)
    requires
        unsplit.wf(),
    ensures
        ({
            let v = verdict(*route, layer::text_map(unsplit@), amount_msat, maxfee_msat);
            match r {
                Err(e) => v == Verdict::Fault(e@),
                Ok(Judged::TooLong) => v is TooLong,
                Ok(Judged::OverRate { ppm, delivered_msat }) => v == (Verdict::OverRate {
                    ppm,
                    delivered_msat,
                }),
                Ok(Judged::Keep { sent_msat, delivered_msat, home }) => v == (Verdict::Keep {
                    sent_msat,
                    delivered_msat,
                    home: home@,
                }) && path_of(*route)->0.len() > 0 && path_of(*route)->0.last() is Object,
            }
        }),
{
    let path = match route.items_at("path") {
        Some(p) => p,
        None => return Err(PlanError::NoPath),
    };
    if !part_within_length(path.len()) {
        return Ok(Judged::TooLong);
    }
    if path.len() == 0 {
        return Err(PlanError::EmptyPath);
    }
    let sent_msat: u64 = match path[0].uint_at("amount_in_msat") {
        Some(n) => n,
        None => 0,
    };
    let last = &path[path.len() - 1];
    match last.text_at("node_id_out") {
        Some(id) => if !same_text(id, FAKE_US_IN) {
            return Err(PlanError::NotAtSplit);
        },
        None => return Err(PlanError::NotAtSplit),
    }
    let mirror = match last.text_at("short_channel_id_dir") {
        Some(s) => s,
        None => return Err(PlanError::NoFinalScid),
    };
    let home = match unsplit.get(mirror) {
        Some(s) => s.clone(),
        None => return Err(PlanError::UnknownMirror(mirror.to_owned())),
    };
    let delivered_msat: u64 = match last.uint_at("amount_out_msat") {
        Some(n) => n,
        None => 0,
    };
    let fee_msat: u64 = sent_msat.saturating_sub(delivered_msat);
    if !part_within_rate(fee_msat, delivered_msat, maxfee_msat, amount_msat) {
        let ppm: u64 = match fee_ppm(fee_msat, delivered_msat) {
            Some(n) => n,
            None => 0,
        };
        return Ok(Judged::OverRate { ppm, delivered_msat });
    }
    Ok(Judged::Keep { sent_msat, delivered_msat, home })
}

/// Why a solve without faults is refused, if it is.
pub open spec fn total_fault(t: Tally, maxfee_msat: u64) -> Option<PlanErrorView> {
    if t.sent > u64::MAX || t.delivered > u64::MAX {
        Some(PlanErrorView::TotalsOverflow)
    } else if fee_between(t.sent as u64, t.delivered as u64) > maxfee_msat {
        Some(
            PlanErrorView::OverBudget {
                fee_msat: fee_between(t.sent as u64, t.delivered as u64),
                maxfee_msat,
            },
        )
    } else {
        None
    }
}

proof fn lemma_tally_bounds(
    routes: Seq<Json>,
    unsplit: Map<Seq<char>, Seq<char>>,
    amount_msat: u64,
    maxfee_msat: u64,
    n: int,
)
    requires
        0 <= n <= routes.len(),
    ensures
        ({
            let t = tally(routes, unsplit, amount_msat, maxfee_msat, n);
            &&& 0 <= t.sent <= n * u64::MAX
            &&& 0 <= t.delivered <= n * u64::MAX
            &&& 0 <= t.long <= n
            &&& t.rate_msat >= 0
            &&& t.kept.len() <= n
            &&& forall|j: int| 0 <= j < t.kept.len() ==> 0 <= #[trigger] t.kept[j] < n
        }),
    decreases n,
{
    if n > 0 {
        lemma_tally_bounds(routes, unsplit, amount_msat, maxfee_msat, n - 1);
    }
}

/// The positions of the kept routes are those of routes worth keeping.
pub proof fn lemma_kept(
    routes: Seq<Json>,
    unsplit: Map<Seq<char>, Seq<char>>,
    amount_msat: u64,
    maxfee_msat: u64,
    n: int,
    j: int,
)
    requires
        0 <= n <= routes.len(),
        0 <= j < tally(routes, unsplit, amount_msat, maxfee_msat, n).kept.len(),
    ensures
        ({
            let i = tally(routes, unsplit, amount_msat, maxfee_msat, n).kept[j];
            0 <= i < n && verdict(routes[i], unsplit, amount_msat, maxfee_msat) is Keep
        }),
    decreases n,
{
    if n > 0 {
        let before = tally(routes, unsplit, amount_msat, maxfee_msat, n - 1).kept;
        if j < before.len() {
            lemma_kept(routes, unsplit, amount_msat, maxfee_msat, n - 1, j);
        }
    }
}

/// `r` is what a solve is settled on: the first fault of a route, then
/// of the totals, or else the kept routes with what they come to.
pub open spec fn settles(
    r: Result<PlanResult, PlanError>,
    solved: Json,
    self_id: Seq<char>,
    unsplit: Map<Seq<char>, Seq<char>>,
    onion_scids: Table<String>,
    amount_msat: u64,
    maxfee_msat: u64,
) -> bool {
    let routes = solved.at("routes"@).elements();
    let n = routes.len() as int;
    let t = tally(routes, unsplit, amount_msat, maxfee_msat, n);
    match r {
        Err(e) => Some(e@) == match first_fault(routes, unsplit, amount_msat, maxfee_msat, 0) {
            Some(f) => Some(f),
            None => total_fault(t, maxfee_msat),
        },
        Ok(p) => {
            &&& first_fault(routes, unsplit, amount_msat, maxfee_msat, 0) is None
            &&& total_fault(t, maxfee_msat) is None
            &&& p.effective_amount_msat == amount_msat
            &&& p.maxfee_msat == maxfee_msat
            &&& p.delivered_msat == t.delivered
            &&& p.fee_msat == fee_between(t.sent as u64, t.delivered as u64)
            &&& p.fee_msat <= maxfee_msat
            &&& translations(p.routes@, routes, t.kept, unsplit, self_id)
            &&& p.onion_scids == onion_scids
            &&& text_of(p.detail) == pruned_detail(t.kept.len() as int, n, t.long)
            &&& p.pruned.long == t.long
            &&& p.pruned.rates@ == t.rates
            &&& p.pruned.rate_msat == request::saturated(t.rate_msat)
        },
    }
}

/// Settle on the routes of a solve: prune the parts over the hop cap or
/// the fee rate, translate the final hops of the others back to real
/// channels, and re-check the budget post-route.  Ours is the only
/// mapping in existence, because we allocated the mirror scids.
pub fn settle(
    solved: Json,
    self_id: &str,
    unsplit: &Table<String>,
    onion_scids: Table<String>,
    amount_msat: u64,
    maxfee_msat: u64,
) -> (r: Result<PlanResult, PlanError>)
    requires
        unsplit.wf(),
    ensures
        settles(
            r,
            solved,
            self_id@,
            layer::text_map(unsplit@),
            onion_scids,
            amount_msat,
            maxfee_msat,
        ),
        r matches Ok(p) ==> {
            &&& p.routes@.len() + p.pruned.long + p.pruned.rates@.len() == solved.at(
                "routes"@,
            ).elements().len()
            &&& p.fee_msat <= maxfee_msat
            &&& p.effective_amount_msat == amount_msat
            &&& p.detail is Some <==> p.routes@.len() == 0 && solved.at("routes"@).elements().len()
                > 0
        },
{
    let ghost routes = solved.at("routes"@).elements();
    let ghost um = layer::text_map(unsplit@);
    let all: Vec<Json> = match solved.items_at("routes") {
        Some(_) => solved.take_items("routes").1,
        None => Vec::new(),
    };
    proof {
        assert(all@ =~= routes);
    }
    let n_solved: usize = all.len();
    let mut kept: Vec<Json> = Vec::new();
    let mut delivered: u128 = 0;
    let mut sent: u128 = 0;
    let mut long: usize = 0;
    let mut rates: Vec<u64> = Vec::new();
    let mut rate_msat: u64 = 0;
    for route in it: all.into_iter()
        invariant
            unsplit.wf(),
            um == layer::text_map(unsplit@),
            routes == solved.at("routes"@).elements(),
            it.seq() == routes,
            n_solved == routes.len(),
            first_fault(routes, um, amount_msat, maxfee_msat, 0) == first_fault(
                routes,
                um,
                amount_msat,
                maxfee_msat,
                it.index() as int,
            ),
            ({
                let t = tally(routes, um, amount_msat, maxfee_msat, it.index() as int);
                &&& sent == t.sent
                &&& delivered == t.delivered
                &&& long == t.long
                &&& rates@ == t.rates
                &&& rate_msat == request::saturated(t.rate_msat)
                &&& translations(kept@, routes, t.kept, um, self_id@)
            }),
    {
        let ghost i = it.index() as int;
        let ghost t = tally(routes, um, amount_msat, maxfee_msat, i);
        proof {
            lemma_tally_bounds(routes, um, amount_msat, maxfee_msat, i);
            assert(route == routes[i]);
        }
        match judge(&route, unsplit, amount_msat, maxfee_msat) {
            Err(e) => return Err(e),
            Ok(Judged::TooLong) => {
                long = long + 1;
            },
            Ok(Judged::OverRate { ppm, delivered_msat }) => {
                rates.push(ppm);
                rate_msat = rate_msat.saturating_add(delivered_msat);
            },
            Ok(Judged::Keep { sent_msat, delivered_msat, home }) => {
                sent = sent + sent_msat as u128;
                delivered = delivered + delivered_msat as u128;
                let ghost before = kept@;
                kept.push(translate(route, home.as_str(), self_id));
                proof {
                    let t2 = tally(routes, um, amount_msat, maxfee_msat, i + 1);
                    assert forall|j: int| 0 <= j < kept@.len() implies {
                        let old = routes[#[trigger] t2.kept[j]];
                        let mirror = path_of(old)->0.last().at("short_channel_id_dir"@).text()->0;
                        route_translated(kept@[j], old, um[mirror], self_id@)
                    } by {
                        if j < before.len() {
                            assert(t2.kept[j] == t.kept[j]);
                            assert(kept@[j] == before[j]);
                        }
                    }
                }
            },
        }
    }
    proof {
        lemma_tally_bounds(routes, um, amount_msat, maxfee_msat, routes.len() as int);
    }
    if sent > u64::MAX as u128 || delivered > u64::MAX as u128 {
        return Err(PlanError::TotalsOverflow);
    }
    let fee_msat: u64 = (sent as u64).saturating_sub(delivered as u64);
    // Defensive: the budget is enforced at the quote by getroutes,
    // per part above, and re-checked here post-route.
    if fee_msat > maxfee_msat {
        return Err(PlanError::OverBudget { fee_msat, maxfee_msat });
    }
    let detail = describe_pruned(kept.len(), n_solved, long);
    proof {
        lemma_first_fault(routes, um, amount_msat, maxfee_msat, 0);
        lemma_tally_counts(routes, um, amount_msat, maxfee_msat, routes.len() as int);
    }
    Ok(
        PlanResult {
            effective_amount_msat: amount_msat,
            maxfee_msat,
            delivered_msat: delivered as u64,
            fee_msat,
            routes: kept,
            onion_scids,
            detail,
            pruned: Pruned { long, rates, rate_msat },
        },
    )
}

/// The least, the median and the greatest of the pruned rates; None
/// where no part was pruned for its rate.
pub fn rate_summary(rates: &[u64]) -> (r: Option<(u64, u64, u64)>)
    ensures
        match r {
            Some((min, median, max)) => {
                let s = order::ascending(rates@);
                &&& rates@.len() > 0
                &&& min == s[0]
                &&& median == s[(rates@.len() - 1) / 2]
                &&& max == s[rates@.len() - 1]
            },
            None => rates@.len() == 0,
        },
        r matches Some((min, median, max)) ==> {
            let s = order::ascending(rates@);
            &&& forall|i: int| 0 <= i < rates@.len() ==> min <= #[trigger] rates@[i] <= max
            &&& exists|k: int| 0 <= k < s.len() && #[trigger] s[k] == median && k <= s.len() - 1 - k
                <= k + 1
        },
{
    let s = sorted(rates);
    if s.len() == 0 {
        return None;
    }
    proof {
        order::law_ascending(rates@);
        rates@.to_multiset_ensures();
        s@.to_multiset_ensures();
        assert forall|i: int| 0 <= i < rates@.len() implies s@[0] <= #[trigger] rates@[i]
            <= s@[s@.len() - 1] by {
            assert(rates@.contains(rates@[i]));
            assert(s@.to_multiset().count(rates@[i]) > 0);
            assert(s@.contains(rates@[i]));
            let k = choose|k: int| 0 <= k < s@.len() && s@[k] == rates@[i];
            assert(s@[0] <= s@[k] <= s@[s@.len() - 1]);
        }
        assert(order::ascending(rates@)[(s@.len() - 1) / 2] == s@[(s@.len() - 1) / 2]);
    }
    Some((s[0], s[(s.len() - 1) / 2], s[s.len() - 1]))
}

// ---------------------------------------------------------------------
// Laws
// ---------------------------------------------------------------------

/// What the kept routes at the positions `picks` deliver.
pub open spec fn picked_delivered(
    routes: Seq<Json>,
    unsplit: Map<Seq<char>, Seq<char>>,
    amount_msat: u64,
    maxfee_msat: u64,
    picks: Seq<int>,
) -> int
    decreases picks.len(),
{
    if picks.len() == 0 {
        0
    } else {
        picked_delivered(routes, unsplit, amount_msat, maxfee_msat, picks.drop_last()) + match verdict(
            routes[picks.last()],
            unsplit,
            amount_msat,
            maxfee_msat,
        ) {
            Verdict::Keep { delivered_msat, .. } => delivered_msat as int,
            _ => 0,
        }
    }
}

/// What the kept routes at the positions `picks` cost.
pub open spec fn picked_fee(
    routes: Seq<Json>,
    unsplit: Map<Seq<char>, Seq<char>>,
    amount_msat: u64,
    maxfee_msat: u64,
    picks: Seq<int>,
) -> int
    decreases picks.len(),
{
    if picks.len() == 0 {
        0
    } else {
        picked_fee(routes, unsplit, amount_msat, maxfee_msat, picks.drop_last()) + match verdict(
            routes[picks.last()],
            unsplit,
            amount_msat,
            maxfee_msat,
        ) {
            Verdict::Keep { sent_msat, delivered_msat, .. } => fee_between(
                sent_msat,
                delivered_msat,
            ) as int,
            _ => 0,
        }
    }
}

/// No per-part slippage: whichever of the kept parts settle and
/// whichever fail, what settles is priced within the caller's rate.
pub proof fn law_any_settled_parts_honor_the_rate(
    routes: Seq<Json>,
    unsplit: Map<Seq<char>, Seq<char>>,
    amount_msat: u64,
    maxfee_msat: u64,
    picks: Seq<int>,
)
    ensures
        within_rate(
            picked_fee(routes, unsplit, amount_msat, maxfee_msat, picks),
            picked_delivered(routes, unsplit, amount_msat, maxfee_msat, picks),
            maxfee_msat,
            amount_msat,
        ),
    decreases picks.len(),
{
    if picks.len() == 0 {
        assert(0 * amount_msat == 0 && maxfee_msat * 0 == 0) by (nonlinear_arith);
    } else {
        let rest = picks.drop_last();
        law_any_settled_parts_honor_the_rate(routes, unsplit, amount_msat, maxfee_msat, rest);
        let f = picked_fee(routes, unsplit, amount_msat, maxfee_msat, rest);
        let d = picked_delivered(routes, unsplit, amount_msat, maxfee_msat, rest);
        if let Verdict::Keep { sent_msat, delivered_msat, .. } = verdict(
            routes[picks.last()],
            unsplit,
            amount_msat,
            maxfee_msat,
        ) {
            let fee = fee_between(sent_msat, delivered_msat) as int;
            assert((f + fee) * amount_msat == f * amount_msat + fee * amount_msat)
                by (nonlinear_arith);
            assert(maxfee_msat * (d + delivered_msat) == maxfee_msat * d + maxfee_msat
                * delivered_msat) by (nonlinear_arith);
        }
    }
}

/// Strict fees: as long as what settles is no more than was planned
/// for, it costs no more than the budget.
pub proof fn law_settled_parts_stay_in_budget(
    routes: Seq<Json>,
    unsplit: Map<Seq<char>, Seq<char>>,
    amount_msat: u64,
    maxfee_msat: u64,
    picks: Seq<int>,
)
    requires
        amount_msat > 0,
        picked_delivered(routes, unsplit, amount_msat, maxfee_msat, picks) <= amount_msat,
    ensures
        picked_fee(routes, unsplit, amount_msat, maxfee_msat, picks) <= maxfee_msat,
{
    law_any_settled_parts_honor_the_rate(routes, unsplit, amount_msat, maxfee_msat, picks);
    let f = picked_fee(routes, unsplit, amount_msat, maxfee_msat, picks);
    let d = picked_delivered(routes, unsplit, amount_msat, maxfee_msat, picks);
    assert(f <= maxfee_msat) by (nonlinear_arith)
        requires
            amount_msat > 0,
            d <= amount_msat,
            maxfee_msat >= 0,
            f * amount_msat <= maxfee_msat * d,
    {
        assert(maxfee_msat * d <= maxfee_msat * amount_msat);
        assert(f * amount_msat <= maxfee_msat * amount_msat);
    }
}

/// A rate holds at any size: at every rung of the ladder, a part that
/// honors the rung's re-derived budget is within the rate the caller
/// gave.
pub proof fn law_rate_holds_at_every_rung(
    ppm: u64,
    rung_msat: u64,
    fee_msat: u64,
    delivered_msat: u64,
    maxfee_msat: u64,
)
    requires
        rung_msat > 0,
        maxfee_msat == FeeBudget::Ppm(ppm).allowance(rung_msat),
        within_rate(fee_msat as int, delivered_msat as int, maxfee_msat, rung_msat),
    ensures
        fee_msat * 1_000_000 <= ppm * delivered_msat,
{
    assert(maxfee_msat * 1_000_000 <= rung_msat * ppm);
    assert(fee_msat * 1_000_000 <= ppm * delivered_msat) by (nonlinear_arith)
        requires
            rung_msat > 0,
            maxfee_msat * 1_000_000 <= rung_msat * ppm,
            fee_msat * rung_msat <= maxfee_msat * delivered_msat,
            delivered_msat >= 0,
    {
        // fee * 1e6 * rung <= maxfee * 1e6 * delivered <= rung * ppm * delivered
        assert(fee_msat * 1_000_000 * rung_msat <= maxfee_msat * 1_000_000 * delivered_msat);
        assert(maxfee_msat * 1_000_000 * delivered_msat <= rung_msat * ppm * delivered_msat);
        assert(rung_msat * ppm * delivered_msat == ppm * delivered_msat * rung_msat);
    }
}

/// Every route that is kept is short enough for the onion, ends at the
/// split node, and returns through a channel of ours.
pub proof fn law_kept_routes_are_safe(
    route: Json,
    unsplit: Map<Seq<char>, Seq<char>>,
    amount_msat: u64,
    maxfee_msat: u64,
)
    requires
        verdict(route, unsplit, amount_msat, maxfee_msat) is Keep,
    ensures
        0 < path_of(route)->0.len() <= MAX_SAFE_HOPS,
        path_of(route)->0.last().at("node_id_out"@).text() == Some(FAKE_US_IN@),
        unsplit.values().contains(
            verdict(route, unsplit, amount_msat, maxfee_msat)->Keep_home,
        ),
{
    let mirror = path_of(route)->0.last().at("short_channel_id_dir"@).text()->0;
    assert(unsplit.contains_key(mirror));
}

/// A rate is the largest whole number of millionths that is not above
/// the fee's share of what was delivered; where that is past 64 bits, its
/// low ones.  Nothing delivered has no rate.
pub proof fn law_rates_are_rounded_down(fee_msat: u64, delivered_msat: u64)
    ensures
        ppm_of(fee_msat, delivered_msat) is None <==> delivered_msat == 0,
        ppm_of(fee_msat, delivered_msat) matches Some(ppm) ==> exists|q: int|
            q >= 0 && #[trigger] (q * delivered_msat) <= fee_msat * 1_000_000 < (q + 1)
                * delivered_msat && ppm == q % 0x1_0000_0000_0000_0000,
{
    if delivered_msat > 0 {
        let n = fee_msat * 1_000_000;
        let d = delivered_msat as int;
        let q = n / d;
        assert(q >= 0 && q * d <= n < (q + 1) * d) by (nonlinear_arith)
            requires
                q == n / d,
                n >= 0,
                d >= 1,
        ;
        assert(q * delivered_msat == q * d);
    }
}

/// A part is within the rate exactly where its fee is at most what the
/// budget comes to on its share of the amount, rounded down.  A part that
/// delivers the whole amount may cost the whole budget and no more, and
/// one that costs nothing is always within.
pub proof fn law_the_rate_is_the_budget_over_the_amount(
    fee_msat: u64,
    delivered_msat: u64,
    maxfee_msat: u64,
    amount_msat: u64,
)
    requires
        amount_msat > 0,
    ensures
        within_rate(fee_msat as int, delivered_msat as int, maxfee_msat, amount_msat) == (fee_msat
            <= (maxfee_msat * delivered_msat) / (amount_msat as int)),
        within_rate(fee_msat as int, amount_msat as int, maxfee_msat, amount_msat) == (fee_msat
            <= maxfee_msat),
        within_rate(0, delivered_msat as int, maxfee_msat, amount_msat),
{
    let (f, a, m, d) = (fee_msat as int, amount_msat as int, maxfee_msat as int, delivered_msat as int);
    let q = (m * d) / a;
    assert(f * a <= m * d <==> f <= q) by (nonlinear_arith)
        requires
            q == (m * d) / a,
            a > 0,
    ;
    assert(f * a <= m * a <==> f <= m) by (nonlinear_arith)
        requires
            a > 0,
    ;
    assert(0 * a <= m * d) by (nonlinear_arith)
        requires
            m >= 0,
            d >= 0,
    ;
}

proof fn lemma_first_unknown(specs: Seq<ChanSpec>, chans: Map<Seq<char>, ChanView>, i: int)
    requires
        0 <= i,
    ensures
        match first_unknown(specs, chans, i) {
            Some(s) => exists|k: int|
                i <= k < specs.len() && (#[trigger] specs[k]).scid@ == s && !chans.contains_key(s)
                    && forall|l: int|
                    i <= l < k ==> chans.contains_key((#[trigger] specs[l]).scid@),
            None => forall|k: int|
                i <= k < specs.len() ==> chans.contains_key((#[trigger] specs[k]).scid@),
        },
    decreases specs.len() - i,
{
    if i < specs.len() && chans.contains_key(specs[i].scid@) {
        lemma_first_unknown(specs, chans, i + 1);
    }
}

proof fn lemma_first_unmirrorable(specs: Seq<ChanSpec>, chans: Map<Seq<char>, ChanView>, i: int)
    requires
        0 <= i,
    ensures
        match first_unmirrorable(specs, chans, i) {
            Some(s) => exists|k: int|
                i <= k < specs.len() && (#[trigger] specs[k]).scid@ == s && chans[s].remote_update
                    is None && forall|l: int|
                    i <= l < k ==> chans[(#[trigger] specs[l]).scid@].remote_update is Some,
            None => forall|k: int|
                i <= k < specs.len() ==> chans[(#[trigger] specs[k]).scid@].remote_update is Some,
        },
    decreases specs.len() - i,
{
    if i < specs.len() {
        if chans[specs[i].scid@].remote_update is Some {
            lemma_first_unmirrorable(specs, chans, i + 1);
            if let Some(s) = first_unmirrorable(specs, chans, i + 1) {
                let k = choose|k: int|
                    i + 1 <= k < specs.len() && (#[trigger] specs[k]).scid@ == s
                        && chans[s].remote_update is None && forall|l: int|
                        i + 1 <= l < k ==> chans[(#[trigger] specs[l]).scid@].remote_update is Some;
                assert(specs[k].scid@ == s);
                assert forall|l: int| i <= l < k implies chans[(
                #[trigger] specs[l]).scid@].remote_update is Some by {}
            }
        } else {
            let s = specs[i].scid@;
            assert(specs[i].scid@ == s);
        }
    }
}

/// The named channels are at fault exactly where one of them is not ours
/// or a destination's peer has not told us its policy, and the fault names
/// the first such channel.
pub proof fn law_channel_faults_are_true(
    sources: Seq<ChanSpec>,
    destinations: Seq<ChanSpec>,
    chans: Map<Seq<char>, ChanView>,
)
    ensures
        ({
            let ours = |specs: Seq<ChanSpec>|
                forall|i: int|
                    0 <= i < specs.len() ==> chans.contains_key((#[trigger] specs[i]).scid@);
            let mirrored = forall|i: int|
                0 <= i < destinations.len() ==> chans[(
                #[trigger] destinations[i]).scid@].remote_update is Some;
            match channel_fault(sources, destinations, chans) {
                None => ours(sources) && ours(destinations) && mirrored,
                Some(PlanErrorView::UnknownChannel(s)) => !chans.contains_key(s) && ((exists|
                    i: int,
                | 0 <= i < sources.len() && (#[trigger] sources[i]).scid@ == s) || (ours(sources)
                    && exists|i: int|
                    0 <= i < destinations.len() && (#[trigger] destinations[i]).scid@ == s)),
                Some(PlanErrorView::NoRemoteUpdate(s)) => ours(sources) && ours(destinations)
                    && chans[s].remote_update is None && exists|i: int|
                    0 <= i < destinations.len() && (#[trigger] destinations[i]).scid@ == s && forall|
                        l: int,
                    |
                        0 <= l < i ==> chans[(#[trigger] destinations[l]).scid@].remote_update is Some,
                _ => false,
            }
        }),
{
    lemma_first_unknown(sources, chans, 0);
    lemma_first_unknown(destinations, chans, 0);
    lemma_first_unmirrorable(destinations, chans, 0);
}

proof fn lemma_sums_of_prefix(
    specs: Seq<ChanSpec>,
    more: ChanSpec,
    chans: Map<Seq<char>, ChanView>,
    n: int,
)
    requires
        0 <= n <= specs.len(),
    ensures
        source_sum(specs.push(more), chans, n) == source_sum(specs, chans, n),
        destination_sum(specs.push(more), chans, n) == destination_sum(specs, chans, n),
    decreases n,
{
    if n > 0 {
        lemma_sums_of_prefix(specs, more, chans, n - 1);
    }
}

/// What each side can carry adds up over its channels: no channel adds
/// nothing, and each adds its live liquidity or its cap, whichever is
/// less -- what it can send on the side of the sources, what it can
/// receive on the side of the destinations.
pub proof fn law_channels_add_what_they_carry(
    specs: Seq<ChanSpec>,
    more: ChanSpec,
    chans: Map<Seq<char>, ChanView>,
)
    ensures
        source_sum(seq![], chans, 0) == 0,
        destination_sum(seq![], chans, 0) == 0,
        ({
            let n = specs.len() as int;
            let chan = chans[more.scid@];
            let sends = source_sum(specs.push(more), chans, n + 1) - source_sum(specs, chans, n);
            let takes = destination_sum(specs.push(more), chans, n + 1) - destination_sum(
                specs,
                chans,
                n,
            );
            &&& more.max_msat is None ==> sends == chan.spendable_msat && takes
                == chan.receivable_msat
            &&& more.max_msat matches Some(cap) ==> {
                &&& sends <= cap && sends <= chan.spendable_msat
                &&& sends == cap || sends == chan.spendable_msat
                &&& takes <= cap && takes <= chan.receivable_msat
                &&& takes == cap || takes == chan.receivable_msat
            }
        }),
        source_bound(specs, chans) == {
            let sum = source_sum(specs, chans, specs.len() as int);
            if sum < 0xffff_ffff_ffff_ffff {
                sum
            } else {
                0xffff_ffff_ffff_ffff
            }
        },
        destination_bound(specs, chans) == {
            let sum = destination_sum(specs, chans, specs.len() as int);
            if sum < 0xffff_ffff_ffff_ffff {
                sum
            } else {
                0xffff_ffff_ffff_ffff
            }
        },
{
    lemma_sums_of_prefix(specs, more, chans, specs.len() as int);
    lemma_sums_are_natural(specs, chans, specs.len() as int);
}

proof fn lemma_sums_are_natural(specs: Seq<ChanSpec>, chans: Map<Seq<char>, ChanView>, n: int)
    ensures
        source_sum(specs, chans, n) >= 0,
        destination_sum(specs, chans, n) >= 0,
    decreases n,
{
    if n > 0 {
        lemma_sums_are_natural(specs, chans, n - 1);
    }
}

/// The sources can deliver as much as leaves room for the budget, and no
/// msat less: beside an absolute budget, one msat more would not fit;
/// under a rate, one msat more and the rate on it would exceed what they
/// carry.
pub proof fn law_movable_is_the_most_that_fits(msat: u64, ppm: u64, src_bound: u64)
    ensures
        ({
            let m = movable(FeeBudget::Msat(msat), src_bound);
            &&& msat <= src_bound ==> m + msat == src_bound
            &&& msat >= src_bound ==> m == 0
        }),
        ({
            let m = movable(FeeBudget::Ppm(ppm), src_bound);
            m * (1_000_000 + ppm) <= src_bound * 1_000_000 < (m + 1) * (1_000_000 + ppm)
        }),
{
    lemma_movable(FeeBudget::Ppm(ppm), src_bound);
    let m = movable(FeeBudget::Ppm(ppm), src_bound);
    let (n, d) = (src_bound * 1_000_000, 1_000_000 + ppm);
    assert(n < (m + 1) * d) by (nonlinear_arith)
        requires
            m == n / d,
            d > 0,
    ;
}

/// The amount that is planned for is as large as can be: it is at most the
/// ask, what the sources can move after fee headroom and what the
/// destinations take, and it is one of the three.  An ask that is larger
/// than the destinations take is planned at what they take, wherever the
/// sources can move that much.
pub proof fn law_the_amount_is_the_least_of_three(
    ask_msat: u64,
    budget: FeeBudget,
    src_bound: u64,
    dst_bound: u64,
)
    ensures
        ({
            let s = sizing(ask_msat, budget, src_bound, dst_bound);
            &&& s.amount_msat <= ask_msat
            &&& s.amount_msat <= s.src_movable
            &&& s.amount_msat <= dst_bound
            &&& s.amount_msat == ask_msat || s.amount_msat == s.src_movable || s.amount_msat
                == dst_bound
            &&& dst_bound <= ask_msat && dst_bound <= s.src_movable ==> s.amount_msat == dst_bound
            &&& s.dst_bound == dst_bound
            &&& budget matches FeeBudget::Msat(msat) ==> {
                &&& s.maxfee_msat == msat
                &&& msat <= src_bound ==> s.src_movable + msat == src_bound
                &&& msat >= src_bound ==> s.src_movable == 0
            }
            &&& budget matches FeeBudget::Ppm(ppm) ==> {
                &&& s.maxfee_msat * 1_000_000 <= s.amount_msat * ppm < (s.maxfee_msat + 1)
                    * 1_000_000
                &&& s.src_movable * (1_000_000 + ppm) <= src_bound * 1_000_000 < (s.src_movable + 1)
                    * (1_000_000 + ppm)
            }
        }),
{
    let s = sizing(ask_msat, budget, src_bound, dst_bound);
    lemma_allowance_fits(budget, src_bound, s.amount_msat);
    match budget {
        FeeBudget::Msat(msat) => {
            law_movable_is_the_most_that_fits(msat, 0, src_bound);
        },
        FeeBudget::Ppm(ppm) => {
            law_movable_is_the_most_that_fits(0, ppm, src_bound);
            request::law_allowance_is_the_budget(s.amount_msat, 0, ppm);
        },
    }
}

/// An ask that was clamped to nothing is answered with the side that
/// leaves nothing.
pub proof fn law_idle_details_name_the_side(s: Sizing)
    ensures
        s.src_movable == 0 && s.dst_bound == 0 ==> idle_detail(s)
            == "nothing can move: the sources (after fee headroom) and destinations leave nothing within their limits"@,
        s.src_movable == 0 && s.dst_bound > 0 ==> idle_detail(s)
            == "nothing can move: the sources (after fee headroom) leave nothing within their limits"@,
        s.src_movable > 0 && s.dst_bound == 0 ==> idle_detail(s)
            == "nothing can move: the destinations leave nothing within their limits"@,
{
    reveal_strlit("nothing can move: the ");
    reveal_strlit("sources (after fee headroom) and destinations leave");
    reveal_strlit("sources (after fee headroom) leave");
    reveal_strlit("destinations leave");
    reveal_strlit(" nothing within their limits");
    reveal_strlit(
        "nothing can move: the sources (after fee headroom) and destinations leave nothing within their limits",
    );
    reveal_strlit(
        "nothing can move: the sources (after fee headroom) leave nothing within their limits",
    );
    reveal_strlit("nothing can move: the destinations leave nothing within their limits");
    if s.src_movable == 0 && s.dst_bound == 0 {
        assert(idle_detail(s)
            =~= "nothing can move: the sources (after fee headroom) and destinations leave nothing within their limits"@);
    } else if s.src_movable == 0 {
        assert(idle_detail(s)
            =~= "nothing can move: the sources (after fee headroom) leave nothing within their limits"@);
    } else {
        assert(idle_detail(s)
            =~= "nothing can move: the destinations leave nothing within their limits"@);
    }
}

/// The ladder has five rungs: the whole amount, three quarters, a half, a
/// quarter and an eighth of it, each rounded down.
pub proof fn law_rungs_are_fractions(amount_msat: u64)
    ensures
        rung(amount_msat, 0) == amount_msat,
        4 * rung(amount_msat, 1) <= 3 * amount_msat < 4 * (rung(amount_msat, 1) + 1),
        2 * rung(amount_msat, 2) <= amount_msat < 2 * (rung(amount_msat, 2) + 1),
        4 * rung(amount_msat, 3) <= amount_msat < 4 * (rung(amount_msat, 3) + 1),
        8 * rung(amount_msat, 4) <= amount_msat < 8 * (rung(amount_msat, 4) + 1),
{
}

/// A missing route leads to the very next rung, as long as there is one
/// with a smaller amount that is not nothing: from eight msat on, all the
/// rungs are tried in turn.  Whatever the failure, the ladder keeps its
/// start and its budget, and it remembers that a route was missing.
pub proof fn law_missing_routes_try_every_rung(ladder: Ladder, raw: Seq<char>)
    requires
        ladder.wf(),
    ensures
        ({
            let after = ladder.after_failure(raw);
            let below = rung(ladder.amount_msat, ladder.step + 1);
            &&& after.amount_msat == ladder.amount_msat
            &&& after.budget == ladder.budget
            &&& ladder.goes_on(raw) ==> after.step == ladder.step + 1 && after.rung_msat == below
            &&& !ladder.goes_on(raw) ==> after.step == ladder.step && after.rung_msat
                == ladder.rung_msat && after.maxfee_msat == ladder.maxfee_msat
            &&& is_no_route(raw) ==> after.descended
            &&& !is_no_route(raw) ==> after.descended == ladder.descended && !ladder.goes_on(raw)
            &&& is_no_route(raw) && ladder.amount_msat >= 8 && ladder.step < 4 ==> ladder.goes_on(
                raw,
            )
            &&& is_no_route(raw) && ladder.step < 4 && 0 < below < ladder.rung_msat
                ==> ladder.goes_on(raw)
            &&& ladder.step >= 4 || below == 0 || below == ladder.rung_msat ==> !ladder.goes_on(raw)
        }),
{
}

/// A failure is a missing route exactly where it says so: the words
/// "Error code 205" stand somewhere in it.
pub proof fn law_missing_routes_are_told_by_their_code(raw: Seq<char>)
    ensures
        is_no_route(raw) <==> exists|i: int|
            0 <= i <= raw.len() - 14 && #[trigger] raw.subrange(i, i + 14) == "Error code 205"@,
{
    reveal_strlit("Error code 205");
    text::law_find_is_the_first_place(raw, "Error code 205"@);
}

/// The code a failure names is what stands between its first
/// "Error code " and the ':' behind it.
pub proof fn law_error_codes_are_read(before: Seq<char>, code: Seq<char>, rest: Seq<char>)
    requires
        ({
            let raw = before + "Error code "@ + code + ":"@ + rest;
            forall|j: int|
                0 <= j < before.len() ==> #[trigger] raw.subrange(j, j + 11) != "Error code "@
        }),
        text::find(code + ":"@ + rest, "Error code "@) is None,
        !code.contains(':'),
    ensures
        error_code(before + "Error code "@ + code + ":"@ + rest) == Some(code),
{
    reveal_strlit("Error code ");
    reveal_strlit(":");
    let raw = before + "Error code "@ + code + ":"@ + rest;
    let tail = code + ":"@ + rest;
    text::law_find_is_the_first_place(raw, "Error code "@);
    assert(raw.subrange(before.len() as int, before.len() as int + 11) =~= "Error code "@);
    assert(text::find(raw, "Error code "@) == Some(before.len() as int));
    assert(raw.skip(before.len() as int + 11) =~= tail);
    text::law_split_is_at_the_first(tail, ':');
    assert(tail[code.len() as int] == ':');
    let (a, b) = text::split_at_first(tail, ':')->0;
    assert(":"@ =~= seq![':']);
    assert forall|i: int| 0 <= i < code.len() implies #[trigger] code[i] != ':' by {
        assert(code.contains(code[i]));
    }
    assert forall|i: int| 0 <= i < a.len() implies #[trigger] a[i] != ':' by {
        assert(a.contains(a[i]));
    }
    text::lemma_split_unique(a, b, code, rest, ':');
}

/// A failure that does not name the request's layer is told as it is; one
/// that does is summed up, with whether smaller amounts were tried too.
pub proof fn law_infeasible_details_hide_the_layer(raw: Seq<char>, split: Seq<char>, descended: bool)
    ensures
        text::find(raw, split) is None ==> infeasible_detail(raw, split, descended) == raw,
        text::find(raw, split) is Some && error_code(raw) is None ==> infeasible_detail(
            raw,
            split,
            descended,
        ) == if descended {
            "no usable route from the sources to the destinations at this amount and budget, nor at smaller amounts"@
        } else {
            "no usable route from the sources to the destinations at this amount and budget"@
        },
        text::find(raw, split) is Some ==> (error_code(raw) matches Some(code) ==> infeasible_detail(
            raw,
            split,
            descended,
        ) == if descended {
            "no usable route from the sources to the destinations at this amount and budget, nor at smaller amounts (getroutes "@
                + code + ")"@
        } else {
            "no usable route from the sources to the destinations at this amount and budget (getroutes "@
                + code + ")"@
        }),
{
    reveal_strlit("no usable route from the sources to the destinations at this amount and budget");
    reveal_strlit(", nor at smaller amounts");
    reveal_strlit(" (getroutes ");
    reveal_strlit(")");
    reveal_strlit(
        "no usable route from the sources to the destinations at this amount and budget, nor at smaller amounts",
    );
    reveal_strlit(
        "no usable route from the sources to the destinations at this amount and budget, nor at smaller amounts (getroutes ",
    );
    reveal_strlit(
        "no usable route from the sources to the destinations at this amount and budget (getroutes ",
    );
    let told = infeasible_detail(raw, split, descended);
    if text::find(raw, split) is Some {
        match error_code(raw) {
            None => {
                if descended {
                    assert(told
                        =~= "no usable route from the sources to the destinations at this amount and budget, nor at smaller amounts"@);
                } else {
                    assert(told
                        =~= "no usable route from the sources to the destinations at this amount and budget"@);
                }
            },
            Some(code) => {
                if descended {
                    assert(told
                        =~= "no usable route from the sources to the destinations at this amount and budget, nor at smaller amounts (getroutes "@
                        + code + ")"@);
                } else {
                    assert(told
                        =~= "no usable route from the sources to the destinations at this amount and budget (getroutes "@
                        + code + ")"@);
                }
            },
        }
    }
}

/// A solved route that ends at the stand-in node over the mirror `mirror`
/// of one of our channels, sending `sent_msat` and delivering
/// `delivered_msat` over the hops `path`.
pub open spec fn is_sound_route(
    route: Json,
    path: Seq<Json>,
    mirror: Seq<char>,
    sent_msat: u64,
    delivered_msat: u64,
) -> bool {
    &&& route.at("path"@) matches Json::Array(hops) && hops@ == path
    &&& path.len() >= 1
    &&& path[0].at("amount_in_msat"@) == Json::Uint(sent_msat)
    &&& path.last().at("amount_out_msat"@) == Json::Uint(delivered_msat)
    &&& path.last().at("node_id_out"@) matches Json::Str(node) && node@
        == "0200000000000000000000000000000000000000000000000000000000000000ff"@
    &&& path.last().at("short_channel_id_dir"@) matches Json::Str(scidd) && scidd@ == mirror
}

/// Every sound route of at most twenty hops whose fee honors the rate is
/// kept, with its own amounts and its mirror's real channel; one whose fee
/// does not is pruned for its rate, which is rounded down; and one of more
/// hops is pruned for its length.
pub proof fn law_sound_routes_within_the_limits_are_kept(
    route: Json,
    path: Seq<Json>,
    mirror: Seq<char>,
    sent_msat: u64,
    delivered_msat: u64,
    unsplit: Map<Seq<char>, Seq<char>>,
    amount_msat: u64,
    maxfee_msat: u64,
)
    requires
        is_sound_route(route, path, mirror, sent_msat, delivered_msat),
        unsplit.contains_key(mirror),
    ensures
        ({
            let v = verdict(route, unsplit, amount_msat, maxfee_msat);
            let fee_msat = if sent_msat > delivered_msat {
                sent_msat - delivered_msat
            } else {
                0
            };
            let honored = fee_msat * amount_msat <= maxfee_msat * delivered_msat;
            &&& path.len() > 20 ==> v is TooLong
            &&& path.len() <= 20 && honored ==> v == (Verdict::Keep {
                sent_msat,
                delivered_msat,
                home: unsplit[mirror],
            })
            &&& path.len() <= 20 && !honored ==> (v matches Verdict::OverRate {
                ppm,
                delivered_msat: lost,
            } && lost == delivered_msat && (delivered_msat == 0 ==> ppm == 0) && (delivered_msat > 0
                ==> ppm == (fee_msat * 1_000_000 / (delivered_msat as int))
                % 0x1_0000_0000_0000_0000))
        }),
{
    reveal_strlit("0200000000000000000000000000000000000000000000000000000000000000ff");
}

/// A route is counted as too long only if its path has more than twenty
/// hops, and then always; it is counted as over the rate only if its fee
/// is.  An amount that is missing counts as nothing.
pub proof fn law_routes_are_pruned_only_for_cause(
    route: Json,
    unsplit: Map<Seq<char>, Seq<char>>,
    amount_msat: u64,
    maxfee_msat: u64,
)
    ensures
        ({
            let v = verdict(route, unsplit, amount_msat, maxfee_msat);
            let hops = route.at("path"@);
            let uint = |v: Json|
                match v {
                    Json::Uint(n) => n as int,
                    _ => 0,
                };
            &&& v is TooLong <==> (hops matches Json::Array(a) && a@.len() > 20)
            &&& v is OverRate ==> (hops matches Json::Array(a) && {
                let sent = uint(a@[0].at("amount_in_msat"@));
                let delivered = uint(a@.last().at("amount_out_msat"@));
                sent > delivered && (sent - delivered) * amount_msat > maxfee_msat * delivered
            })
            &&& v matches Verdict::Keep { sent_msat, delivered_msat, .. } ==> (
            hops matches Json::Array(a) && sent_msat == uint(a@[0].at("amount_in_msat"@))
                && delivered_msat == uint(a@.last().at("amount_out_msat"@)))
        }),
{
    if let Json::Array(a) = route.at("path"@) {
        if verdict(route, unsplit, amount_msat, maxfee_msat) is OverRate {
            let d = channels::uint_or_zero(a@.last().at("amount_out_msat"@)) as int;
            assert(0 * amount_msat <= maxfee_msat * d) by (nonlinear_arith)
                requires
                    maxfee_msat >= 0,
                    d >= 0,
            ;
        }
    }
}

/// A solved route is a fault exactly where it cannot be read as one of
/// ours: without a path or with an empty one, or, at twenty hops or less,
/// where it ends elsewhere, without a channel, or over no mirror of ours.
pub proof fn law_unreadable_routes_are_faults(
    route: Json,
    unsplit: Map<Seq<char>, Seq<char>>,
    amount_msat: u64,
    maxfee_msat: u64,
)
    ensures
        ({
            let v = verdict(route, unsplit, amount_msat, maxfee_msat);
            let last = route.at("path"@)->Array_0@.last();
            &&& v == Verdict::Fault(PlanErrorView::NoPath) <==> !(route.at("path"@) is Array)
            &&& v == Verdict::Fault(PlanErrorView::EmptyPath) <==> (
            route.at("path"@) matches Json::Array(a) && a@.len() == 0)
            &&& (route.at("path"@) matches Json::Array(a) && 1 <= a@.len() <= 20) ==> {
                let ends = last.at("node_id_out"@) matches Json::Str(node) && node@
                    == "0200000000000000000000000000000000000000000000000000000000000000ff"@;
                &&& v == Verdict::Fault(PlanErrorView::NotAtSplit) <==> !ends
                &&& v == Verdict::Fault(PlanErrorView::NoFinalScid) <==> ends && !(last.at(
                    "short_channel_id_dir"@,
                ) is Str)
                &&& last.at("short_channel_id_dir"@) matches Json::Str(s) ==> (v == Verdict::Fault(
                    PlanErrorView::UnknownMirror(s@),
                ) <==> ends && !unsplit.contains_key(s@))
            }
        }),
{
    reveal_strlit("0200000000000000000000000000000000000000000000000000000000000000ff");
}

proof fn lemma_first_fault(
    routes: Seq<Json>,
    unsplit: Map<Seq<char>, Seq<char>>,
    amount_msat: u64,
    maxfee_msat: u64,
    i: int,
)
    requires
        0 <= i,
    ensures
        match first_fault(routes, unsplit, amount_msat, maxfee_msat, i) {
            Some(f) => exists|k: int|
                i <= k < routes.len() && #[trigger] verdict(
                    routes[k],
                    unsplit,
                    amount_msat,
                    maxfee_msat,
                ) == Verdict::Fault(f) && forall|l: int|
                    i <= l < k ==> !(#[trigger] verdict(
                        routes[l],
                        unsplit,
                        amount_msat,
                        maxfee_msat,
                    ) is Fault),
            None => forall|k: int|
                i <= k < routes.len() ==> !(#[trigger] verdict(
                    routes[k],
                    unsplit,
                    amount_msat,
                    maxfee_msat,
                ) is Fault),
        },
    decreases routes.len() - i,
{
    if i < routes.len() {
        if !(verdict(routes[i], unsplit, amount_msat, maxfee_msat) is Fault) {
            lemma_first_fault(routes, unsplit, amount_msat, maxfee_msat, i + 1);
        }
    }
}

proof fn lemma_tally_counts(
    routes: Seq<Json>,
    unsplit: Map<Seq<char>, Seq<char>>,
    amount_msat: u64,
    maxfee_msat: u64,
    n: int,
)
    requires
        0 <= n <= routes.len(),
        forall|k: int|
            0 <= k < n ==> !(#[trigger] verdict(routes[k], unsplit, amount_msat, maxfee_msat)
                is Fault),
    ensures
        ({
            let t = tally(routes, unsplit, amount_msat, maxfee_msat, n);
            &&& t.kept.len() + t.long + t.rates.len() == n
            &&& forall|k: int|
                0 <= k < n && #[trigger] verdict(routes[k], unsplit, amount_msat, maxfee_msat)
                    is Keep ==> t.kept.contains(k)
            &&& (forall|k: int|
                0 <= k < n ==> !(#[trigger] verdict(routes[k], unsplit, amount_msat, maxfee_msat)
                    is TooLong)) ==> t.long == 0
            &&& (forall|k: int|
                0 <= k < n ==> !(#[trigger] verdict(routes[k], unsplit, amount_msat, maxfee_msat)
                    is OverRate)) ==> t.rates.len() == 0 && t.rate_msat == 0
            &&& forall|i: int, j: int|
                0 <= i < j < t.kept.len() ==> #[trigger] t.kept[i] < #[trigger] t.kept[j]
        }),
    decreases n,
{
    if n > 0 {
        lemma_tally_counts(routes, unsplit, amount_msat, maxfee_msat, n - 1);
        lemma_tally_bounds(routes, unsplit, amount_msat, maxfee_msat, n - 1);
        let before = tally(routes, unsplit, amount_msat, maxfee_msat, n - 1);
        let t = tally(routes, unsplit, amount_msat, maxfee_msat, n);
        assert forall|k: int|
            0 <= k < n && #[trigger] verdict(routes[k], unsplit, amount_msat, maxfee_msat)
                is Keep implies t.kept.contains(k) by {
            if k < n - 1 {
                assert(before.kept.contains(k));
                let i = choose|i: int| 0 <= i < before.kept.len() && before.kept[i] == k;
                assert(t.kept[i] == k);
            } else {
                assert(t.kept.last() == k);
            }
        }
        let v = verdict(routes[n - 1], unsplit, amount_msat, maxfee_msat);
        assert(!(v is Fault));
    }
}

/// Every route of a solve is accounted for: those that are kept, those
/// over the hop cap and those over the rate make up all that was solved.
/// A solve in which every route is sound and within the limits is kept
/// whole, and a plan without routes says why, unless nothing was solved.
pub proof fn law_every_route_is_accounted_for(
    r: Result<PlanResult, PlanError>,
    solved: Json,
    self_id: Seq<char>,
    unsplit: Map<Seq<char>, Seq<char>>,
    onion_scids: Table<String>,
    amount_msat: u64,
    maxfee_msat: u64,
)
    requires
        settles(r, solved, self_id, unsplit, onion_scids, amount_msat, maxfee_msat),
        solved.at("routes"@) is Array,
        r is Ok,
    ensures
        ({
            let routes = solved.at("routes"@)->Array_0@;
            let p = r->Ok_0;
            &&& p.routes@.len() + p.pruned.long + p.pruned.rates@.len() == routes.len()
            &&& p.detail is Some <==> p.routes@.len() == 0 && routes.len() > 0
            &&& p.effective_amount_msat == amount_msat
            &&& p.maxfee_msat == maxfee_msat
            &&& p.fee_msat <= maxfee_msat
            &&& p.onion_scids == onion_scids
            &&& (forall|i: int|
                0 <= i < routes.len() ==> !((#[trigger] routes[i]).at("path"@) matches Json::Array(
                    hops,
                ) && hops@.len() > 20)) ==> p.pruned.long == 0
        }),
{
    let routes = solved.at("routes"@).elements();
    let n = routes.len() as int;
    lemma_first_fault(routes, unsplit, amount_msat, maxfee_msat, 0);
    lemma_tally_counts(routes, unsplit, amount_msat, maxfee_msat, n);
    if forall|i: int|
        0 <= i < routes.len() ==> !((#[trigger] routes[i]).at("path"@) matches Json::Array(hops)
            && hops@.len() > 20) {
        assert forall|k: int| 0 <= k < n implies !(#[trigger] verdict(
            routes[k],
            unsplit,
            amount_msat,
            maxfee_msat,
        ) is TooLong) by {
            law_routes_are_pruned_only_for_cause(routes[k], unsplit, amount_msat, maxfee_msat);
        }
    }
}

/// A sound route of at most twenty hops whose fee honors the rate is in
/// the plan: the same hops with the same amounts, the last of them over
/// the real channel of its mirror and home to us.
pub proof fn law_good_routes_are_in_the_plan(
    r: Result<PlanResult, PlanError>,
    solved: Json,
    self_id: Seq<char>,
    unsplit: Map<Seq<char>, Seq<char>>,
    onion_scids: Table<String>,
    amount_msat: u64,
    maxfee_msat: u64,
    i: int,
    path: Seq<Json>,
    mirror: Seq<char>,
    sent_msat: u64,
    delivered_msat: u64,
)
    requires
        settles(r, solved, self_id, unsplit, onion_scids, amount_msat, maxfee_msat),
        solved.at("routes"@) matches Json::Array(routes) && 0 <= i < routes@.len()
            && is_sound_route(routes@[i], path, mirror, sent_msat, delivered_msat),
        r is Ok,
        path.len() <= 20,
        unsplit.contains_key(mirror),
        sent_msat <= delivered_msat || (sent_msat - delivered_msat) * amount_msat <= maxfee_msat
            * delivered_msat,
    ensures
        exists|j: int|
            0 <= j < r->Ok_0.routes@.len() && (#[trigger] r->Ok_0.routes@[j]).at("path"@) is Array
                && {
                let hops = r->Ok_0.routes@[j].at("path"@)->Array_0@;
                let (last, was) = (hops.last(), path.last());
                &&& hops.len() == path.len()
                &&& forall|k: int| 0 <= k < path.len() - 1 ==> #[trigger] hops[k] == path[k]
                &&& last.at("short_channel_id_dir"@).text() == Some(unsplit[mirror])
                &&& last.at("node_id_out"@).text() == Some(self_id)
                &&& last.at("amount_out_msat"@) == Json::Uint(delivered_msat)
                &&& last.at("amount_in_msat"@) == was.at("amount_in_msat"@)
                &&& last.at("cltv_out"@) == was.at("cltv_out"@)
            },
{
    let routes = solved.at("routes"@).elements();
    let n = routes.len() as int;
    let p = r->Ok_0;
    let t = tally(routes, unsplit, amount_msat, maxfee_msat, n);
    let fee_msat = if sent_msat > delivered_msat {
        sent_msat - delivered_msat
    } else {
        0
    };
    assert(fee_msat * amount_msat <= maxfee_msat * delivered_msat) by {
        assert(0 * amount_msat == 0) by (nonlinear_arith);
        assert(0 <= maxfee_msat * delivered_msat) by (nonlinear_arith)
            requires
                maxfee_msat >= 0,
                delivered_msat >= 0,
        ;
    }
    law_sound_routes_within_the_limits_are_kept(
        routes[i],
        path,
        mirror,
        sent_msat,
        delivered_msat,
        unsplit,
        amount_msat,
        maxfee_msat,
    );
    lemma_first_fault(routes, unsplit, amount_msat, maxfee_msat, 0);
    lemma_tally_counts(routes, unsplit, amount_msat, maxfee_msat, n);
    assert(t.kept.contains(i));
    let j = choose|j: int| 0 <= j < t.kept.len() && t.kept[j] == i;
    let new = p.routes@[j];
    assert(route_translated(new, routes[t.kept[j]], unsplit[mirror], self_id));
    if let Json::Array(hops) = new.at("path"@) {
        reveal_strlit("short_channel_id_dir");
        reveal_strlit("node_id_out");
        reveal_strlit("amount_out_msat");
        reveal_strlit("amount_in_msat");
        reveal_strlit("cltv_out");
        assert("short_channel_id_dir"@.len() == 20 && "node_id_out"@.len() == 11
            && "amount_out_msat"@.len() == 15 && "amount_in_msat"@.len() == 14 && "cltv_out"@.len()
            == 8);
        assert(hops@.last().field("amount_out_msat"@) == path.last().field("amount_out_msat"@));
        assert(hops@.last().field("amount_in_msat"@) == path.last().field("amount_in_msat"@));
        assert(hops@.last().field("cltv_out"@) == path.last().field("cltv_out"@));
        assert forall|k: int| 0 <= k < path.len() - 1 implies #[trigger] hops@[k] == path[k] by {
            assert(hops@.drop_last()[k] == path.drop_last()[k]);
        }
        assert(p.routes@[j].at("path"@) == Json::Array(hops));
    }
}

/// A solve is refused only for cause: a route that is a fault, or totals
/// that do not fit or cost more than the budget; and a route that is a
/// fault always refuses it, the first of them with its own reason.
pub proof fn law_solves_are_refused_only_for_cause(
    r: Result<PlanResult, PlanError>,
    solved: Json,
    self_id: Seq<char>,
    unsplit: Map<Seq<char>, Seq<char>>,
    onion_scids: Table<String>,
    amount_msat: u64,
    maxfee_msat: u64,
)
    requires
        settles(r, solved, self_id, unsplit, onion_scids, amount_msat, maxfee_msat),
        solved.at("routes"@) is Array,
    ensures
        ({
            let routes = solved.at("routes"@)->Array_0@;
            let faulty = exists|k: int|
                0 <= k < routes.len() && #[trigger] verdict(
                    routes[k],
                    unsplit,
                    amount_msat,
                    maxfee_msat,
                ) is Fault;
            &&& faulty ==> (r matches Err(e) && exists|k: int|
                0 <= k < routes.len() && #[trigger] verdict(
                    routes[k],
                    unsplit,
                    amount_msat,
                    maxfee_msat,
                ) == Verdict::Fault(e@) && forall|l: int|
                    0 <= l < k ==> !(#[trigger] verdict(
                        routes[l],
                        unsplit,
                        amount_msat,
                        maxfee_msat,
                    ) is Fault))
            &&& !faulty && r is Err ==> (r->Err_0@ is TotalsOverflow || (
            r->Err_0@ matches PlanErrorView::OverBudget { fee_msat, maxfee_msat: budget } && budget
                == maxfee_msat && fee_msat > maxfee_msat))
        }),
{
    lemma_first_fault(solved.at("routes"@).elements(), unsplit, amount_msat, maxfee_msat, 0);
}

/// What the first `n` of the routes send: the amount into their first hop.
pub open spec fn routes_send(routes: Seq<Json>, n: int) -> int
    decreases n,
{
    if n <= 0 {
        0
    } else {
        routes_send(routes, n - 1) + match routes[n - 1].at("path"@)->Array_0@[0].at(
            "amount_in_msat"@,
        ) {
            Json::Uint(m) => m as int,
            _ => 0,
        }
    }
}

/// What the first `n` of the routes deliver: the amount out of their last
/// hop.
pub open spec fn routes_deliver(routes: Seq<Json>, n: int) -> int
    decreases n,
{
    if n <= 0 {
        0
    } else {
        routes_deliver(routes, n - 1) + match routes[n - 1].at("path"@)->Array_0@.last().at(
            "amount_out_msat"@,
        ) {
            Json::Uint(m) => m as int,
            _ => 0,
        }
    }
}

proof fn lemma_tally_of_kept(
    out: Seq<Json>,
    routes: Seq<Json>,
    unsplit: Map<Seq<char>, Seq<char>>,
    self_id: Seq<char>,
    amount_msat: u64,
    maxfee_msat: u64,
    n: int,
)
    requires
        0 <= n <= routes.len(),
        ({
            let kept = tally(routes, unsplit, amount_msat, maxfee_msat, n).kept;
            kept.len() <= out.len() && translations(
                out.take(kept.len() as int),
                routes,
                kept,
                unsplit,
                self_id,
            )
        }),
    ensures
        ({
            let t = tally(routes, unsplit, amount_msat, maxfee_msat, n);
            &&& t.sent == routes_send(out, t.kept.len() as int)
            &&& t.delivered == routes_deliver(out, t.kept.len() as int)
        }),
    decreases n,
{
    if n > 0 {
        let t = tally(routes, unsplit, amount_msat, maxfee_msat, n);
        let before = tally(routes, unsplit, amount_msat, maxfee_msat, n - 1);
        let m = before.kept.len() as int;
        assert(before.kept =~= t.kept.take(m));
        assert(translations(out.take(m), routes, before.kept, unsplit, self_id)) by {
            assert forall|j: int| 0 <= j < m implies {
                let old = routes[#[trigger] before.kept[j]];
                let mirror = path_of(old)->0.last().at("short_channel_id_dir"@).text()->0;
                route_translated(out.take(m)[j], old, unsplit[mirror], self_id)
            } by {
                assert(t.kept[j] == before.kept[j]);
                assert(out.take(t.kept.len() as int)[j] == out[j]);
            }
        }
        lemma_tally_of_kept(out, routes, unsplit, self_id, amount_msat, maxfee_msat, n - 1);
        if verdict(routes[n - 1], unsplit, amount_msat, maxfee_msat) is Keep {
            let old = routes[t.kept[m]];
            let mirror = path_of(old)->0.last().at("short_channel_id_dir"@).text()->0;
            let new = out.take(t.kept.len() as int)[m];
            assert(new == out[m]);
            assert(route_translated(new, old, unsplit[mirror], self_id));
            exec::lemma_translation_keeps_amounts(new, old, unsplit[mirror], self_id);
        }
    }
}

/// A plan delivers what its routes deliver, together, and costs what they
/// send beyond that; a solve is refused for its totals only where what the
/// kept routes send or deliver does not fit, or costs more than the
/// budget.
pub proof fn law_plans_add_up_their_routes(
    r: Result<PlanResult, PlanError>,
    solved: Json,
    self_id: Seq<char>,
    unsplit: Map<Seq<char>, Seq<char>>,
    onion_scids: Table<String>,
    amount_msat: u64,
    maxfee_msat: u64,
)
    requires
        settles(r, solved, self_id, unsplit, onion_scids, amount_msat, maxfee_msat),
        r is Ok,
    ensures
        ({
            let p = r->Ok_0;
            let n = p.routes@.len() as int;
            let (sent, delivered) = (routes_send(p.routes@, n), routes_deliver(p.routes@, n));
            &&& p.delivered_msat == delivered
            &&& sent >= delivered ==> p.fee_msat == sent - delivered
            &&& sent < delivered ==> p.fee_msat == 0
        }),
{
    let routes = solved.at("routes"@).elements();
    let p = r->Ok_0;
    let n = routes.len() as int;
    let t = tally(routes, unsplit, amount_msat, maxfee_msat, n);
    assert(p.routes@.take(t.kept.len() as int) =~= p.routes@);
    lemma_tally_bounds(routes, unsplit, amount_msat, maxfee_msat, n);
    lemma_tally_of_kept(p.routes@, routes, unsplit, self_id, amount_msat, maxfee_msat, n);
}

/// What a plan without routes says of its solve: how many parts there
/// were, and how many of them were too long.
pub proof fn law_pruned_details_count_the_parts(solved: nat, long: nat)
    requires
        0 < solved,
        long <= solved,
    ensures
        pruned_detail(0, solved as int, 0) == Some(
            "all "@ + text::dec(solved) + " planned parts exceeded the fee rate cap"@,
        ),
        long > 0 ==> pruned_detail(0, solved as int, long as int) == Some(
            "all "@ + text::dec(solved) + " planned parts pruned: "@ + text::dec(long)
                + " over 20 hops, "@ + text::dec((solved - long) as nat)
                + " over the fee rate cap"@,
        ),
        pruned_detail(0, 0, 0) is None,
        forall|kept: int| kept > 0 ==> #[trigger] pruned_detail(kept, solved as int, long as int)
            is None,
{
    if long > 0 {
        reveal_strlit(" over ");
        reveal_strlit(" hops, ");
        reveal_strlit(" over 20 hops, ");
        reveal_with_fuel(text::dec, 2);
        assert(text::dec(20) =~= seq!['2', '0']);
        assert(pruned_detail(0, solved as int, long as int)->0 =~= "all "@ + text::dec(solved)
            + " planned parts pruned: "@ + text::dec(long) + " over 20 hops, "@ + text::dec(
            (solved - long) as nat,
        ) + " over the fee rate cap"@);
    }
}

proof fn lemma_pruned_rates(
    routes: Seq<Json>,
    unsplit: Map<Seq<char>, Seq<char>>,
    amount_msat: u64,
    maxfee_msat: u64,
    n: int,
)
    requires
        0 <= n <= routes.len(),
        forall|k: int|
            0 <= k < n ==> ({
                let v = #[trigger] verdict(routes[k], unsplit, amount_msat, maxfee_msat);
                v is Keep || v is OverRate
            }),
    ensures
        ({
            let t = tally(routes, unsplit, amount_msat, maxfee_msat, n);
            t.delivered + t.rate_msat == routes_deliver(routes, n)
        }),
    decreases n,
{
    if n > 0 {
        lemma_pruned_rates(routes, unsplit, amount_msat, maxfee_msat, n - 1);
        let v = verdict(routes[n - 1], unsplit, amount_msat, maxfee_msat);
        assert(v is Keep || v is OverRate);
    }
}

proof fn lemma_rates_are_listed(
    routes: Seq<Json>,
    unsplit: Map<Seq<char>, Seq<char>>,
    amount_msat: u64,
    maxfee_msat: u64,
    n: int,
    i: int,
)
    requires
        0 <= i < n <= routes.len(),
        verdict(routes[i], unsplit, amount_msat, maxfee_msat) is OverRate,
    ensures
        tally(routes, unsplit, amount_msat, maxfee_msat, n).rates.contains(
            verdict(routes[i], unsplit, amount_msat, maxfee_msat)->OverRate_ppm,
        ),
    decreases n,
{
    let before = tally(routes, unsplit, amount_msat, maxfee_msat, n - 1).rates;
    let all = tally(routes, unsplit, amount_msat, maxfee_msat, n).rates;
    let ppm = verdict(routes[i], unsplit, amount_msat, maxfee_msat)->OverRate_ppm;
    if i < n - 1 {
        lemma_rates_are_listed(routes, unsplit, amount_msat, maxfee_msat, n - 1, i);
        let k = choose|k: int| 0 <= k < before.len() && before[k] == ppm;
        assert(all[k] == ppm);
    } else {
        assert(all.last() == ppm);
    }
}

/// What is pruned for its rate is told: a sound route of at most twenty
/// hops over the rate is listed with its own rate, and, where every route
/// is sound and within the hop cap, what is kept and what was pruned make
/// up all that the solve would have delivered.
pub proof fn law_pruned_rates_are_told(
    r: Result<PlanResult, PlanError>,
    solved: Json,
    self_id: Seq<char>,
    unsplit: Map<Seq<char>, Seq<char>>,
    onion_scids: Table<String>,
    amount_msat: u64,
    maxfee_msat: u64,
    i: int,
    path: Seq<Json>,
    mirror: Seq<char>,
    sent_msat: u64,
    delivered_msat: u64,
)
    requires
        settles(r, solved, self_id, unsplit, onion_scids, amount_msat, maxfee_msat),
        solved.at("routes"@) is Array,
        r is Ok,
    ensures
        ({
            let routes = solved.at("routes"@)->Array_0@;
            let p = r->Ok_0;
            let n = routes.len() as int;
            &&& 0 <= i < n && is_sound_route(routes[i], path, mirror, sent_msat, delivered_msat)
                && path.len() <= 20 && unsplit.contains_key(mirror) && sent_msat > delivered_msat > 0
                && (sent_msat - delivered_msat) * amount_msat > maxfee_msat * delivered_msat
                ==> p.pruned.rates@.contains(
                (((sent_msat - delivered_msat) * 1_000_000 / (delivered_msat as int))
                    % 0x1_0000_0000_0000_0000) as u64,
            )
            &&& p.pruned.long == 0 && routes_deliver(routes, n) < 0x1_0000_0000_0000_0000
                ==> p.delivered_msat + p.pruned.rate_msat == routes_deliver(routes, n)
        }),
{
    let routes = solved.at("routes"@).elements();
    let n = routes.len() as int;
    let t = tally(routes, unsplit, amount_msat, maxfee_msat, n);
    lemma_first_fault(routes, unsplit, amount_msat, maxfee_msat, 0);
    lemma_tally_bounds(routes, unsplit, amount_msat, maxfee_msat, n);
    if 0 <= i < n && is_sound_route(routes[i], path, mirror, sent_msat, delivered_msat)
        && path.len() <= 20 && unsplit.contains_key(mirror) && sent_msat > delivered_msat > 0 && (
    sent_msat - delivered_msat) * amount_msat > maxfee_msat * delivered_msat {
        law_sound_routes_within_the_limits_are_kept(
            routes[i],
            path,
            mirror,
            sent_msat,
            delivered_msat,
            unsplit,
            amount_msat,
            maxfee_msat,
        );
        lemma_rates_are_listed(routes, unsplit, amount_msat, maxfee_msat, n, i);
    }
    if t.long == 0 {
        lemma_no_long_routes(routes, unsplit, amount_msat, maxfee_msat, n);
        lemma_pruned_rates(routes, unsplit, amount_msat, maxfee_msat, n);
    }
}

proof fn lemma_no_long_routes(
    routes: Seq<Json>,
    unsplit: Map<Seq<char>, Seq<char>>,
    amount_msat: u64,
    maxfee_msat: u64,
    n: int,
)
    requires
        0 <= n <= routes.len(),
        tally(routes, unsplit, amount_msat, maxfee_msat, n).long == 0,
        forall|k: int|
            0 <= k < n ==> !(#[trigger] verdict(routes[k], unsplit, amount_msat, maxfee_msat)
                is Fault),
    ensures
        forall|k: int|
            0 <= k < n ==> ({
                let v = #[trigger] verdict(routes[k], unsplit, amount_msat, maxfee_msat);
                v is Keep || v is OverRate
            }),
    decreases n,
{
    if n > 0 {
        lemma_tally_bounds(routes, unsplit, amount_msat, maxfee_msat, n - 1);
        lemma_no_long_routes(routes, unsplit, amount_msat, maxfee_msat, n - 1);
        let v = verdict(routes[n - 1], unsplit, amount_msat, maxfee_msat);
        assert(!(v is Fault));
    }
}

/// The failures as they are told: each names what failed.
pub proof fn law_plan_failures_in_words(s: Seq<char>, fee_msat: u64, maxfee_msat: u64)
    ensures
        PlanErrorView::UnknownChannel(s).message() == "unknown channel "@ + s
            + ": not ours, or not in CHANNELD_NORMAL"@,
        PlanErrorView::NoRemoteUpdate(s).message() == "destination "@ + s
            + ": peer's channel_update not yet seen; cannot mirror its policy"@,
        PlanErrorView::Layer(s).message() == s,
        PlanErrorView::NoPath.message() == "getroutes: route without path"@,
        PlanErrorView::EmptyPath.message() == "empty path"@,
        PlanErrorView::NotAtSplit.message() == "getroutes: route does not end at the split node"@,
        PlanErrorView::NoFinalScid.message() == "final hop without scid"@,
        PlanErrorView::UnknownMirror(s).message() == "final hop over unknown mirror "@ + s,
        (PlanErrorView::OverBudget { fee_msat, maxfee_msat }).message() == "planned fee "@
            + text::dec(fee_msat as nat) + "msat exceeds budget "@ + text::dec(maxfee_msat as nat)
            + "msat"@,
{
}

/// A query leads from us to the stand-in node, for the amount and within
/// the budget of the rung the ladder stands on, and through the layers
/// with the request's own last, so that its masks count.
pub proof fn law_queries_are_for_the_rung(
    q: RouteQuery,
    ladder: Ladder,
    self_id: Seq<char>,
    split: Seq<char>,
    final_cltv: u64,
    maxparts: Option<u32>,
)
    requires
        q.is_for(ladder, self_id, split, final_cltv, maxparts),
        ladder.wf(),
    ensures
        q.source@ == self_id,
        q.destination@ == "0200000000000000000000000000000000000000000000000000000000000000ff"@,
        q.amount_msat == ladder.rung_msat,
        0 < q.amount_msat <= ladder.amount_msat,
        ladder.budget matches FeeBudget::Msat(msat) ==> q.maxfee_msat == msat,
        ladder.budget matches FeeBudget::Ppm(ppm) ==> q.maxfee_msat * 1_000_000 <= q.amount_msat
            * ppm < (q.maxfee_msat + 1) * 1_000_000,
        q.final_cltv == final_cltv,
        q.maxparts == maxparts,
        q.layers@.len() == 3,
        q.layers@[0]@ == "auto.localchans"@,
        q.layers@[1]@ == "xrebalance"@,
        q.layers@.last()@ == split,
{
    reveal_strlit("0200000000000000000000000000000000000000000000000000000000000000ff");
    let names = q.layers@.map_values(|s: String| s@);
    assert(names.len() == 3);
    assert(names[0] == q.layers@[0]@ && names[1] == q.layers@[1]@ && names[2] == q.layers@[2]@);
    if let FeeBudget::Ppm(ppm) = ladder.budget {
        request::law_allowance_is_the_budget(ladder.rung_msat, 0, ppm);
    }
}

/// A plan without routes moves nothing and costs nothing, and says why.
pub proof fn law_idle_plans_move_nothing(
    p: PlanResult,
    amount_msat: u64,
    maxfee_msat: u64,
    detail: Seq<char>,
)
    requires
        p.moves_nothing(amount_msat, maxfee_msat, detail),
    ensures
        p.routes@.len() == 0,
        p.delivered_msat == 0,
        p.fee_msat == 0,
        p.effective_amount_msat == amount_msat,
        p.maxfee_msat == maxfee_msat,
        p.detail matches Some(d) && d@ == detail,
        p.pruned.long == 0 && p.pruned.rates@.len() == 0 && p.pruned.rate_msat == 0,
{
}

proof fn lemma_tally_of_all(
    routes: Seq<Json>,
    unsplit: Map<Seq<char>, Seq<char>>,
    amount_msat: u64,
    maxfee_msat: u64,
    n: int,
)
    requires
        0 <= n <= routes.len(),
    ensures
        ({
            let t = tally(routes, unsplit, amount_msat, maxfee_msat, n);
            &&& 0 <= t.sent <= routes_send(routes, n)
            &&& 0 <= t.delivered <= routes_deliver(routes, n)
            &&& (forall|k: int|
                0 <= k < n ==> #[trigger] verdict(routes[k], unsplit, amount_msat, maxfee_msat)
                    is Keep) ==> t.sent == routes_send(routes, n) && t.delivered == routes_deliver(
                routes,
                n,
            )
        }),
    decreases n,
{
    if n > 0 {
        lemma_tally_of_all(routes, unsplit, amount_msat, maxfee_msat, n - 1);
        if forall|k: int|
            0 <= k < n ==> #[trigger] verdict(routes[k], unsplit, amount_msat, maxfee_msat)
                is Keep {
            assert(verdict(routes[n - 1], unsplit, amount_msat, maxfee_msat) is Keep);
        }
    }
}

/// A solve that can be afforded is settled: where every route is kept,
/// what they send and deliver fits, and the difference is within the
/// budget, there is a plan; where it is not within the budget, the solve
/// is refused with what it would have cost.  Totals are refused only where
/// what the routes send or deliver does not fit.
pub proof fn law_affordable_solves_are_settled(
    r: Result<PlanResult, PlanError>,
    solved: Json,
    self_id: Seq<char>,
    unsplit: Map<Seq<char>, Seq<char>>,
    onion_scids: Table<String>,
    amount_msat: u64,
    maxfee_msat: u64,
)
    requires
        settles(r, solved, self_id, unsplit, onion_scids, amount_msat, maxfee_msat),
        solved.at("routes"@) is Array,
    ensures
        ({
            let routes = solved.at("routes"@)->Array_0@;
            let n = routes.len() as int;
            let (sent, delivered) = (routes_send(routes, n), routes_deliver(routes, n));
            let fits = sent < 0x1_0000_0000_0000_0000 && delivered < 0x1_0000_0000_0000_0000;
            let kept = forall|k: int|
                0 <= k < n ==> #[trigger] verdict(routes[k], unsplit, amount_msat, maxfee_msat)
                    is Keep;
            &&& kept && fits && sent - delivered <= maxfee_msat ==> r is Ok
            &&& kept && fits && sent - delivered > maxfee_msat ==> (r matches Err(e) && e@
                == (PlanErrorView::OverBudget {
                fee_msat: (sent - delivered) as u64,
                maxfee_msat,
            }))
            &&& kept && !fits ==> r is Err
            &&& (r matches Err(e) && e@ is TotalsOverflow) ==> !fits
        }),
{
    let routes = solved.at("routes"@).elements();
    let n = routes.len() as int;
    lemma_first_fault(routes, unsplit, amount_msat, maxfee_msat, 0);
    lemma_tally_of_all(routes, unsplit, amount_msat, maxfee_msat, n);
    if let Err(e) = r {
        if e@ is TotalsOverflow {
            if let Some(f) = first_fault(routes, unsplit, amount_msat, maxfee_msat, 0) {
                let k = choose|k: int|
                    0 <= k < routes.len() && #[trigger] verdict(
                        routes[k],
                        unsplit,
                        amount_msat,
                        maxfee_msat,
                    ) == Verdict::Fault(f);
                assert(!(f is TotalsOverflow));
            }
        }
    }
}

/// A failure without a ':' behind its code names all that follows, and
/// one without a code names none.
pub proof fn law_error_codes_reach_to_the_end(before: Seq<char>, code: Seq<char>, raw: Seq<char>)
    requires
        ({
            let told = before + "Error code "@ + code;
            forall|j: int|
                0 <= j < before.len() ==> #[trigger] told.subrange(j, j + 11) != "Error code "@
        }),
        text::find(code, "Error code "@) is None,
        !code.contains(':'),
        forall|j: int| 0 <= j <= raw.len() - 11 ==> #[trigger] raw.subrange(j, j + 11)
            != "Error code "@,
    ensures
        error_code(before + "Error code "@ + code) == Some(code),
        error_code(raw) is None,
{
    reveal_strlit("Error code ");
    let told = before + "Error code "@ + code;
    text::law_find_is_the_first_place(told, "Error code "@);
    text::law_find_is_the_first_place(raw, "Error code "@);
    assert(told.subrange(before.len() as int, before.len() as int + 11) =~= "Error code "@);
    assert(text::find(told, "Error code "@) == Some(before.len() as int));
    assert(told.skip(before.len() as int + 11) =~= code);
    text::law_split_is_at_the_first(code, ':');
    if let Some((a, b)) = text::split_at_first(code, ':') {
        assert(code[a.len() as int] == ':');
    }
}

} // verus!
