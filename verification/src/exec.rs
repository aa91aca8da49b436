//! Execution: turn planned routes into settled self-payment parts.
//!
//! The parts of one request are NOT an MPP set: each part is an
//! independent single payment with its OWN preimage, payment_hash,
//! and payment_secret, claimed on arrival (claims.rs).  Sharing one
//! hash across concurrently in-flight parts would be a theft hazard:
//! settling one part reveals its preimage to every node on its path,
//! and a node sitting on a second, still-in-flight part's path could
//! settle that part's incoming HTLC without forwarding it.  Per-part
//! preimages close the window entirely -- a settled part's preimage is
//! useless against the others -- and intermediates cannot even
//! correlate the parts as one transfer.  MPP-set atomicity exists to
//! protect a recipient who must get all-or-nothing; we are the
//! recipient, and partial delivery is the semantic.
//!
//! The result channel is the xrebalance_part notification: one event
//! per part reaching a terminal state, ALWAYS emitted -- whether the
//! part resolved inside the RPC's snapshot window or long after (a
//! background watcher follows every part past the response).  The
//! RPC response is a snapshot: the plan, each part's payment_hash
//! (its handle), and whatever already resolved.  The caller's label
//! correlates the parts of one request; pollers can follow the
//! per-part hashes via waitsendpay/listsendpays.

use crate::channels;
use crate::channels::scidd_of;
use crate::claims;
use crate::claims::{Claims, Registered};
use crate::json::Json;
use crate::layer;
use crate::outside;
use crate::outside::random_bytes;
use crate::plan;
use crate::table::Table;
use crate::text;
use crate::text::{parse_unsigned, same_text, split_once};
use vstd::prelude::*;
use vstd::string::*;

verus! {

/// waitsendpay's "Timed out" code: the HTLC is still in flight.
pub const WAITSENDPAY_TIMEOUT: i32 = 200;

// ---------------------------------------------------------------------
// From a route to a part
// ---------------------------------------------------------------------

/// Why a route cannot be sent.
#[derive(Debug, PartialEq, Eq)]
pub enum RouteError {
    /// The route has no path.
    NoPath,
    /// The path has no hop.
    EmptyPath,
    /// A hop has no short_channel_id_dir.
    NoScidd,
    /// A hop's short_channel_id_dir has no '/'.
    Malformed(String),
    /// What follows the '/' is no direction.
    BadDirection(String),
}

/// A refusal with its text as characters.
pub enum RouteErrorView {
    NoPath,
    EmptyPath,
    NoScidd,
    Malformed(Seq<char>),
    BadDirection(Seq<char>),
}

impl View for RouteError {
    type V = RouteErrorView;

    open spec fn view(&self) -> RouteErrorView {
        match *self {
            RouteError::NoPath => RouteErrorView::NoPath,
            RouteError::EmptyPath => RouteErrorView::EmptyPath,
            RouteError::NoScidd => RouteErrorView::NoScidd,
            RouteError::Malformed(s) => RouteErrorView::Malformed(s@),
            RouteError::BadDirection(s) => RouteErrorView::BadDirection(s@),
        }
    }
}

impl RouteErrorView {
    /// The refusal in words.
    pub open spec fn message(self) -> Seq<char> {
        match self {
            RouteErrorView::NoPath => "route without path"@,
            RouteErrorView::EmptyPath => "empty path"@,
            RouteErrorView::NoScidd => "hop without short_channel_id_dir"@,
            RouteErrorView::Malformed(s) => "malformed scidd "@ + s,
            RouteErrorView::BadDirection(s) => "invalid direction in scidd "@ + s,
        }
    }
}

impl RouteError {
    /// The refusal in words.
    pub fn message(&self) -> (r: String)
        ensures
            r@ == self@.message(),
    {
        match self {
            RouteError::NoPath => "route without path".to_owned(),
            RouteError::EmptyPath => "empty path".to_owned(),
            RouteError::NoScidd => "hop without short_channel_id_dir".to_owned(),
            RouteError::Malformed(s) => {
                let mut out = "malformed scidd ".to_owned();
                out.append(s);
                out
            },
            RouteError::BadDirection(s) => {
                let mut out = "invalid direction in scidd ".to_owned();
                out.append(s);
                out
            },
        }
    }
}

/// One hop in sendpay's format.  A member that the hop lacks is passed
/// on as absent.
#[derive(Debug)]
pub struct SendpayHop<'a> {
    pub id: Option<&'a Json>,
    pub channel: String,
    pub direction: u32,
    pub amount_msat: Option<&'a Json>,
    pub delay: Option<&'a Json>,
}

/// A sendpay hop with its texts as characters.
pub struct SendpayHopView {
    pub id: Option<Json>,
    pub channel: Seq<char>,
    pub direction: u32,
    pub amount_msat: Option<Json>,
    pub delay: Option<Json>,
}

impl<'a> View for SendpayHop<'a> {
    type V = SendpayHopView;

    open spec fn view(&self) -> SendpayHopView {
        SendpayHopView {
            id: layer::unref(self.id),
            channel: self.channel@,
            direction: self.direction,
            amount_msat: layer::unref(self.amount_msat),
            delay: layer::unref(self.delay),
        }
    }
}

/// The scid to name in the onion for a channel direction.
pub open spec fn onion_name(
    scidd: Seq<char>,
    scid: Seq<char>,
    onion_scids: Map<Seq<char>, Seq<char>>,
) -> Seq<char> {
    if onion_scids.contains_key(scidd) {
        onion_scids[scidd]
    } else {
        scid
    }
}

/// A translated getroutes hop in sendpay's format.
pub open spec fn sendpay_form(hop: Json, onion_scids: Map<Seq<char>, Seq<char>>) -> Result<
    SendpayHopView,
    RouteErrorView,
> {
    match hop.at("short_channel_id_dir"@).text() {
        None => Err(RouteErrorView::NoScidd),
        Some(scidd) => match text::split_at_first(scidd, '/') {
            None => Err(RouteErrorView::Malformed(scidd)),
            Some((scid, dir)) => match text::unsigned_upto(dir, u32::MAX as nat) {
                None => Err(RouteErrorView::BadDirection(scidd)),
                Some(d) => Ok(
                    SendpayHopView {
                        id: hop.field("node_id_out"@),
                        channel: onion_name(scidd, scid, onion_scids),
                        direction: d as u32,
                        amount_msat: hop.field("amount_out_msat"@),
                        delay: hop.field("cltv_out"@),
                    },
                ),
            },
        },
    }
}

/// One hop of a part's route, kept for outcome feedback.
#[derive(Debug)]
pub struct PartHop {
    /// Real-channel scidd (post-translation for the final hop).
    pub scidd: String,
    /// The scid actually named in the onion (alias for unannounced
    /// channels) -- what erring_channel reports for this hop.
    pub onion_scid: String,
    /// The HTLC amount crossing this channel.
    pub amount_msat: u64,
    /// Our own channel (first hop out, return hop home): local
    /// truth belongs to auto.localchans, never the learned layer.
    pub ours: bool,
}

/// A hop with its texts as characters.
pub struct PartHopView {
    pub scidd: Seq<char>,
    pub onion_scid: Seq<char>,
    pub amount_msat: u64,
    pub ours: bool,
}

impl View for PartHop {
    type V = PartHopView;

    open spec fn view(&self) -> PartHopView {
        PartHopView {
            scidd: self.scidd@,
            onion_scid: self.onion_scid@,
            amount_msat: self.amount_msat,
            ours: self.ours,
        }
    }
}

impl Clone for PartHop {
    fn clone(&self) -> (r: Self)
        ensures
            r == *self,
    {
        PartHop {
            scidd: self.scidd.clone(),
            onion_scid: self.onion_scid.clone(),
            amount_msat: self.amount_msat,
            ours: self.ours,
        }
    }
}

/// The hops of a part with their texts as characters.
pub open spec fn hop_views(hops: Seq<PartHop>) -> Seq<PartHopView> {
    hops.map_values(|h: PartHop| h@)
}

/// The scid of a channel direction.
pub open spec fn scid_part(scidd: Seq<char>) -> Seq<char> {
    match text::split_at_first(scidd, '/') {
        Some((scid, _)) => scid,
        None => seq![],
    }
}

/// What is kept of a hop that can be sent.
pub open spec fn kept_form(
    hop: Json,
    onion_scids: Map<Seq<char>, Seq<char>>,
    ours: bool,
) -> PartHopView {
    let scidd = hop.at("short_channel_id_dir"@).text()->0;
    PartHopView {
        scidd,
        onion_scid: onion_name(scidd, scid_part(scidd), onion_scids),
        amount_msat: channels::uint_or_zero(hop.at("amount_out_msat"@)),
        ours,
    }
}

/// What is kept of the hops of a path that can be sent: the first and
/// the last are ours.
pub open spec fn kept_path(
    path: Seq<Json>,
    onion_scids: Map<Seq<char>, Seq<char>>,
) -> Seq<PartHopView> {
    Seq::new(
        path.len(),
        |i: int| kept_form(path[i], onion_scids, i == 0 || i == path.len() - 1),
    )
}

/// How far a part has come.
#[derive(Debug, Clone, Copy, PartialEq, Eq, Structural)]
pub enum PartStatus {
    Pending,
    Complete,
    Failed,
}

impl PartStatus {
    /// The status as reported.
    pub open spec fn name(self) -> Seq<char> {
        match self {
            PartStatus::Pending => "pending"@,
            PartStatus::Complete => "complete"@,
            PartStatus::Failed => "failed"@,
        }
    }

    /// The status as reported.
    pub fn as_str(&self) -> (r: &'static str)
        ensures
            r@ == self.name(),
    {
        match self {
            PartStatus::Pending => "pending",
            PartStatus::Complete => "complete",
            PartStatus::Failed => "failed",
        }
    }
}

/// One part of a request.
#[derive(Debug)]
pub struct Part {
    /// 1-based ordinal within this request (presentation only; at
    /// the sendpay level every part is a standalone payment).
    pub part_index: u64,
    /// This part's own payment hash -- its durable handle.
    pub payment_hash: String,
    pub first_hop: String,
    /// Real return channel (post-translation), never the alias.
    pub return_hop: String,
    /// Planned amounts: an HTLC settles at exactly its route's
    /// amounts, so these are authoritative once a part completes.
    pub planned_msat: u64,
    pub planned_sent_msat: u64,
    /// The route's hops, for writing outcome feedback.
    pub hops: Vec<PartHop>,
    pub status: PartStatus,
    pub detail: Option<String>,
    /// The hop a failed part stopped at, where the failure named one.
    pub stopped_at: Option<usize>,
}

impl Clone for Part {
    fn clone(&self) -> (r: Self)
        ensures
            r.hops@ == self.hops@,
            r == (Part { hops: r.hops, ..*self }),
    {
        let hops = self.hops.clone();
        proof {
            assert(hops@ =~= self.hops@);
        }
        Part {
            part_index: self.part_index,
            payment_hash: self.payment_hash.clone(),
            first_hop: self.first_hop.clone(),
            return_hop: self.return_hop.clone(),
            planned_msat: self.planned_msat,
            planned_sent_msat: self.planned_sent_msat,
            hops,
            status: self.status,
            detail: match &self.detail {
                Some(d) => Some(d.clone()),
                None => None,
            },
            stopped_at: self.stopped_at,
        }
    }
}

fn hop_forms<'a>(
    hop: &'a Json,
    onion_scids: &Table<String>,
    ours: bool,
) -> (r: Result<(SendpayHop<'a>, PartHop), RouteError>)
    requires
        onion_scids.wf(),
    ensures
        match r {
            Ok((s, p)) => sendpay_form(*hop, layer::text_map(onion_scids@)) == Ok::<
                SendpayHopView,
                RouteErrorView,
            >(s@) && p@ == kept_form(*hop, layer::text_map(onion_scids@), ours),
            Err(e) => sendpay_form(*hop, layer::text_map(onion_scids@)) == Err::<
                SendpayHopView,
                RouteErrorView,
            >(e@),
        },
{
    let scidd = match hop.text_at("short_channel_id_dir") {
        Some(s) => s,
        None => return Err(RouteError::NoScidd),
    };
    let (scid, dir) = match split_once(scidd, '/') {
        Some(p) => p,
        None => return Err(RouteError::Malformed(scidd.to_owned())),
    };
    let channel = match onion_scids.get(scidd) {
        Some(alias) => alias.clone(),
        None => scid,
    };
    let direction: u32 = match parse_unsigned(dir.as_str(), u32::MAX as u64) {
        Some(d) => d as u32,
        None => return Err(RouteError::BadDirection(scidd.to_owned())),
    };
    let amount_msat: u64 = match hop.uint_at("amount_out_msat") {
        Some(n) => n,
        None => 0,
    };
    let kept = PartHop {
        scidd: scidd.to_owned(),
        onion_scid: channel.clone(),
        amount_msat,
        ours,
    };
    let sent = SendpayHop {
        id: hop.get("node_id_out"),
        channel,
        direction,
        amount_msat: hop.get("amount_out_msat"),
        delay: hop.get("cltv_out"),
    };
    Ok((sent, kept))
}

/// Convert one translated getroutes hop into sendpay's hop format.
/// `onion_scids` substitutes the peer-assigned alias for channels
/// whose real scid the forwarding peer refuses (unannounced
/// channels, option_scid_alias) -- bookkeeping keeps the real scid,
/// only the onion sees the alias.
pub fn hop_to_sendpay<'a>(hop: &'a Json, onion_scids: &Table<String>) -> (r: Result<
    SendpayHop<'a>,
    RouteError,
>)
    requires
        onion_scids.wf(),
    ensures
        match r {
            Ok(s) => sendpay_form(*hop, layer::text_map(onion_scids@)) == Ok::<
                SendpayHopView,
                RouteErrorView,
            >(s@),
            Err(e) => sendpay_form(*hop, layer::text_map(onion_scids@)) == Err::<
                SendpayHopView,
                RouteErrorView,
            >(e@),
        },
{
    match hop_forms(hop, onion_scids, false) {
        Ok((s, _)) => Ok(s),
        Err(e) => Err(e),
    }
}

/// Why the first hop at or after `i` that cannot be sent cannot.
pub open spec fn hop_fault(
    path: Seq<Json>,
    onion_scids: Map<Seq<char>, Seq<char>>,
    i: int,
) -> Option<RouteErrorView>
    decreases path.len() - i,
{
    if i < 0 || i >= path.len() {
        None
    } else {
        match sendpay_form(path[i], onion_scids) {
            Err(e) => Some(e),
            Ok(_) => hop_fault(path, onion_scids, i + 1),
        }
    }
}

/// Why a route cannot be sent, if it cannot.
pub open spec fn route_fault(
    route: Json,
    onion_scids: Map<Seq<char>, Seq<char>>,
) -> Option<RouteErrorView> {
    match plan::path_of(route) {
        None => Some(RouteErrorView::NoPath),
        Some(path) => if let Some(e) = hop_fault(path, onion_scids, 0) {
            Some(e)
        } else if path.len() == 0 {
            Some(RouteErrorView::EmptyPath)
        } else {
            None
        },
    }
}

impl Part {
    /// The part that sends `route`, before it is sent.
    pub open spec fn sends(
        &self,
        route: Json,
        onion_scids: Map<Seq<char>, Seq<char>>,
        index: int,
        payment_hash: Seq<char>,
    ) -> bool {
        let path = plan::path_of(route)->0;
        &&& self.part_index == index + 1
        &&& self.payment_hash@ == payment_hash
        &&& self.first_hop@ == path[0].at("short_channel_id_dir"@).text()->0
        &&& self.return_hop@ == path.last().at("short_channel_id_dir"@).text()->0
        &&& self.planned_msat == channels::uint_or_zero(path.last().at("amount_out_msat"@))
        &&& self.planned_sent_msat == channels::uint_or_zero(path[0].at("amount_in_msat"@))
        &&& hop_views(self.hops@) == kept_path(path, onion_scids)
        &&& self.status == PartStatus::Pending
        &&& self.detail is None
        &&& self.stopped_at is None
    }

    /// What the part delivered.
    pub open spec fn delivered(&self) -> u64 {
        if self.status == PartStatus::Complete {
            self.planned_msat
        } else {
            0
        }
    }

    /// What the part cost.
    pub open spec fn fee(&self) -> u64 {
        if self.status == PartStatus::Complete {
            plan::fee_between(self.planned_sent_msat, self.planned_msat)
        } else {
            0
        }
    }

    /// What the part delivered.
    pub fn delivered_msat(&self) -> (r: u64)
        ensures
            r == self.delivered(),
    {
        match self.status {
            PartStatus::Complete => self.planned_msat,
            _ => 0,
        }
    }

    /// What the part cost.
    pub fn fee_msat(&self) -> (r: u64)
        ensures
            r == self.fee(),
    {
        match self.status {
            PartStatus::Complete => self.planned_sent_msat.saturating_sub(self.planned_msat),
            _ => 0,
        }
    }
}

/// A part and the route to send it by.
pub struct Prepared<'a> {
    pub part: Part,
    pub route: Vec<SendpayHop<'a>>,
}

/// The hops of a route in sendpay's format.
pub open spec fn sendpay_views<'a>(hops: Seq<SendpayHop<'a>>) -> Seq<SendpayHopView> {
    hops.map_values(|h: SendpayHop<'a>| h@)
}

/// Turn a planned route into a part to send.  `index` is the route's
/// position in the plan.
pub fn prepare<'a>(
    route: &'a Json,
    onion_scids: &Table<String>,
    index: usize,
    payment_hash: String,
) -> (r: Result<Prepared<'a>, RouteError>)
    requires
        onion_scids.wf(),
        index < usize::MAX,
    ensures
        ({
            let om = layer::text_map(onion_scids@);
            match r {
                Err(e) => route_fault(*route, om) == Some(e@),
                Ok(p) => {
                    let path = plan::path_of(*route)->0;
                    &&& route_fault(*route, om) is None
                    &&& p.part.sends(*route, om, index as int, payment_hash@)
                    &&& sendpay_views(p.route@) == Seq::new(
                        path.len(),
                        |i: int| sendpay_form(path[i], om)->Ok_0,
                    )
                },
            }
        }),
{
    let ghost om = layer::text_map(onion_scids@);
    let path = match route.items_at("path") {
        Some(p) => p,
        None => return Err(RouteError::NoPath),
    };
    let mut sent: Vec<SendpayHop<'a>> = Vec::new();
    let mut hops: Vec<PartHop> = Vec::new();
    for i in 0..path.len()
        invariant
            onion_scids.wf(),
            om == layer::text_map(onion_scids@),
            plan::path_of(*route) == Some(path@),
            hop_fault(path@, om, 0) == hop_fault(path@, om, i as int),
            sent@.len() == i,
            hops@.len() == i,
            forall|j: int|
                0 <= j < i ==> sendpay_form(path@[j], om) == Ok::<SendpayHopView, RouteErrorView>(
                    (#[trigger] sent@[j])@,
                ),
            forall|j: int|
                0 <= j < i ==> (#[trigger] hops@[j])@ == kept_form(
                    path@[j],
                    om,
                    j == 0 || j == path@.len() - 1,
                ),
    {
        let ours = i == 0 || i == path.len() - 1;
        match hop_forms(&path[i], onion_scids, ours) {
            Ok((s, h)) => {
                sent.push(s);
                hops.push(h);
            },
            Err(e) => return Err(e),
        }
    }
    if path.len() == 0 {
        return Err(RouteError::EmptyPath);
    }
    let last: usize = path.len() - 1;
    proof {
        assert(hop_views(hops@) =~= kept_path(path@, om));
        assert(sendpay_views(sent@) =~= Seq::new(
            path@.len(),
            |i: int| sendpay_form(path@[i], om)->Ok_0,
        ));
        assert(hops@[0]@ == kept_form(path@[0], om, true));
        assert(hops@[last as int]@ == kept_form(path@[last as int], om, true));
    }
    let planned_sent_msat: u64 = match path[0].uint_at("amount_in_msat") {
        Some(n) => n,
        None => 0,
    };
    let part = Part {
        part_index: index as u64 + 1,
        payment_hash,
        first_hop: hops[0].scidd.clone(),
        return_hop: hops[last].scidd.clone(),
        planned_msat: hops[last].amount_msat,
        planned_sent_msat,
        hops,
        status: PartStatus::Pending,
        detail: None,
        stopped_at: None,
    };
    Ok(Prepared { part, route: sent })
}

/// A part ready to be sent.
pub struct Launched<'a> {
    pub part: Part,
    pub route: Vec<SendpayHop<'a>>,
    pub payment_secret: String,
}

impl<'a> Launched<'a> {
    /// The part sends `route` under its own fresh hash and secret.
    pub open spec fn launches(
        &self,
        route: Json,
        onion_scids: Map<Seq<char>, Seq<char>>,
        index: int,
        preimage: Seq<u8>,
        secret: Seq<u8>,
    ) -> bool {
        let path = plan::path_of(route)->0;
        &&& self.part.sends(
            route,
            onion_scids,
            index,
            outside::hex_encoded(outside::sha256(preimage)),
        )
        &&& self.payment_secret@ == outside::hex_encoded(secret)
        &&& sendpay_views(self.route@) == Seq::new(
            path.len(),
            |i: int| sendpay_form(path[i], onion_scids)->Ok_0,
        )
    }
}

/// Turn a planned route into a part to send, and register its claim:
/// for its own preimage and secret, and for the amount it delivers.  A
/// route that cannot be sent registers nothing.
pub fn launch_with<'a>(
    claims: &mut Claims,
    route: &'a Json,
    onion_scids: &Table<String>,
    index: usize,
    preimage: &[u8; 32],
    secret: &[u8; 32],
    now: u64,
) -> (r: Result<Launched<'a>, RouteError>)
    requires
        old(claims).wf(),
        onion_scids.wf(),
        index < usize::MAX,
    ensures
        final(claims).wf(),
        ({
            let om = layer::text_map(onion_scids@);
            match r {
                Err(e) => route_fault(*route, om) == Some(e@) && final(claims)@ == old(claims)@,
                Ok(p) => {
                    &&& route_fault(*route, om) is None
                    &&& p.launches(*route, om, index as int, preimage@, secret@)
                    &&& final(claims)@ == old(claims)@.insert(
                        p.part.payment_hash@,
                        claims::claim_for(preimage@, secret@, p.part.planned_msat, now),
                    )
                },
            }
        }),
        r matches Ok(p) ==> {
            let hash = p.part.payment_hash@;
            &&& final(claims)@.contains_key(hash)
            &&& final(claims)@[hash].amount_msat == p.part.planned_msat
            &&& final(claims)@[hash].payment_secret == p.payment_secret@
            &&& claims::opens(final(claims)@[hash].preimage, hash)
        },
{
    match prepare(route, onion_scids, index, String::new()) {
        Err(e) => Err(e),
        Ok(Prepared { part, route: hops }) => {
            let Registered { payment_hash, payment_secret } = claims.register(
                preimage,
                secret,
                part.planned_msat,
                now,
            );
            proof {
                claims.law_claims_open_their_hash(payment_hash@);
            }
            Ok(Launched { part: Part { payment_hash, ..part }, route: hops, payment_secret })
        },
    }
}

/// Turn a planned route into a part to send, with a fresh preimage and
/// secret, so that no other part's settlement can be replayed against
/// it.
pub fn launch<'a>(
    claims: &mut Claims,
    route: &'a Json,
    onion_scids: &Table<String>,
    index: usize,
    now: u64,
) -> (r: Result<Launched<'a>, RouteError>)
    requires
        old(claims).wf(),
        onion_scids.wf(),
        index < usize::MAX,
    ensures
        final(claims).wf(),
        ({
            let om = layer::text_map(onion_scids@);
            match r {
                Err(e) => route_fault(*route, om) == Some(e@) && final(claims)@ == old(claims)@,
                Ok(p) => route_fault(*route, om) is None && exists|
                    preimage: Seq<u8>,
                    secret: Seq<u8>,
                |
                    preimage.len() == 32 && secret.len() == 32 && p.launches(
                        *route,
                        om,
                        index as int,
                        preimage,
                        secret,
                    ) && final(claims)@ == old(claims)@.insert(
                        p.part.payment_hash@,
                        #[trigger] claims::claim_for(
                            preimage,
                            secret,
                            p.part.planned_msat,
                            now,
                        ),
                    ),
            }
        }),
{
    let preimage = random_bytes();
    let secret = random_bytes();
    launch_with(claims, route, onion_scids, index, &preimage, &secret, now)
}

// ---------------------------------------------------------------------
// Outcomes
// ---------------------------------------------------------------------

/// Whether a failure that names `chan` and `dir` names this hop.
/// erring_channel reports the scid we named in the onion,
/// so aliases match too; the direction is node-id derived
/// and thus identical for alias and real scid.
pub open spec fn is_named(hop: PartHopView, chan: Seq<char>, dir: u64) -> bool {
    hop.scidd == channels::scidd(chan, dir) || channels::scidd(hop.onion_scid, dir)
        == channels::scidd(chan, dir)
}

/// The first hop at or after `i` that a failure names.
pub open spec fn named_from(
    hops: Seq<PartHopView>,
    chan: Seq<char>,
    dir: u64,
    i: int,
) -> Option<int>
    decreases hops.len() - i,
{
    if i < 0 || i >= hops.len() {
        None
    } else if is_named(hops[i], chan, dir) {
        Some(i)
    } else {
        named_from(hops, chan, dir, i + 1)
    }
}

/// The hop a failure's data names.
pub open spec fn erring_index(hops: Seq<PartHopView>, data: Json) -> Option<int> {
    match (data.at("erring_channel"@).text(), data.at("erring_direction"@).uint()) {
        (Some(chan), Some(dir)) => named_from(hops, chan, dir, 0),
        _ => None,
    }
}

/// The hop a failure's data names.
pub fn erring_hop(hops: &[PartHop], data: &Json) -> (r: Option<usize>)
    ensures
        match r {
            Some(i) => i < hops@.len() && erring_index(hop_views(hops@), *data) == Some(i as int),
            None => erring_index(hop_views(hops@), *data) is None,
        },
{
    let chan = match data.text_at("erring_channel") {
        Some(s) => s,
        None => return None,
    };
    let dir: u64 = match data.uint_at("erring_direction") {
        Some(n) => n,
        None => return None,
    };
    let erring = scidd_of(chan, dir);
    for i in 0..hops.len()
        invariant
            data.at("erring_channel"@).text() == Some(chan@),
            data.at("erring_direction"@).uint() == Some(dir),
            erring@ == channels::scidd(chan@, dir),
            named_from(hop_views(hops@), chan@, dir, 0) == named_from(
                hop_views(hops@),
                chan@,
                dir,
                i as int,
            ),
    {
        let h = &hops[i];
        proof {
            assert(hop_views(hops@)[i as int] == h@);
        }
        if same_text(h.scidd.as_str(), erring.as_str()) || same_text(
            scidd_of(h.onion_scid.as_str(), dir).as_str(),
            erring.as_str(),
        ) {
            return Some(i);
        }
    }
    None
}

/// The data of a failure, with its text.
#[derive(Debug)]
pub struct FailData {
    pub value: Json,
    pub text: String,
}

/// What waiting for a part came to.
#[derive(Debug)]
pub enum WaitReply {
    /// The part settled.
    Paid,
    /// waitsendpay reported an error.
    Failed { code: Option<i32>, message: String, data: Option<FailData> },
    /// waitsendpay could not be asked.
    Lost(String),
}

/// A failure in words.
pub open spec fn failure_text(message: Seq<char>, data: Option<FailData>) -> Seq<char> {
    match data {
        Some(d) => message + " data="@ + d.text@,
        None => message,
    }
}

/// Where a failure stopped a part.
pub open spec fn failure_stop(hops: Seq<PartHop>, data: Option<FailData>) -> Option<int> {
    match data {
        Some(d) => erring_index(hop_views(hops), d.value),
        None => None,
    }
}

/// An optional position as a number.
pub open spec fn position_of(i: Option<usize>) -> Option<int> {
    match i {
        Some(i) => Some(i as int),
        None => None,
    }
}

/// What a part's outcome is fed back as.
#[derive(Debug, Clone, Copy, PartialEq, Eq, Structural)]
pub enum Feedback {
    /// It teaches nothing, or nothing yet.
    Nothing,
    /// It settled.
    Success,
    /// It failed, with data to learn from.
    Failure,
}

/// What follows an outcome.
#[derive(Debug, Clone, Copy, PartialEq, Eq, Structural)]
pub struct Aftermath {
    /// Broadcast the part's terminal state.
    pub notify: bool,
    /// Drop the part's claim: it can no longer arrive.
    pub drop_claim: bool,
    pub feedback: Feedback,
}

/// What follows an outcome that left a part in `status`: every terminal
/// state is broadcast, a failed part's claim is dropped, and what there
/// is to learn is learned.
pub open spec fn aftermath_of(status: PartStatus, has_data: bool) -> Aftermath {
    Aftermath {
        notify: status != PartStatus::Pending,
        drop_claim: status == PartStatus::Failed,
        feedback: match status {
            PartStatus::Pending => Feedback::Nothing,
            PartStatus::Complete => Feedback::Success,
            PartStatus::Failed => if has_data {
                Feedback::Failure
            } else {
                Feedback::Nothing
            },
        },
    }
}

fn aftermath(status: PartStatus, has_data: bool) -> (r: Aftermath)
    ensures
        r == aftermath_of(status, has_data),
{
    match status {
        PartStatus::Pending => Aftermath {
            notify: false,
            drop_claim: false,
            feedback: Feedback::Nothing,
        },
        PartStatus::Complete => Aftermath {
            notify: true,
            drop_claim: false,
            feedback: Feedback::Success,
        },
        PartStatus::Failed => Aftermath {
            notify: true,
            drop_claim: true,
            feedback: if has_data {
                Feedback::Failure
            } else {
                Feedback::Nothing
            },
        },
    }
}

/// Whether a reply is a failure with data.
pub open spec fn has_data(reply: WaitReply) -> bool {
    reply matches WaitReply::Failed { data, .. } && data is Some
}

impl Part {
    /// Only what an outcome sets differs between two states of a part.
    pub open spec fn is_same_part(&self, other: Part) -> bool {
        *self == (Part {
            status: self.status,
            detail: self.detail,
            stopped_at: self.stopped_at,
            ..other
        })
    }

    /// The part failed, for the reason `message` and `data` give.
    pub open spec fn failed_with(
        &self,
        before: Part,
        message: Seq<char>,
        data: Option<FailData>,
    ) -> bool {
        &&& self.status == PartStatus::Failed
        &&& plan::text_of(self.detail) == Some(failure_text(message, data))
        &&& position_of(self.stopped_at) == failure_stop(before.hops@, data)
    }

    fn fail(&mut self, message: &str, data: &Option<FailData>)
        ensures
            final(self).is_same_part(*old(self)),
            final(self).failed_with(*old(self), message@, *data),
    {
        let mut detail = message.to_owned();
        match data {
            Some(d) => {
                detail.append(" data=");
                detail.append(d.text.as_str());
                self.stopped_at = erring_hop(&self.hops, &d.value);
            },
            None => {
                self.stopped_at = None;
            },
        }
        self.status = PartStatus::Failed;
        self.detail = Some(detail);
    }

    /// Take the outcome of the snapshot window's wait.  A timeout, or a
    /// wait that could not be made, leaves the part pending.
    pub fn after_wait(&mut self, reply: &WaitReply) -> (r: Aftermath)
        ensures
            final(self).is_same_part(*old(self)),
            r == aftermath_of(final(self).status, has_data(*reply)),
            match *reply {
                WaitReply::Paid => final(self).status == PartStatus::Complete && final(self).detail
                    == old(self).detail && final(self).stopped_at == old(self).stopped_at,
                WaitReply::Failed { code, message, data } => if code == Some(WAITSENDPAY_TIMEOUT) {
                    final(self).status == PartStatus::Pending && final(self).detail
                        == old(self).detail && final(self).stopped_at == old(self).stopped_at
                } else {
                    final(self).failed_with(*old(self), message@, data)
                },
                WaitReply::Lost(e) => final(self).status == PartStatus::Pending && plan::text_of(
                    final(self).detail,
                ) == Some("wait failed: "@ + e@) && final(self).stopped_at == old(self).stopped_at,
            },
            *reply is Paid <==> final(self).status == PartStatus::Complete,
            (*reply matches WaitReply::Failed { code, .. } && code != Some(200i32))
                <==> final(self).status == PartStatus::Failed,
    {
        match reply {
            WaitReply::Paid => {
                self.status = PartStatus::Complete;
                aftermath(self.status, false)
            },
            WaitReply::Failed { code, message, data } => {
                let timed_out = match code {
                    Some(c) => *c == WAITSENDPAY_TIMEOUT,
                    None => false,
                };
                if timed_out {
                    self.status = PartStatus::Pending;
                } else {
                    self.fail(message.as_str(), data);
                }
                aftermath(self.status, data.is_some())
            },
            WaitReply::Lost(e) => {
                self.status = PartStatus::Pending;
                let mut detail = "wait failed: ".to_owned();
                detail.append(e.as_str());
                self.detail = Some(detail);
                aftermath(self.status, false)
            },
        }
    }

    /// Take the outcome a background watcher waited for without a
    /// limit.  A lost watcher leaves the part as it is, and nothing
    /// follows.
    pub fn after_watch(&mut self, reply: &WaitReply) -> (r: Aftermath)
        ensures
            final(self).is_same_part(*old(self)),
            match *reply {
                WaitReply::Paid => r == aftermath_of(PartStatus::Complete, false)
                    && final(self).status == PartStatus::Complete && final(self).detail
                    == old(self).detail && final(self).stopped_at == old(self).stopped_at,
                WaitReply::Failed { code, message, data } => r == aftermath_of(
                    PartStatus::Failed,
                    data is Some,
                ) && final(self).failed_with(*old(self), message@, data),
                WaitReply::Lost(_) => r == aftermath_of(PartStatus::Pending, false)
                    && *final(self) == *old(self),
            },
    {
        match reply {
            WaitReply::Paid => {
                self.status = PartStatus::Complete;
                aftermath(PartStatus::Complete, false)
            },
            WaitReply::Failed { code: _, message, data } => {
                self.fail(message.as_str(), data);
                aftermath(PartStatus::Failed, data.is_some())
            },
            WaitReply::Lost(_) => aftermath(PartStatus::Pending, false),
        }
    }

    /// Whether the snapshot window of `wait_secs` waits for this part.
    pub fn is_awaited(&self, wait_secs: u64) -> (r: bool)
        ensures
            r == (wait_secs > 0 && self.status == PartStatus::Pending),
    {
        match self.status {
            PartStatus::Pending => wait_secs > 0,
            _ => false,
        }
    }

    /// The part could not be sent.
    pub fn not_sent(&mut self, error: &str) -> (r: Aftermath)
        ensures
            final(self).is_same_part(*old(self)),
            r == aftermath_of(PartStatus::Failed, false),
            final(self).status == PartStatus::Failed,
            plan::text_of(final(self).detail) == Some("sendpay: "@ + error@),
            final(self).stopped_at == old(self).stopped_at,
    {
        self.status = PartStatus::Failed;
        let mut detail = "sendpay: ".to_owned();
        detail.append(error);
        self.detail = Some(detail);
        aftermath(self.status, false)
    }

    /// Detach a part that is still pending: a background watcher
    /// follows it to its terminal state and emits its notification.
    /// False for a part that is terminal.
    pub fn detach(&mut self) -> (r: bool)
        ensures
            r == (old(self).status == PartStatus::Pending),
            final(self).is_same_part(*old(self)),
            final(self).status == old(self).status,
            final(self).stopped_at == old(self).stopped_at,
            if r && old(self).detail is None {
                plan::text_of(final(self).detail) == Some(
                    "in flight; result follows via notification"@,
                )
            } else {
                final(self).detail == old(self).detail
            },
    {
        match self.status {
            PartStatus::Pending => {
                if self.detail.is_none() {
                    self.detail = Some("in flight; result follows via notification".to_owned());
                }
                true
            },
            _ => false,
        }
    }
}

/// The label sendpay stores for a request's parts.
pub open spec fn payment_label_of(label: Option<String>) -> Seq<char> {
    "xrebalance/"@ + match label {
        Some(l) => l@,
        None => "unlabeled"@,
    }
}

/// The label sendpay stores for a request's parts.
pub fn payment_label(label: &Option<String>) -> (r: String)
    ensures
        r@ == payment_label_of(*label),
{
    let mut out = "xrebalance/".to_owned();
    match label {
        Some(l) => out.append(l.as_str()),
        None => out.append("unlabeled"),
    }
    out
}

/// How often a part is broadcast over its life: `sent`, `waited` and
/// `watched` are its states after sending, after the snapshot window
/// where it was still pending, and after its watcher where it still was.
pub open spec fn notifications(
    sent: PartStatus,
    waited: PartStatus,
    watched: PartStatus,
    has_data: bool,
) -> int {
    let at = |status: PartStatus|
        if aftermath_of(status, has_data).notify {
            1int
        } else {
            0
        };
    at(sent) + (if sent == PartStatus::Pending {
        at(waited)
    } else {
        0
    }) + (if waited == PartStatus::Pending {
        at(watched)
    } else {
        0
    })
}

/// Every part is broadcast exactly once, when it reaches its terminal
/// state: as it is sent, within the snapshot window, or by its watcher.
/// A part whose watcher is lost is not broadcast.
pub proof fn law_one_notification_per_part(
    sent: PartStatus,
    waited: PartStatus,
    watched: PartStatus,
    has_data: bool,
)
    requires
        sent != PartStatus::Complete,
        sent != PartStatus::Pending ==> waited == sent,
        waited != PartStatus::Pending ==> watched == waited,
    ensures
        notifications(sent, waited, watched, has_data) == if watched == PartStatus::Pending {
            0int
        } else {
            1
        },
{
}

// ---------------------------------------------------------------------
// Totals
// ---------------------------------------------------------------------

/// The sum of `f` over the first `n` parts.
pub open spec fn sum_of(parts: Seq<Part>, f: spec_fn(Part) -> u64, n: int) -> int
    decreases n,
{
    if n <= 0 {
        0
    } else {
        sum_of(parts, f, n - 1) + f(parts[n - 1])
    }
}

impl Part {
    /// What the part still has in flight.
    pub open spec fn pending(&self) -> u64 {
        if self.status == PartStatus::Pending {
            self.planned_msat
        } else {
            0
        }
    }

    /// What the part in flight would cost.
    pub open spec fn pending_fee(&self) -> u64 {
        if self.status == PartStatus::Pending {
            plan::fee_between(self.planned_sent_msat, self.planned_msat)
        } else {
            0
        }
    }
}

/// What a run of parts delivered.
pub open spec fn delivered_sum(parts: Seq<Part>) -> int {
    sum_of(parts, |p: Part| p.delivered(), parts.len() as int)
}

/// What a run of parts cost.
pub open spec fn fee_sum(parts: Seq<Part>) -> int {
    sum_of(parts, |p: Part| p.fee(), parts.len() as int)
}

/// What a run of parts has in flight.
pub open spec fn pending_sum(parts: Seq<Part>) -> int {
    sum_of(parts, |p: Part| p.pending(), parts.len() as int)
}

/// What the parts in flight would cost.
pub open spec fn pending_fee_sum(parts: Seq<Part>) -> int {
    sum_of(parts, |p: Part| p.pending_fee(), parts.len() as int)
}

/// What a run of parts came to.
#[derive(Debug, Clone, Copy, PartialEq, Eq, Structural)]
pub struct Totals {
    pub delivered_msat: u64,
    pub fee_msat: u64,
    pub pending_msat: u64,
    pub pending_fee_msat: u64,
}

proof fn lemma_sum_bounds(parts: Seq<Part>, f: spec_fn(Part) -> u64, n: int)
    requires
        0 <= n,
    ensures
        0 <= sum_of(parts, f, n) <= n * u64::MAX,
    decreases n,
{
    if n > 0 {
        lemma_sum_bounds(parts, f, n - 1);
    }
}

impl Totals {
    /// What the parts came to; None where a total does not fit.
    pub fn of(parts: &[Part]) -> (r: Option<Totals>)
        ensures
            match r {
                Some(t) => t.delivered_msat == delivered_sum(parts@) && t.fee_msat == fee_sum(
                    parts@,
                ) && t.pending_msat == pending_sum(parts@) && t.pending_fee_msat
                    == pending_fee_sum(parts@),
                None => delivered_sum(parts@) > u64::MAX || fee_sum(parts@) > u64::MAX
                    || pending_sum(parts@) > u64::MAX || pending_fee_sum(parts@) > u64::MAX,
            },
    {
        let ghost fd = |p: Part| p.delivered();
        let ghost ff = |p: Part| p.fee();
        let ghost fp = |p: Part| p.pending();
        let ghost fpf = |p: Part| p.pending_fee();
        let mut delivered: u128 = 0;
        let mut fee: u128 = 0;
        let mut pending: u128 = 0;
        let mut pending_fee: u128 = 0;
        for i in 0..parts.len()
            invariant
                delivered == sum_of(parts@, fd, i as int),
                fee == sum_of(parts@, ff, i as int),
                pending == sum_of(parts@, fp, i as int),
                pending_fee == sum_of(parts@, fpf, i as int),
                fd == (|p: Part| p.delivered()),
                ff == (|p: Part| p.fee()),
                fp == (|p: Part| p.pending()),
                fpf == (|p: Part| p.pending_fee()),
        {
            proof {
                lemma_sum_bounds(parts@, fd, i as int);
                lemma_sum_bounds(parts@, ff, i as int);
                lemma_sum_bounds(parts@, fp, i as int);
                lemma_sum_bounds(parts@, fpf, i as int);
            }
            let p = &parts[i];
            delivered = delivered + p.delivered_msat() as u128;
            fee = fee + p.fee_msat() as u128;
            if let PartStatus::Pending = p.status {
                pending = pending + p.planned_msat as u128;
                pending_fee = pending_fee + p.planned_sent_msat.saturating_sub(
                    p.planned_msat,
                ) as u128;
            }
        }
        let top: u128 = u64::MAX as u128;
        if delivered > top || fee > top || pending > top || pending_fee > top {
            return None;
        }
        Some(
            Totals {
                delivered_msat: delivered as u64,
                fee_msat: fee as u64,
                pending_msat: pending as u64,
                pending_fee_msat: pending_fee as u64,
            },
        )
    }
}

/// What a run of parts was planned to deliver.
pub open spec fn planned_sum(parts: Seq<Part>) -> int {
    sum_of(parts, |p: Part| p.planned_msat, parts.len() as int)
}

/// What a run of parts was planned to send.
pub open spec fn sent_sum(parts: Seq<Part>) -> int {
    sum_of(parts, |p: Part| p.planned_sent_msat, parts.len() as int)
}

proof fn lemma_commit_upto(parts: Seq<Part>, n: int)
    ensures
        sum_of(parts, |p: Part| p.delivered(), n) + sum_of(parts, |p: Part| p.pending(), n)
            <= sum_of(parts, |p: Part| p.planned_msat, n),
    decreases n,
{
    if n > 0 {
        lemma_commit_upto(parts, n - 1);
    }
}

/// The parts never commit more than was planned: what was delivered and
/// what is in flight, together, are at most the plan.
pub proof fn law_parts_commit_at_most_the_plan(parts: Seq<Part>)
    ensures
        delivered_sum(parts) + pending_sum(parts) <= planned_sum(parts),
{
    lemma_commit_upto(parts, parts.len() as int);
}

proof fn lemma_cost_upto(parts: Seq<Part>, n: int)
    requires
        forall|j: int|
            0 <= j < parts.len() ==> (#[trigger] parts[j]).planned_sent_msat
                >= parts[j].planned_msat,
        n <= parts.len(),
    ensures
        sum_of(parts, |p: Part| p.fee(), n) + sum_of(parts, |p: Part| p.pending_fee(), n)
            <= sum_of(parts, |p: Part| p.planned_sent_msat, n) - sum_of(
            parts,
            |p: Part| p.planned_msat,
            n,
        ),
    decreases n,
{
    if n > 0 {
        lemma_cost_upto(parts, n - 1);
        assert(parts[n - 1].planned_sent_msat >= parts[n - 1].planned_msat);
    }
}

/// The parts never cost more than was planned, whichever of them settle:
/// what settled parts cost and what parts in flight have reserved is at
/// most what the plan sends beyond what it delivers.
pub proof fn law_parts_cost_at_most_the_plan(parts: Seq<Part>)
    requires
        forall|j: int|
            0 <= j < parts.len() ==> (#[trigger] parts[j]).planned_sent_msat
                >= parts[j].planned_msat,
    ensures
        fee_sum(parts) + pending_fee_sum(parts) <= sent_sum(parts) - planned_sum(parts),
{
    lemma_cost_upto(parts, parts.len() as int);
}

proof fn lemma_kept_prefix(
    routes: Seq<Json>,
    unsplit: Map<Seq<char>, Seq<char>>,
    amount_msat: u64,
    maxfee_msat: u64,
    n: int,
    m: int,
)
    requires
        0 <= n <= m,
    ensures
        ({
            let kn = plan::tally(routes, unsplit, amount_msat, maxfee_msat, n).kept;
            let km = plan::tally(routes, unsplit, amount_msat, maxfee_msat, m).kept;
            kn.len() <= km.len() && km.take(kn.len() as int) == kn
        }),
    decreases m - n,
{
    let kn = plan::tally(routes, unsplit, amount_msat, maxfee_msat, n).kept;
    let km = plan::tally(routes, unsplit, amount_msat, maxfee_msat, m).kept;
    if n == m {
        assert(km.take(kn.len() as int) =~= kn);
    } else {
        lemma_kept_prefix(routes, unsplit, amount_msat, maxfee_msat, n, m - 1);
        let before = plan::tally(routes, unsplit, amount_msat, maxfee_msat, m - 1).kept;
        assert(km.take(kn.len() as int) =~= before.take(kn.len() as int));
    }
}

/// Translating a route changes none of its amounts.
pub proof fn lemma_translation_keeps_amounts(
    new: Json,
    old: Json,
    home: Seq<char>,
    self_id: Seq<char>,
)
    requires
        plan::route_translated(new, old, home, self_id),
    ensures
        plan::path_of(new)->0.last().at("amount_out_msat"@) == plan::path_of(old)->0.last().at(
            "amount_out_msat"@,
        ),
        plan::path_of(new)->0[0].at("amount_in_msat"@) == plan::path_of(old)->0[0].at(
            "amount_in_msat"@,
        ),
{
    reveal_strlit("amount_out_msat");
    reveal_strlit("amount_in_msat");
    reveal_strlit("short_channel_id_dir");
    reveal_strlit("node_id_out");
    let np = plan::path_of(new)->0;
    let op = plan::path_of(old)->0;
    assert("amount_out_msat"@.len() == 15 && "amount_in_msat"@.len() == 14);
    assert("short_channel_id_dir"@.len() == 20 && "node_id_out"@.len() == 11);
    assert(np.last().field("amount_out_msat"@) == op.last().field("amount_out_msat"@));
    if op.len() == 1 {
        assert(np.last().field("amount_in_msat"@) == op.last().field("amount_in_msat"@));
    } else {
        assert(np.drop_last()[0] == op.drop_last()[0]);
    }
}

proof fn lemma_parts_add_up_upto(
    parts: Seq<Part>,
    out: Seq<Json>,
    routes: Seq<Json>,
    unsplit: Map<Seq<char>, Seq<char>>,
    self_id: Seq<char>,
    onion_scids: Map<Seq<char>, Seq<char>>,
    amount_msat: u64,
    maxfee_msat: u64,
    n: int,
)
    requires
        0 <= n <= routes.len(),
        plan::translations(
            out,
            routes,
            plan::tally(routes, unsplit, amount_msat, maxfee_msat, routes.len() as int).kept,
            unsplit,
            self_id,
        ),
        parts.len() == out.len(),
        forall|j: int|
            0 <= j < parts.len() ==> (#[trigger] parts[j]).sends(
                out[j],
                onion_scids,
                j,
                parts[j].payment_hash@,
            ),
    ensures
        ({
            let t = plan::tally(routes, unsplit, amount_msat, maxfee_msat, n);
            &&& t.kept.len() <= parts.len()
            &&& sum_of(parts, |p: Part| p.planned_msat, t.kept.len() as int) == t.delivered
            &&& sum_of(parts, |p: Part| p.planned_sent_msat, t.kept.len() as int) == t.sent
        }),
    decreases n,
{
    let all = plan::tally(routes, unsplit, amount_msat, maxfee_msat, routes.len() as int);
    let t = plan::tally(routes, unsplit, amount_msat, maxfee_msat, n);
    lemma_kept_prefix(routes, unsplit, amount_msat, maxfee_msat, n, routes.len() as int);
    if n > 0 {
        lemma_parts_add_up_upto(
            parts,
            out,
            routes,
            unsplit,
            self_id,
            onion_scids,
            amount_msat,
            maxfee_msat,
            n - 1,
        );
        if plan::verdict(routes[n - 1], unsplit, amount_msat, maxfee_msat) is Keep {
            let j = t.kept.len() - 1;
            assert(all.kept.take(t.kept.len() as int)[j] == all.kept[j]);
            assert(all.kept[j] == n - 1);
            let mirror = plan::path_of(routes[n - 1])->0.last().at(
                "short_channel_id_dir"@,
            ).text()->0;
            lemma_translation_keeps_amounts(out[j], routes[n - 1], unsplit[mirror], self_id);
            assert(parts[j].sends(out[j], onion_scids, j, parts[j].payment_hash@));
        }
    }
}

/// The parts add up to the plan: sent as planned, they deliver and send
/// exactly what the plan says.
pub proof fn law_parts_add_up_to_the_plan(
    parts: Seq<Part>,
    out: Seq<Json>,
    routes: Seq<Json>,
    unsplit: Map<Seq<char>, Seq<char>>,
    self_id: Seq<char>,
    onion_scids: Map<Seq<char>, Seq<char>>,
    amount_msat: u64,
    maxfee_msat: u64,
)
    requires
        plan::translations(
            out,
            routes,
            plan::tally(routes, unsplit, amount_msat, maxfee_msat, routes.len() as int).kept,
            unsplit,
            self_id,
        ),
        parts.len() == out.len(),
        forall|j: int|
            0 <= j < parts.len() ==> (#[trigger] parts[j]).sends(
                out[j],
                onion_scids,
                j,
                parts[j].payment_hash@,
            ),
    ensures
        planned_sum(parts) == plan::tally(
            routes,
            unsplit,
            amount_msat,
            maxfee_msat,
            routes.len() as int,
        ).delivered,
        sent_sum(parts) == plan::tally(
            routes,
            unsplit,
            amount_msat,
            maxfee_msat,
            routes.len() as int,
        ).sent,
{
    lemma_parts_add_up_upto(
        parts,
        out,
        routes,
        unsplit,
        self_id,
        onion_scids,
        amount_msat,
        maxfee_msat,
        routes.len() as int,
    );
}

// ---------------------------------------------------------------------
// The summary
// ---------------------------------------------------------------------

/// How many hops a part still had to go where it stopped; all of them
/// where that is not known.
pub open spec fn hops_remaining(p: Part) -> int {
    match p.stopped_at {
        Some(i) => p.hops@.len() - i,
        None => p.hops@.len() as int,
    }
}

/// Part `i` failed, and none that failed came closer: it has the fewest
/// hops left, and it is the first of those.
pub open spec fn is_closest_miss(parts: Seq<Part>, i: int) -> bool {
    &&& 0 <= i < parts.len()
    &&& parts[i].status == PartStatus::Failed
    &&& forall|j: int|
        0 <= j < parts.len() && (#[trigger] parts[j]).status == PartStatus::Failed
            ==> hops_remaining(parts[i]) <= hops_remaining(parts[j]) && (j < i
            ==> hops_remaining(parts[i]) < hops_remaining(parts[j]))
}

fn remaining(p: &Part) -> (r: i128)
    ensures
        r == hops_remaining(*p),
{
    match p.stopped_at {
        Some(i) => p.hops.len() as i128 - i as i128,
        None => p.hops.len() as i128,
    }
}

/// The failed part that came closest to succeeding; None where none
/// failed.
pub fn closest_miss(parts: &[Part]) -> (r: Option<usize>)
    ensures
        match r {
            Some(i) => is_closest_miss(parts@, i as int),
            None => forall|j: int|
                0 <= j < parts@.len() ==> (#[trigger] parts@[j]).status != PartStatus::Failed,
        },
{
    let mut best: Option<usize> = None;
    for i in 0..parts.len()
        invariant
            match best {
                Some(b) => b < i && is_closest_miss(parts@.take(i as int), b as int),
                None => forall|j: int|
                    0 <= j < i ==> (#[trigger] parts@[j]).status != PartStatus::Failed,
            },
    {
        proof {
            assert forall|j: int| 0 <= j < i implies parts@.take(i + 1)[j] == parts@.take(
                i as int,
            )[j] by {}
        }
        let failed = match parts[i].status {
            PartStatus::Failed => true,
            _ => false,
        };
        if failed {
            let closer = match best {
                Some(b) => remaining(&parts[i]) < remaining(&parts[b]),
                None => true,
            };
            if closer {
                best = Some(i);
            }
        }
        proof {
            if let Some(b) = best {
                let t = parts@.take(i + 1);
                assert forall|j: int|
                    0 <= j < t.len() && (#[trigger] t[j]).status
                        == PartStatus::Failed implies hops_remaining(t[b as int])
                    <= hops_remaining(t[j]) && (j < b ==> hops_remaining(t[b as int])
                    < hops_remaining(t[j])) by {
                    if j < i {
                        assert(parts@.take(i as int)[j] == parts@[j]);
                    }
                }
            }
        }
    }
    proof {
        assert(parts@.take(parts@.len() as int) =~= parts@);
    }
    best
}

/// How many of the first `n` parts are in `status`.
pub open spec fn count_in(parts: Seq<Part>, status: PartStatus, n: int) -> int
    decreases n,
{
    if n <= 0 {
        0
    } else {
        count_in(parts, status, n - 1) + if parts[n - 1].status == status {
            1int
        } else {
            0
        }
    }
}

/// What a request's parts came to, in numbers.
#[derive(Debug, Clone, Copy, PartialEq, Eq, Structural)]
pub struct Summary {
    pub parts: usize,
    pub complete: usize,
    pub failed: usize,
    pub pending: usize,
    /// When nothing moved: the failed part that came closest.
    pub closest_miss: Option<usize>,
}

impl Summary {
    /// What the request's parts come to, `delivered_msat` having moved.
    pub open spec fn sums_up(self, parts: Seq<Part>, delivered_msat: u64) -> bool {
        &&& self.parts == parts.len()
        &&& self.complete == count_in(parts, PartStatus::Complete, parts.len() as int)
        &&& self.failed == count_in(parts, PartStatus::Failed, parts.len() as int)
        &&& self.pending == count_in(parts, PartStatus::Pending, parts.len() as int)
        &&& match self.closest_miss {
            Some(i) => delivered_msat == 0 && is_closest_miss(parts, i as int),
            None => delivered_msat > 0 || forall|j: int|
                0 <= j < parts.len() ==> (#[trigger] parts[j]).status != PartStatus::Failed,
        }
    }
}

/// Sum up a request's parts.
pub fn summarize(parts: &[Part], delivered_msat: u64) -> (r: Summary)
    ensures
        r.sums_up(parts@, delivered_msat),
        r.complete + r.failed + r.pending == r.parts,
{
    let mut complete: usize = 0;
    let mut failed: usize = 0;
    let mut pending: usize = 0;
    for i in 0..parts.len()
        invariant
            complete == count_in(parts@, PartStatus::Complete, i as int),
            failed == count_in(parts@, PartStatus::Failed, i as int),
            pending == count_in(parts@, PartStatus::Pending, i as int),
            complete + failed + pending == i,
    {
        match parts[i].status {
            PartStatus::Complete => {
                complete = complete + 1;
            },
            PartStatus::Failed => {
                failed = failed + 1;
            },
            PartStatus::Pending => {
                pending = pending + 1;
            },
        }
    }
    let closest: Option<usize> = if delivered_msat == 0 {
        closest_miss(parts)
    } else {
        None
    };
    Summary { parts: parts.len(), complete, failed, pending, closest_miss: closest }
}

// ---------------------------------------------------------------------
// Laws of parts
// ---------------------------------------------------------------------

/// A hop is sent as it was planned: to its node, over its channel in its
/// direction, with its amount and its delay; the channel goes by the alias
/// it has for the onion, where it has one, and by its own name where it
/// has none.
pub proof fn law_hops_are_sent_as_planned(
    hop: Json,
    scid: Seq<char>,
    dir: u32,
    onion_scids: Map<Seq<char>, Seq<char>>,
    ours: bool,
)
    requires
        hop.at("short_channel_id_dir"@) matches Json::Str(s) && s@ == scid + seq!['/'] + text::dec(
            dir as nat,
        ),
        !scid.contains('/'),
    ensures
        ({
            let scidd = scid + seq!['/'] + text::dec(dir as nat);
            let name = if onion_scids.contains_key(scidd) {
                onion_scids[scidd]
            } else {
                scid
            };
            &&& sendpay_form(hop, onion_scids) == Ok::<SendpayHopView, RouteErrorView>(
                SendpayHopView {
                    id: hop.field("node_id_out"@),
                    channel: name,
                    direction: dir,
                    amount_msat: hop.field("amount_out_msat"@),
                    delay: hop.field("cltv_out"@),
                },
            )
            &&& scid_part(scidd) == scid
            &&& kept_form(hop, onion_scids, ours).scidd == scidd
            &&& kept_form(hop, onion_scids, ours).onion_scid == name
            &&& kept_form(hop, onion_scids, ours).ours == ours
            &&& hop.at("amount_out_msat"@) matches Json::Uint(n) ==> kept_form(
                hop,
                onion_scids,
                ours,
            ).amount_msat == n
            &&& !(hop.at("amount_out_msat"@) is Uint) ==> kept_form(hop, onion_scids, ours).amount_msat
                == 0
        }),
{
    let d = text::dec(dir as nat);
    let scidd = scid + seq!['/'] + d;
    text::law_numeral_round_trip(dir as nat);
    text::law_split_is_at_the_first(scidd, '/');
    assert(scidd[scid.len() as int] == '/');
    let (a, b) = text::split_at_first(scidd, '/')->0;
    assert forall|i: int| 0 <= i < a.len() implies #[trigger] a[i] != '/' by {
        assert(a.contains(a[i]));
    }
    assert forall|i: int| 0 <= i < scid.len() implies #[trigger] scid[i] != '/' by {
        assert(scid.contains(scid[i]));
    }
    text::lemma_split_unique(a, b, scid, d, '/');
}

/// A hop cannot be sent exactly where its channel direction is missing,
/// has no '/', or has no direction behind it.
pub proof fn law_hops_without_a_direction_are_refused(
    hop: Json,
    onion_scids: Map<Seq<char>, Seq<char>>,
)
    ensures
        ({
            let f = sendpay_form(hop, onion_scids);
            &&& f == Err::<SendpayHopView, RouteErrorView>(RouteErrorView::NoScidd) <==> !(hop.at(
                "short_channel_id_dir"@,
            ) is Str)
            &&& hop.at("short_channel_id_dir"@) matches Json::Str(s) ==> {
                &&& !s@.contains('/') <==> f == Err::<SendpayHopView, RouteErrorView>(
                    RouteErrorView::Malformed(s@),
                )
                &&& f is Err ==> f->Err_0 == RouteErrorView::Malformed(s@) || f->Err_0
                    == RouteErrorView::BadDirection(s@)
            }
        }),
{
    if let Json::Str(s) = hop.at("short_channel_id_dir"@) {
        text::law_split_is_at_the_first(s@, '/');
        s@.index_of_first_ensures('/');
    }
}

proof fn lemma_hop_fault(path: Seq<Json>, onion_scids: Map<Seq<char>, Seq<char>>, i: int)
    requires
        0 <= i,
    ensures
        match hop_fault(path, onion_scids, i) {
            Some(e) => exists|k: int|
                i <= k < path.len() && #[trigger] sendpay_form(path[k], onion_scids) == Err::<
                    SendpayHopView,
                    RouteErrorView,
                >(e) && forall|l: int|
                    i <= l < k ==> #[trigger] sendpay_form(path[l], onion_scids) is Ok,
            None => forall|k: int|
                i <= k < path.len() ==> #[trigger] sendpay_form(path[k], onion_scids) is Ok,
        },
    decreases path.len() - i,
{
    if i < path.len() && sendpay_form(path[i], onion_scids) is Ok {
        lemma_hop_fault(path, onion_scids, i + 1);
    }
}

/// A route can be sent exactly where it has a path with a hop in it and
/// every hop can be sent; else the first hop that cannot says why.
pub proof fn law_routes_are_sent_where_every_hop_is(
    route: Json,
    onion_scids: Map<Seq<char>, Seq<char>>,
)
    ensures
        route_fault(route, onion_scids) is None <==> (route.at("path"@) matches Json::Array(path)
            && path@.len() >= 1 && forall|k: int|
            0 <= k < path@.len() ==> #[trigger] sendpay_form(path@[k], onion_scids) is Ok),
        route_fault(route, onion_scids) == Some(RouteErrorView::NoPath) <==> !(route.at("path"@)
            is Array),
        route.at("path"@) matches Json::Array(path) ==> (path@.len() == 0 ==> route_fault(
            route,
            onion_scids,
        ) == Some(RouteErrorView::EmptyPath)),
        route.at("path"@) matches Json::Array(path) ==> (path@.len() > 0 ==> (route_fault(
            route,
            onion_scids,
        ) matches Some(e) ==> exists|k: int|
            0 <= k < path@.len() && #[trigger] sendpay_form(path@[k], onion_scids) == Err::<
                SendpayHopView,
                RouteErrorView,
            >(e) && forall|l: int|
                0 <= l < k ==> #[trigger] sendpay_form(path@[l], onion_scids) is Ok)),
{
    if let Json::Array(path) = route.at("path"@) {
        lemma_hop_fault(path@, onion_scids, 0);
        if let Some(e) = hop_fault(path@, onion_scids, 0) {
            let k = choose|k: int|
                0 <= k < path@.len() && #[trigger] sendpay_form(path@[k], onion_scids) == Err::<
                    SendpayHopView,
                    RouteErrorView,
                >(e);
            assert(!(e is NoPath));
        }
    }
}

/// A part is its route: it leaves over the first hop and comes home over
/// the last, sends what goes into the first and delivers what comes out of
/// the last, and keeps each hop's channel, name and amount.  The first and
/// the last hop are ours and no other is.
pub proof fn law_parts_are_their_routes(
    p: Part,
    route: Json,
    onion_scids: Map<Seq<char>, Seq<char>>,
    index: int,
    payment_hash: Seq<char>,
    path: Seq<Json>,
    k: int,
)
    requires
        p.sends(route, onion_scids, index, payment_hash),
        route.at("path"@) matches Json::Array(hops) && hops@ == path,
        0 <= k < path.len(),
    ensures
        p.part_index == index + 1,
        p.payment_hash@ == payment_hash,
        p.status is Pending,
        p.hops@.len() == path.len(),
        path[0].at("amount_in_msat"@) matches Json::Uint(n) ==> p.planned_sent_msat == n,
        path.last().at("amount_out_msat"@) matches Json::Uint(n) ==> p.planned_msat == n,
        path[0].at("short_channel_id_dir"@) matches Json::Str(s) ==> p.first_hop@ == s@,
        path.last().at("short_channel_id_dir"@) matches Json::Str(s) ==> p.return_hop@ == s@,
        p.hops@[k].ours == (k == 0 || k == path.len() - 1),
        path[k].at("amount_out_msat"@) matches Json::Uint(n) ==> p.hops@[k].amount_msat == n,
        path[k].at("short_channel_id_dir"@) matches Json::Str(s) ==> {
            &&& p.hops@[k].scidd@ == s@
            &&& onion_scids.contains_key(s@) ==> p.hops@[k].onion_scid@ == onion_scids[s@]
            &&& !onion_scids.contains_key(s@) ==> p.hops@[k].onion_scid@ == scid_part(s@)
        },
{
    assert(hop_views(p.hops@).len() == path.len());
    assert(hop_views(p.hops@)[k] == p.hops@[k]@);
    assert(hop_views(p.hops@)[k] == kept_form(path[k], onion_scids, k == 0 || k == path.len() - 1));
}

/// What a part came to follows from its state: a settled one delivered
/// what was planned and cost what it sent beyond that; one in flight still
/// holds both; a failed one moved and cost nothing.
pub proof fn law_parts_come_to_what_was_planned(p: Part)
    ensures
        ({
            let fee = if p.planned_sent_msat > p.planned_msat {
                p.planned_sent_msat - p.planned_msat
            } else {
                0
            };
            &&& p.status is Complete ==> p.delivered() == p.planned_msat && p.fee() == fee
                && p.pending() == 0 && p.pending_fee() == 0
            &&& p.status is Pending ==> p.delivered() == 0 && p.fee() == 0 && p.pending()
                == p.planned_msat && p.pending_fee() == fee
            &&& p.status is Failed ==> p.delivered() == 0 && p.fee() == 0 && p.pending() == 0
                && p.pending_fee() == 0
        }),
{
}

proof fn lemma_sum_of_prefix(parts: Seq<Part>, p: Part, f: spec_fn(Part) -> u64, n: int)
    requires
        0 <= n <= parts.len(),
    ensures
        sum_of(parts.push(p), f, n) == sum_of(parts, f, n),
    decreases n,
{
    if n > 0 {
        lemma_sum_of_prefix(parts, p, f, n - 1);
        assert(parts.push(p)[n - 1] == parts[n - 1]);
    }
}

/// Totals are sums: no parts come to nothing, and one more part adds what
/// it delivered, cost, and has in flight.
pub proof fn law_totals_add_up(parts: Seq<Part>, p: Part)
    ensures
        delivered_sum(seq![]) == 0,
        fee_sum(seq![]) == 0,
        pending_sum(seq![]) == 0,
        pending_fee_sum(seq![]) == 0,
        ({
            let all = parts.push(p);
            let fee = if p.planned_sent_msat > p.planned_msat {
                p.planned_sent_msat - p.planned_msat
            } else {
                0
            };
            let (settled, flying) = (p.status is Complete, p.status is Pending);
            &&& delivered_sum(all) == delivered_sum(parts) + if settled {
                p.planned_msat as int
            } else {
                0
            }
            &&& fee_sum(all) == fee_sum(parts) + if settled {
                fee
            } else {
                0
            }
            &&& pending_sum(all) == pending_sum(parts) + if flying {
                p.planned_msat as int
            } else {
                0
            }
            &&& pending_fee_sum(all) == pending_fee_sum(parts) + if flying {
                fee
            } else {
                0
            }
            &&& planned_sum(all) == planned_sum(parts) + p.planned_msat
            &&& sent_sum(all) == sent_sum(parts) + p.planned_sent_msat
        }),
{
    let n = parts.len() as int;
    law_parts_come_to_what_was_planned(p);
    lemma_sum_of_prefix(parts, p, |p: Part| p.delivered(), n);
    lemma_sum_of_prefix(parts, p, |p: Part| p.fee(), n);
    lemma_sum_of_prefix(parts, p, |p: Part| p.pending(), n);
    lemma_sum_of_prefix(parts, p, |p: Part| p.pending_fee(), n);
    lemma_sum_of_prefix(parts, p, |p: Part| p.planned_msat, n);
    lemma_sum_of_prefix(parts, p, |p: Part| p.planned_sent_msat, n);
    assert(parts.push(p)[n] == p);
}

proof fn lemma_named_from(hops: Seq<PartHopView>, chan: Seq<char>, dir: u64, i: int)
    requires
        0 <= i,
    ensures
        match named_from(hops, chan, dir, i) {
            Some(k) => i <= k < hops.len() && is_named(hops[k], chan, dir) && forall|j: int|
                i <= j < k ==> !is_named(#[trigger] hops[j], chan, dir),
            None => forall|j: int|
                i <= j < hops.len() ==> !is_named(#[trigger] hops[j], chan, dir),
        },
    decreases hops.len() - i,
{
    if i < hops.len() && !is_named(hops[i], chan, dir) {
        lemma_named_from(hops, chan, dir, i + 1);
    }
}

/// A failure names the first hop that goes by the channel and direction it
/// reports, or whose name in the onion is the channel it reports; none
/// where no hop does, or where it reports no channel and direction.
pub proof fn law_failures_name_the_first_hop_that_fits(
    hops: Seq<PartHopView>,
    data: Json,
    chan: Seq<char>,
    dir: u64,
)
    requires
        data.at("erring_channel"@) matches Json::Str(s) && s@ == chan,
        data.at("erring_direction"@) == Json::Uint(dir),
    ensures
        ({
            let fits = |h: PartHopView|
                h.scidd == chan + seq!['/'] + text::dec(dir as nat) || h.onion_scid == chan;
            match erring_index(hops, data) {
                Some(k) => 0 <= k < hops.len() && fits(hops[k]) && forall|j: int|
                    0 <= j < k ==> !fits(#[trigger] hops[j]),
                None => forall|j: int| 0 <= j < hops.len() ==> !fits(#[trigger] hops[j]),
            }
        }),
{
    lemma_named_from(hops, chan, dir, 0);
    reveal_strlit("/");
    assert("/"@ =~= seq!['/']);
    assert forall|j: int| 0 <= j < hops.len() implies is_named(#[trigger] hops[j], chan, dir) == (
    hops[j].scidd == chan + seq!['/'] + text::dec(dir as nat) || hops[j].onion_scid == chan) by {
        let o = hops[j].onion_scid;
        let (a, b) = (channels::scidd(o, dir), channels::scidd(chan, dir));
        if a == b {
            let tail = (1 + text::dec(dir as nat).len()) as int;
            assert("/"@.len() == 1);
            assert(a.len() == o.len() + tail && b.len() == chan.len() + tail);
            assert(o.len() == chan.len());
            assert(o =~= a.take(o.len() as int));
            assert(chan =~= b.take(o.len() as int));
        }
    }
}

/// A failure that does not report both a channel and a direction names no
/// hop.
pub proof fn law_failures_without_a_channel_name_nothing(hops: Seq<PartHopView>, data: Json)
    ensures
        !(data.at("erring_channel"@) is Str) || !(data.at("erring_direction"@) is Uint)
            ==> erring_index(hops, data) is None,
{
}

/// What follows an outcome: every terminal state is broadcast and no other
/// is; only a failed part's claim is dropped; a settled part teaches, and
/// so does a failed one with data; nothing is learned of a part in flight.
pub proof fn law_outcomes_have_their_aftermath(data: bool)
    ensures
        !aftermath_of(PartStatus::Pending, data).notify,
        !aftermath_of(PartStatus::Pending, data).drop_claim,
        aftermath_of(PartStatus::Pending, data).feedback == Feedback::Nothing,
        aftermath_of(PartStatus::Complete, data).notify,
        !aftermath_of(PartStatus::Complete, data).drop_claim,
        aftermath_of(PartStatus::Complete, data).feedback == Feedback::Success,
        aftermath_of(PartStatus::Failed, data).notify,
        aftermath_of(PartStatus::Failed, data).drop_claim,
        aftermath_of(PartStatus::Failed, true).feedback == Feedback::Failure,
        aftermath_of(PartStatus::Failed, false).feedback == Feedback::Nothing,
{
}

/// A failure is told by its message, with its data behind it where there
/// are any, and stops the part at the hop the data name.
pub proof fn law_failures_are_told_with_their_data(
    message: Seq<char>,
    hops: Seq<PartHop>,
    data: FailData,
)
    ensures
        failure_text(message, None) == message,
        failure_text(message, Some(data)) == message + " data="@ + data.text@,
        failure_stop(hops, None) is None,
        failure_stop(hops, Some(data)) == erring_index(hop_views(hops), data.value),
{
}

/// The closest miss of a request: a part that failed, with no failed part
/// nearer to its end, and the first of those; a part whose failure named
/// no hop has all of them left.
pub proof fn law_the_closest_miss_is_nearest(parts: Seq<Part>, i: int, j: int)
    requires
        is_closest_miss(parts, i),
        0 <= j < parts.len(),
        parts[j].status is Failed,
    ensures
        ({
            let left = |p: Part|
                match p.stopped_at {
                    Some(at) => p.hops@.len() - at,
                    None => p.hops@.len() as int,
                };
            &&& 0 <= i < parts.len() && parts[i].status is Failed
            &&& left(parts[i]) <= left(parts[j])
            &&& left(parts[i]) == left(parts[j]) ==> i <= j
        }),
{
}

proof fn lemma_count_of_prefix(parts: Seq<Part>, p: Part, status: PartStatus, n: int)
    requires
        0 <= n <= parts.len(),
    ensures
        count_in(parts.push(p), status, n) == count_in(parts, status, n),
    decreases n,
{
    if n > 0 {
        lemma_count_of_prefix(parts, p, status, n - 1);
        assert(parts.push(p)[n - 1] == parts[n - 1]);
    }
}

/// Parts are counted by their state: one more part adds one to the count
/// of its own state and to no other.
pub proof fn law_parts_are_counted_by_state(parts: Seq<Part>, p: Part, status: PartStatus)
    ensures
        count_in(seq![], status, 0) == 0,
        count_in(parts.push(p), status, parts.len() as int + 1) == count_in(
            parts,
            status,
            parts.len() as int,
        ) + if p.status == status {
            1int
        } else {
            0
        },
{
    lemma_count_of_prefix(parts, p, status, parts.len() as int);
    assert(parts.push(p)[parts.len() as int] == p);
}

/// The states and the label as they are told.
pub proof fn law_states_in_words(label: String)
    ensures
        PartStatus::Pending.name() == "pending"@,
        PartStatus::Complete.name() == "complete"@,
        PartStatus::Failed.name() == "failed"@,
        payment_label_of(Some(label)) == "xrebalance/"@ + label@,
        payment_label_of(None) == "xrebalance/unlabeled"@,
{
    reveal_strlit("xrebalance/");
    reveal_strlit("unlabeled");
    reveal_strlit("xrebalance/unlabeled");
    assert(payment_label_of(None) =~= "xrebalance/unlabeled"@);
}

/// An outcome changes a part's state, its detail and where it stopped,
/// and nothing else: neither what it was planned to send and deliver, nor
/// its handle, nor its route.
pub proof fn law_outcomes_change_nothing_else(before: Part, after: Part)
    ensures
        after.is_same_part(before) <==> {
            &&& after.part_index == before.part_index
            &&& after.payment_hash == before.payment_hash
            &&& after.first_hop == before.first_hop
            &&& after.return_hop == before.return_hop
            &&& after.planned_msat == before.planned_msat
            &&& after.planned_sent_msat == before.planned_sent_msat
            &&& after.hops == before.hops
        },
{
}

/// A failed part tells its failure and the hop that its data name.
pub proof fn law_failed_parts_tell_why(
    before: Part,
    after: Part,
    message: Seq<char>,
    data: Option<FailData>,
)
    requires
        after.failed_with(before, message, data),
    ensures
        after.status is Failed,
        after.detail is Some,
        data is None ==> after.detail->0@ == message && after.stopped_at is None,
        data matches Some(d) ==> after.detail->0@ == message + " data="@ + d.text@,
        data matches Some(d) ==> match position_of(after.stopped_at) {
            Some(i) => erring_index(hop_views(before.hops@), d.value) == Some(i),
            None => erring_index(hop_views(before.hops@), d.value) is None,
        },
{
}

/// A reply has data exactly where it is a failure that carries some.
pub proof fn law_only_failures_have_data(message: String, code: Option<i32>, d: FailData, e: String)
    ensures
        has_data(WaitReply::Failed { code, message, data: Some(d) }),
        !has_data(WaitReply::Failed { code, message, data: None }),
        !has_data(WaitReply::Paid),
        !has_data(WaitReply::Lost(e)),
{
}

proof fn lemma_counts_make_up_the_whole(parts: Seq<Part>, n: int)
    requires
        0 <= n <= parts.len(),
    ensures
        count_in(parts, PartStatus::Complete, n) + count_in(parts, PartStatus::Failed, n) + count_in(
            parts,
            PartStatus::Pending,
            n,
        ) == n,
    decreases n,
{
    if n > 0 {
        lemma_counts_make_up_the_whole(parts, n - 1);
    }
}

/// A summary counts every part once, and tells the closest miss exactly
/// where nothing was delivered and some part failed.
pub proof fn law_summaries_count_every_part(s: Summary, parts: Seq<Part>, delivered_msat: u64)
    requires
        s.sums_up(parts, delivered_msat),
    ensures
        s.parts == parts.len(),
        s.complete + s.failed + s.pending == s.parts,
        s.complete == count_in(parts, PartStatus::Complete, parts.len() as int),
        s.failed == count_in(parts, PartStatus::Failed, parts.len() as int),
        s.closest_miss is Some <==> delivered_msat == 0 && exists|j: int|
            0 <= j < parts.len() && (#[trigger] parts[j]).status is Failed,
        s.closest_miss matches Some(i) ==> is_closest_miss(parts, i as int),
{
    lemma_counts_make_up_the_whole(parts, parts.len() as int);
}

/// The refusals as they are told.
pub proof fn law_route_refusals_in_words(s: Seq<char>)
    ensures
        RouteErrorView::NoPath.message() == "route without path"@,
        RouteErrorView::EmptyPath.message() == "empty path"@,
        RouteErrorView::NoScidd.message() == "hop without short_channel_id_dir"@,
        RouteErrorView::Malformed(s).message() == "malformed scidd "@ + s,
        RouteErrorView::BadDirection(s).message() == "invalid direction in scidd "@ + s,
{
}

} // verus!
