//! What goes out: responses, notifications, and the parameters of the
//! calls to lightningd.

use crate::claims::HtlcDecision;
use crate::config::Settings;
use crate::exec::{summarize, Part, SendpayHop, Summary, Totals};
use crate::exec;
use crate::json;
use crate::json::{array_of, copy_list, text_of, Fields, Json, JsonView};
use crate::layer::{LayerOp, LayerOpView};
use crate::plan;
use crate::plan::{fee_ppm, PlanResult, RouteQuery};
use crate::request::XRebalanceParams;
use crate::rounds::Ledger;
use crate::stats::LayerStats;
use vstd::prelude::*;
use vstd::string::*;

verus! {

// ---------------------------------------------------------------------
// Parts
// ---------------------------------------------------------------------

/// A part's members.
pub open spec fn part_fields(p: Part) -> Seq<(Seq<char>, JsonView)> {
    seq![
        ("part_index"@, JsonView::Uint(p.part_index)),
        ("payment_hash"@, JsonView::Str(p.payment_hash@)),
        ("status"@, JsonView::Str(p.status.name())),
        ("first_hop"@, JsonView::Str(p.first_hop@)),
        ("return_hop"@, JsonView::Str(p.return_hop@)),
        ("planned_msat"@, JsonView::Uint(p.planned_msat)),
        ("delivered_msat"@, JsonView::Uint(p.delivered())),
        ("sent_msat"@, JsonView::Uint(p.planned_sent_msat)),
        ("fee_msat"@, JsonView::Uint(p.fee())),
        ("detail"@, json::text_or_null(p.detail)),
    ]
}

fn part_members(p: &Part) -> (r: Fields)
    ensures
        r@ == part_fields(*p),
{
    let mut f = Fields::new();
    f.uint("part_index", p.part_index);
    f.text("payment_hash", p.payment_hash.as_str());
    f.text("status", p.status.as_str());
    f.text("first_hop", p.first_hop.as_str());
    f.text("return_hop", p.return_hop.as_str());
    f.uint("planned_msat", p.planned_msat);
    f.uint("delivered_msat", p.delivered_msat());
    f.uint("sent_msat", p.planned_sent_msat);
    f.uint("fee_msat", p.fee_msat());
    f.opt_text("detail", &p.detail);
    proof {
        assert(f@ =~= part_fields(*p));
    }
    f
}

impl Part {
    /// The part as responses show it.
    pub fn json(&self) -> (r: Json)
        ensures
            r@ == JsonView::Object(part_fields(*self)),
    {
        part_members(self).done()
    }
}

/// One part's terminal state as it is broadcast: the part and the
/// caller's label.
pub fn notification(p: &Part, label: &Option<String>) -> (r: Json)
    ensures
        r@ == JsonView::Object(part_fields(*p).push(("label"@, json::text_or_null(*label)))),
{
    let mut f = part_members(p);
    f.opt_text("label", label);
    f.done()
}

/// The parts as responses show them.
pub open spec fn part_list(parts: Seq<Part>) -> Seq<JsonView> {
    parts.map_values(|p: Part| JsonView::Object(part_fields(p)))
}

fn parts_json(parts: &[Part]) -> (r: Json)
    ensures
        r@ == JsonView::Array(part_list(parts@)),
{
    let mut out: Vec<Json> = Vec::new();
    for i in 0..parts.len()
        invariant
            out@.len() == i,
            forall|j: int|
                0 <= j < i ==> (#[trigger] out@[j])@ == JsonView::Object(part_fields(parts@[j])),
    {
        out.push(parts[i].json());
    }
    proof {
        assert(json::list(out@) =~= part_list(parts@));
    }
    array_of(out)
}

// ---------------------------------------------------------------------
// Responses
// ---------------------------------------------------------------------

/// The dryrun response.
pub open spec fn dryrun_fields(params: XRebalanceParams, p: PlanResult) -> Seq<
    (Seq<char>, JsonView),
> {
    seq![
        ("status"@, JsonView::Str("planned"@)),
        ("label"@, json::text_or_null(params.label)),
        ("dryrun"@, JsonView::Bool(true)),
        ("amount_msat"@, JsonView::Uint(params.amount_msat)),
        ("effective_amount_msat"@, JsonView::Uint(p.effective_amount_msat)),
        ("maxfee_msat"@, JsonView::Uint(p.maxfee_msat)),
        ("delivered_msat"@, JsonView::Uint(p.delivered_msat)),
        ("fee_msat"@, JsonView::Uint(p.fee_msat)),
        ("fee_ppm"@, json::uint_or_null(plan::ppm_of(p.fee_msat, p.delivered_msat))),
        ("routes"@, JsonView::Array(json::list(p.routes@))),
        ("detail"@, json::text_or_null(p.detail)),
    ]
}

/// Render a PlanResult as the dryrun response.
pub fn dryrun_response(params: &XRebalanceParams, plan: &PlanResult) -> (r: Json)
    ensures
        r@ == JsonView::Object(dryrun_fields(*params, *plan)),
{
    let mut f = Fields::new();
    f.text("status", "planned");
    f.opt_text("label", &params.label);
    f.flag("dryrun", true);
    f.uint("amount_msat", params.amount_msat);
    f.uint("effective_amount_msat", plan.effective_amount_msat);
    f.uint("maxfee_msat", plan.maxfee_msat);
    f.uint("delivered_msat", plan.delivered_msat);
    f.uint("fee_msat", plan.fee_msat);
    f.opt_uint("fee_ppm", fee_ppm(plan.fee_msat, plan.delivered_msat));
    f.value("routes", array_of(copy_list(&plan.routes)));
    f.opt_text("detail", &plan.detail);
    proof {
        assert(f@ =~= dryrun_fields(*params, *plan));
    }
    f.done()
}

/// The response of one round.
pub open spec fn round_fields(
    params: XRebalanceParams,
    p: PlanResult,
    parts: Seq<Part>,
    t: Totals,
) -> Seq<(Seq<char>, JsonView)> {
    seq![
        ("status"@, JsonView::Str("executed"@)),
        ("label"@, json::text_or_null(params.label)),
        ("amount_msat"@, JsonView::Uint(params.amount_msat)),
        ("maxfee_msat"@, JsonView::Uint(p.maxfee_msat)),
        ("planned_msat"@, JsonView::Uint(p.delivered_msat)),
        ("planned_fee_msat"@, JsonView::Uint(p.fee_msat)),
        ("delivered_msat"@, JsonView::Uint(t.delivered_msat)),
        ("fee_msat"@, JsonView::Uint(t.fee_msat)),
        ("pending_msat"@, JsonView::Uint(t.pending_msat)),
        ("detail"@, json::text_or_null(p.detail)),
        ("parts"@, JsonView::Array(part_list(parts))),
    ]
}

/// The response of one round, with what its parts came to; None where
/// their totals do not fit.
pub fn render(params: &XRebalanceParams, plan: &PlanResult, parts: &[Part]) -> (r: Option<
    (Totals, Json),
>)
    ensures
        match r {
            Some((t, v)) => {
                &&& t.delivered_msat == exec::delivered_sum(parts@)
                &&& t.fee_msat == exec::fee_sum(parts@)
                &&& t.pending_msat == exec::pending_sum(parts@)
                &&& t.pending_fee_msat == exec::pending_fee_sum(parts@)
                &&& v@ == JsonView::Object(round_fields(*params, *plan, parts@, t))
            },
            None => exec::delivered_sum(parts@) > u64::MAX || exec::fee_sum(parts@) > u64::MAX
                || exec::pending_sum(parts@) > u64::MAX || exec::pending_fee_sum(parts@)
                > u64::MAX,
        },
{
    let t = match Totals::of(parts) {
        Some(t) => t,
        None => return None,
    };
    let mut f = Fields::new();
    f.text("status", "executed");
    f.opt_text("label", &params.label);
    f.uint("amount_msat", params.amount_msat);
    f.uint("maxfee_msat", plan.maxfee_msat);
    f.uint("planned_msat", plan.delivered_msat);
    f.uint("planned_fee_msat", plan.fee_msat);
    f.uint("delivered_msat", t.delivered_msat);
    f.uint("fee_msat", t.fee_msat);
    f.uint("pending_msat", t.pending_msat);
    f.opt_text("detail", &plan.detail);
    f.value("parts", parts_json(parts));
    proof {
        assert(f@ =~= round_fields(*params, *plan, parts@, t));
    }
    Some((t, f.done()))
}

/// The summary block: round and part counts, delivered and fee totals,
/// and, when nothing moved, the failed part that came closest.
pub open spec fn summary_fields(l: Ledger, s: Summary, parts: Seq<Part>, rounds: int) -> Seq<
    (Seq<char>, JsonView),
> {
    seq![
        ("rounds"@, JsonView::Uint(rounds as u64)),
        ("parts"@, JsonView::Uint(s.parts as u64)),
        ("complete"@, JsonView::Uint(s.complete as u64)),
        ("failed"@, JsonView::Uint(s.failed as u64)),
        ("pending"@, JsonView::Uint(s.pending as u64)),
        ("delivered_msat"@, JsonView::Uint(l.delivered_msat)),
        ("fee_msat"@, JsonView::Uint(l.fee_msat)),
    ] + match s.closest_miss {
        Some(i) => seq![
            ("closest_miss"@, JsonView::Object(part_fields(parts[i as int]))),
        ],
        None => seq![],
    }
}

/// The response of a request of several rounds: the outcome, and the
/// per-round detail where it was asked for.
pub open spec fn request_fields(
    params: XRebalanceParams,
    l: Ledger,
    s: Summary,
    parts: Seq<Part>,
    rounds: Seq<Json>,
    stop_reason: Seq<char>,
) -> Seq<(Seq<char>, JsonView)> {
    seq![
        ("status"@, JsonView::Str("executed"@)),
        ("label"@, json::text_or_null(params.label)),
        ("amount_msat"@, JsonView::Uint(params.amount_msat)),
        ("rounds_run"@, JsonView::Uint(rounds.len() as u64)),
        ("stop_reason"@, JsonView::Str(stop_reason)),
        ("delivered_msat"@, JsonView::Uint(l.delivered_msat)),
        ("fee_msat"@, JsonView::Uint(l.fee_msat)),
        ("fee_ppm"@, json::uint_or_null(plan::ppm_of(l.fee_msat, l.delivered_msat))),
        ("pending_msat"@, JsonView::Uint(l.pending_msat)),
        ("summary"@, JsonView::Object(summary_fields(l, s, parts, rounds.len() as int))),
    ] + if params.verbose == Some(true) {
        seq![("rounds"@, JsonView::Array(json::list(rounds)))]
    } else {
        seq![]
    }
}

fn summary_json(l: &Ledger, s: &Summary, parts: &[Part], rounds: usize) -> (r: Json)
    requires
        s.closest_miss matches Some(i) ==> i < parts@.len(),
    ensures
        r@ == JsonView::Object(summary_fields(*l, *s, parts@, rounds as int)),
{
    let mut f = Fields::new();
    f.count("rounds", rounds);
    f.count("parts", s.parts);
    f.count("complete", s.complete);
    f.count("failed", s.failed);
    f.count("pending", s.pending);
    f.uint("delivered_msat", l.delivered_msat);
    f.uint("fee_msat", l.fee_msat);
    if let Some(i) = s.closest_miss {
        f.value("closest_miss", parts[i].json());
    }
    proof {
        assert(f@ =~= summary_fields(*l, *s, parts@, rounds as int));
    }
    f.done()
}

/// The response of a request of several rounds.
pub fn request_response(
    params: &XRebalanceParams,
    l: &Ledger,
    parts: &[Part],
    rounds: Vec<Json>,
    stop_reason: &str,
) -> (r: Json)
    ensures
        exists|s: Summary|
            #[trigger] s.sums_up(parts@, l.delivered_msat) && r@ == JsonView::Object(
                request_fields(*params, *l, s, parts@, rounds@, stop_reason@),
            ),
{
    let s = summarize(parts, l.delivered_msat);
    let count: usize = rounds.len();
    let ghost all = rounds@;
    let mut f = Fields::new();
    f.text("status", "executed");
    f.opt_text("label", &params.label);
    f.uint("amount_msat", params.amount_msat);
    f.count("rounds_run", count);
    f.text("stop_reason", stop_reason);
    f.uint("delivered_msat", l.delivered_msat);
    f.uint("fee_msat", l.fee_msat);
    f.opt_uint("fee_ppm", fee_ppm(l.fee_msat, l.delivered_msat));
    f.uint("pending_msat", l.pending_msat);
    f.value("summary", summary_json(l, &s, parts, count));
    if params.is_verbose() {
        f.value("rounds", array_of(rounds));
    }
    proof {
        assert(f@ =~= request_fields(*params, *l, s, parts@, all, stop_reason@));
    }
    f.done()
}

/// The answer to htlc_accepted.
pub open spec fn htlc_fields(d: HtlcDecision) -> Seq<(Seq<char>, JsonView)> {
    match d {
        HtlcDecision::Resolve { payment_key } => seq![
            ("result"@, JsonView::Str("resolve"@)),
            ("payment_key"@, JsonView::Str(payment_key@)),
        ],
        HtlcDecision::Continue => seq![("result"@, JsonView::Str("continue"@))],
    }
}

/// The answer to htlc_accepted.
pub fn htlc_response(d: &HtlcDecision) -> (r: Json)
    ensures
        r@ == JsonView::Object(htlc_fields(*d)),
{
    let mut f = Fields::new();
    match d {
        HtlcDecision::Resolve { payment_key } => {
            f.text("result", "resolve");
            f.text("payment_key", payment_key.as_str());
        },
        HtlcDecision::Continue => {
            f.text("result", "continue");
        },
    }
    proof {
        assert(f@ =~= htlc_fields(*d));
    }
    f.done()
}

// ---------------------------------------------------------------------
// Stats
// ---------------------------------------------------------------------

/// The layer block of xrebalance-stats.
pub open spec fn layer_fields(layer: Option<LayerStats>) -> Seq<(Seq<char>, JsonView)> {
    match layer {
        None => seq![("exists"@, JsonView::Bool(false))],
        Some(s) => seq![
            ("exists"@, JsonView::Bool(true)),
            ("constraints"@, JsonView::Uint(s.constraints as u64)),
            ("constraint_minimums"@, JsonView::Uint(s.constraint_minimums as u64)),
            ("constraint_maximums"@, JsonView::Uint(s.constraint_maximums as u64)),
            ("constraint_scidds"@, JsonView::Uint(s.constraint_scidds as u64)),
            ("dirs_with_max"@, JsonView::Uint(s.dirs_with_max as u64)),
            ("dirs_with_min"@, JsonView::Uint(s.dirs_with_min as u64)),
            ("depth_min"@, JsonView::Uint(s.depth_min)),
            ("depth_median"@, JsonView::Uint(s.depth_median)),
            ("depth_p90"@, JsonView::Uint(s.depth_p90)),
            ("depth_max"@, JsonView::Uint(s.depth_max)),
            ("oldest_constraint"@, json::uint_or_null(s.oldest_constraint)),
            ("newest_constraint"@, json::uint_or_null(s.newest_constraint)),
            ("channel_updates"@, JsonView::Uint(s.channel_updates as u64)),
            ("disabled_nodes"@, JsonView::Uint(s.disabled_nodes as u64)),
            ("created_channels"@, JsonView::Uint(s.created_channels as u64)),
            ("biases"@, JsonView::Uint(s.biases as u64)),
        ],
    }
}

fn layer_json(layer: &Option<LayerStats>) -> (r: Json)
    ensures
        r@ == JsonView::Object(layer_fields(*layer)),
{
    let mut f = Fields::new();
    match layer {
        None => {
            f.flag("exists", false);
        },
        Some(s) => {
            f.flag("exists", true);
            f.count("constraints", s.constraints);
            f.count("constraint_minimums", s.constraint_minimums);
            f.count("constraint_maximums", s.constraint_maximums);
            f.count("constraint_scidds", s.constraint_scidds);
            f.count("dirs_with_max", s.dirs_with_max);
            f.count("dirs_with_min", s.dirs_with_min);
            f.uint("depth_min", s.depth_min);
            f.uint("depth_median", s.depth_median);
            f.uint("depth_p90", s.depth_p90);
            f.uint("depth_max", s.depth_max);
            f.opt_uint("oldest_constraint", s.oldest_constraint);
            f.opt_uint("newest_constraint", s.newest_constraint);
            f.count("channel_updates", s.channel_updates);
            f.count("disabled_nodes", s.disabled_nodes);
            f.count("created_channels", s.created_channels);
            f.count("biases", s.biases);
        },
    }
    proof {
        assert(f@ =~= layer_fields(*layer));
    }
    f.done()
}

/// What the plugin holds in memory.
#[derive(Debug, Clone, Copy)]
pub struct Holdings {
    /// Seconds until learned overrides expire.
    pub override_age: u64,
    /// Parts still in flight.
    pub claims: usize,
    pub coalescer_entries: usize,
    /// Learned policies, disabled nodes and excluded channels.
    pub policies: usize,
    pub disabled_nodes: usize,
    pub exclusions: usize,
}

/// The options block of xrebalance-stats.
pub open spec fn option_fields(s: Settings, h: Holdings) -> Seq<(Seq<char>, JsonView)> {
    seq![
        ("constraint_age"@, JsonView::Uint(s.constraint_age)),
        ("override_age"@, JsonView::Uint(h.override_age)),
        ("part_wait"@, JsonView::Uint(s.part_wait_secs)),
        ("min_part_msat"@, JsonView::Uint(s.min_part_msat)),
        ("max_rounds"@, JsonView::Uint(s.max_rounds)),
        ("final_cltv"@, JsonView::Uint(s.final_cltv)),
    ]
}

/// The overrides block of xrebalance-stats.
pub open spec fn override_fields(h: Holdings) -> Seq<(Seq<char>, JsonView)> {
    seq![
        ("channel_updates"@, JsonView::Uint(h.policies as u64)),
        ("disabled_nodes"@, JsonView::Uint(h.disabled_nodes as u64)),
        ("exclusions"@, JsonView::Uint(h.exclusions as u64)),
    ]
}

/// The response of xrebalance-stats.
pub open spec fn stats_fields(
    version: Seq<char>,
    s: Settings,
    h: Holdings,
    layer: Option<LayerStats>,
) -> Seq<(Seq<char>, JsonView)> {
    seq![
        ("version"@, JsonView::Str(version)),
        ("options"@, JsonView::Object(option_fields(s, h))),
        ("claims"@, JsonView::Uint(h.claims as u64)),
        ("coalescer_entries"@, JsonView::Uint(h.coalescer_entries as u64)),
        ("overrides"@, JsonView::Object(override_fields(h))),
        ("layer"@, JsonView::Object(layer_fields(layer))),
    ]
}

/// The response of xrebalance-stats: the plugin's state in one place.
/// The shape is meant to grow fields, not change them.
pub fn stats_response(
    version: &str,
    s: &Settings,
    h: &Holdings,
    layer: &Option<LayerStats>,
) -> (r: Json)
    ensures
        r@ == JsonView::Object(stats_fields(version@, *s, *h, *layer)),
{
    let mut options = Fields::new();
    options.uint("constraint_age", s.constraint_age);
    options.uint("override_age", h.override_age);
    options.uint("part_wait", s.part_wait_secs);
    options.uint("min_part_msat", s.min_part_msat);
    options.uint("max_rounds", s.max_rounds);
    options.uint("final_cltv", s.final_cltv);
    let mut overrides = Fields::new();
    overrides.count("channel_updates", h.policies);
    overrides.count("disabled_nodes", h.disabled_nodes);
    overrides.count("exclusions", h.exclusions);
    proof {
        assert(options@ =~= option_fields(*s, *h));
        assert(overrides@ =~= override_fields(*h));
    }
    let mut f = Fields::new();
    f.text("version", version);
    f.value("options", options.done());
    f.count("claims", h.claims);
    f.count("coalescer_entries", h.coalescer_entries);
    f.value("overrides", overrides.done());
    f.value("layer", layer_json(layer));
    proof {
        assert(f@ =~= stats_fields(version@, *s, *h, *layer));
    }
    f.done()
}

// ---------------------------------------------------------------------
// Calls
// ---------------------------------------------------------------------

/// An optional document as characters: null where there is none.
pub open spec fn modelled(v: Option<Json>) -> JsonView {
    match v {
        Some(v) => v@,
        None => JsonView::Null,
    }
}

/// How a bound is reported: "constrained" where it could not pass.
pub open spec fn inform_kind(constrained: bool) -> Seq<char> {
    if constrained {
        "constrained"@
    } else {
        "unconstrained"@
    }
}

/// The command that makes a layer write.
pub open spec fn op_command(op: LayerOpView) -> Seq<char> {
    match op {
        LayerOpView::CreateChannel { .. } => "askrene-create-channel"@,
        LayerOpView::CopyPolicy { .. } => "askrene-update-channel"@,
        LayerOpView::SetPolicy { .. } => "askrene-update-channel"@,
        LayerOpView::Disable { .. } => "askrene-update-channel"@,
        LayerOpView::DisableNode { .. } => "askrene-disable-node"@,
        LayerOpView::Inform { .. } => "askrene-inform-channel"@,
    }
}

/// The parameters of a layer write.
pub open spec fn op_fields(op: LayerOpView, layer: Seq<char>) -> Seq<(Seq<char>, JsonView)> {
    seq![("layer"@, JsonView::Str(layer))] + match op {
        LayerOpView::CreateChannel { source, destination, scid, capacity_msat } => seq![
            ("source"@, JsonView::Str(source)),
            ("destination"@, JsonView::Str(destination)),
            ("short_channel_id"@, JsonView::Str(scid)),
            ("capacity_msat"@, JsonView::Uint(capacity_msat)),
        ],
        LayerOpView::CopyPolicy {
            scidd,
            htlc_minimum_msat,
            htlc_maximum_msat,
            fee_base_msat,
            fee_proportional_millionths,
            cltv_expiry_delta,
        } => seq![
            ("short_channel_id_dir"@, JsonView::Str(scidd)),
            ("enabled"@, JsonView::Bool(true)),
            ("htlc_minimum_msat"@, JsonView::Uint(htlc_minimum_msat)),
            ("htlc_maximum_msat"@, modelled(htlc_maximum_msat)),
            ("fee_base_msat"@, modelled(fee_base_msat)),
            ("fee_proportional_millionths"@, modelled(fee_proportional_millionths)),
            ("cltv_expiry_delta"@, modelled(cltv_expiry_delta)),
        ],
        LayerOpView::SetPolicy { scidd, policy } => seq![
            ("short_channel_id_dir"@, JsonView::Str(scidd)),
            ("enabled"@, JsonView::Bool(policy.enabled)),
            ("htlc_minimum_msat"@, JsonView::Uint(policy.htlc_minimum_msat)),
            ("htlc_maximum_msat"@, JsonView::Uint(policy.htlc_maximum_msat)),
            ("fee_base_msat"@, JsonView::Uint(policy.fee_base_msat as u64)),
            (
                "fee_proportional_millionths"@,
                JsonView::Uint(policy.fee_proportional_millionths as u64),
            ),
            ("cltv_expiry_delta"@, JsonView::Uint(policy.cltv_expiry_delta as u64)),
        ],
        LayerOpView::Disable { scidd } => seq![
            ("short_channel_id_dir"@, JsonView::Str(scidd)),
            ("enabled"@, JsonView::Bool(false)),
        ],
        LayerOpView::DisableNode { node } => seq![("node"@, JsonView::Str(node))],
        LayerOpView::Inform { scidd, amount_msat, constrained } => seq![
            ("short_channel_id_dir"@, JsonView::Str(scidd)),
            ("amount_msat"@, JsonView::Uint(amount_msat)),
            ("inform"@, JsonView::Str(inform_kind(constrained))),
        ],
    }
}

/// The command and the parameters of a layer write.
pub fn layer_call(op: &LayerOp, layer: &str) -> (r: (&'static str, Json))
    ensures
        r.0@ == op_command(op@),
        r.1@ == JsonView::Object(op_fields(op@, layer@)),
{
    let mut f = Fields::new();
    f.text("layer", layer);
    let command = match op {
        LayerOp::CreateChannel { source, destination, scid, capacity_msat } => {
            f.text("source", source.as_str());
            f.text("destination", destination.as_str());
            f.text("short_channel_id", scid.as_str());
            f.uint("capacity_msat", *capacity_msat);
            "askrene-create-channel"
        },
        LayerOp::CopyPolicy {
            scidd,
            htlc_minimum_msat,
            htlc_maximum_msat,
            fee_base_msat,
            fee_proportional_millionths,
            cltv_expiry_delta,
        } => {
            f.text("short_channel_id_dir", scidd.as_str());
            f.flag("enabled", true);
            f.uint("htlc_minimum_msat", *htlc_minimum_msat);
            f.opt_value("htlc_maximum_msat", *htlc_maximum_msat);
            f.opt_value("fee_base_msat", *fee_base_msat);
            f.opt_value("fee_proportional_millionths", *fee_proportional_millionths);
            f.opt_value("cltv_expiry_delta", *cltv_expiry_delta);
            "askrene-update-channel"
        },
        LayerOp::SetPolicy { scidd, policy } => {
            f.text("short_channel_id_dir", scidd.as_str());
            f.flag("enabled", policy.enabled);
            f.uint("htlc_minimum_msat", policy.htlc_minimum_msat);
            f.uint("htlc_maximum_msat", policy.htlc_maximum_msat);
            f.uint("fee_base_msat", policy.fee_base_msat as u64);
            f.uint("fee_proportional_millionths", policy.fee_proportional_millionths as u64);
            f.uint("cltv_expiry_delta", policy.cltv_expiry_delta as u64);
            "askrene-update-channel"
        },
        LayerOp::Disable { scidd } => {
            f.text("short_channel_id_dir", scidd.as_str());
            f.flag("enabled", false);
            "askrene-update-channel"
        },
        LayerOp::DisableNode { node } => {
            f.text("node", node.as_str());
            "askrene-disable-node"
        },
        LayerOp::Inform { scidd, amount_msat, constrained } => {
            f.text("short_channel_id_dir", scidd.as_str());
            f.uint("amount_msat", *amount_msat);
            if *constrained {
                f.text("inform", "constrained");
            } else {
                f.text("inform", "unconstrained");
            }
            "askrene-inform-channel"
        },
    };
    proof {
        assert(f@ =~= op_fields(op@, layer@));
    }
    (command, f.done())
}

/// Texts as documents.
pub open spec fn text_list(s: Seq<String>) -> Seq<JsonView> {
    s.map_values(|t: String| JsonView::Str(t@))
}

fn texts_json(s: &Vec<String>) -> (r: Json)
    ensures
        r@ == JsonView::Array(text_list(s@)),
{
    let mut out: Vec<Json> = Vec::new();
    for i in 0..s.len()
        invariant
            out@.len() == i,
            forall|j: int| 0 <= j < i ==> (#[trigger] out@[j])@ == JsonView::Str(s@[j]@),
    {
        out.push(text_of(s[i].as_str()));
    }
    proof {
        assert(json::list(out@) =~= text_list(s@));
    }
    array_of(out)
}

/// The parameters of getroutes.
pub open spec fn query_fields(q: RouteQuery) -> Seq<(Seq<char>, JsonView)> {
    seq![
        ("source"@, JsonView::Str(q.source@)),
        ("destination"@, JsonView::Str(q.destination@)),
        ("amount_msat"@, JsonView::Uint(q.amount_msat)),
        ("layers"@, JsonView::Array(text_list(q.layers@))),
        ("maxfee_msat"@, JsonView::Uint(q.maxfee_msat)),
        ("final_cltv"@, JsonView::Uint(q.final_cltv)),
    ] + match q.maxparts {
        Some(n) => seq![("maxparts"@, JsonView::Uint(n as u64))],
        None => seq![],
    }
}

impl RouteQuery {
    /// The parameters of getroutes.
    pub fn json(&self) -> (r: Json)
        ensures
            r@ == JsonView::Object(query_fields(*self)),
    {
        let mut f = Fields::new();
        f.text("source", self.source.as_str());
        f.text("destination", self.destination.as_str());
        f.uint("amount_msat", self.amount_msat);
        f.value("layers", texts_json(&self.layers));
        f.uint("maxfee_msat", self.maxfee_msat);
        f.uint("final_cltv", self.final_cltv);
        if let Some(n) = self.maxparts {
            f.uint("maxparts", n as u64);
        }
        proof {
            assert(f@ =~= query_fields(*self));
        }
        f.done()
    }
}

/// A hop as sendpay takes it.
pub open spec fn hop_fields(h: exec::SendpayHopView) -> Seq<(Seq<char>, JsonView)> {
    seq![
        ("id"@, modelled(h.id)),
        ("channel"@, JsonView::Str(h.channel)),
        ("direction"@, JsonView::Uint(h.direction as u64)),
        ("amount_msat"@, modelled(h.amount_msat)),
        ("delay"@, modelled(h.delay)),
        ("style"@, JsonView::Str("tlv"@)),
    ]
}

/// The hops as sendpay takes them.
pub open spec fn hop_list<'a>(hops: Seq<SendpayHop<'a>>) -> Seq<JsonView> {
    hops.map_values(|h: SendpayHop<'a>| JsonView::Object(hop_fields(h@)))
}

fn hop_json(h: &SendpayHop) -> (r: Json)
    ensures
        r@ == JsonView::Object(hop_fields(h@)),
{
    let mut f = Fields::new();
    f.opt_value("id", h.id);
    f.text("channel", h.channel.as_str());
    f.uint("direction", h.direction as u64);
    f.opt_value("amount_msat", h.amount_msat);
    f.opt_value("delay", h.delay);
    f.text("style", "tlv");
    proof {
        assert(f@ =~= hop_fields(h@));
    }
    f.done()
}

fn hops_json<'a>(hops: &Vec<SendpayHop<'a>>) -> (r: Json)
    ensures
        r@ == JsonView::Array(hop_list(hops@)),
{
    let mut out: Vec<Json> = Vec::new();
    for i in 0..hops.len()
        invariant
            out@.len() == i,
            forall|j: int|
                0 <= j < i ==> (#[trigger] out@[j])@ == JsonView::Object(hop_fields(hops@[j]@)),
    {
        out.push(hop_json(&hops[i]));
    }
    proof {
        assert(json::list(out@) =~= hop_list(hops@));
    }
    array_of(out)
}

/// The parameters of sendpay.
pub open spec fn sendpay_fields<'a>(
    p: Part,
    hops: Seq<SendpayHop<'a>>,
    label: Seq<char>,
    secret: Seq<char>,
) -> Seq<(Seq<char>, JsonView)> {
    seq![
        ("route"@, JsonView::Array(hop_list(hops))),
        ("payment_hash"@, JsonView::Str(p.payment_hash@)),
        ("label"@, JsonView::Str(label)),
        ("payment_secret"@, JsonView::Str(secret)),
        ("amount_msat"@, JsonView::Uint(p.planned_msat)),
    ]
}

/// The parameters of sendpay.  A standalone payment per part: no
/// partid/groupid, and amount_msat is this part's own delivered amount
/// (required for to-self payments).
pub fn sendpay_call<'a>(
    p: &Part,
    hops: &Vec<SendpayHop<'a>>,
    label: &str,
    secret: &str,
) -> (r: Json)
    ensures
        r@ == JsonView::Object(sendpay_fields(*p, hops@, label@, secret@)),
{
    let mut f = Fields::new();
    f.value("route", hops_json(hops));
    f.text("payment_hash", p.payment_hash.as_str());
    f.text("label", label);
    f.text("payment_secret", secret);
    f.uint("amount_msat", p.planned_msat);
    proof {
        assert(f@ =~= sendpay_fields(*p, hops@, label@, secret@));
    }
    f.done()
}

// ---------------------------------------------------------------------
// Laws
// ---------------------------------------------------------------------

/// A part as it is shown: its handle, its state in words, where it leaves
/// and comes home, and its amounts.  A settled part shows what it
/// delivered and what that cost; any other shows nothing delivered and
/// nothing paid.
pub proof fn law_parts_are_shown_as_they_are(p: Part)
    ensures
        ({
            let f = part_fields(p);
            let fee = if p.planned_sent_msat > p.planned_msat {
                (p.planned_sent_msat - p.planned_msat) as u64
            } else {
                0
            };
            &&& f.len() == 10
            &&& f.contains(("part_index"@, JsonView::Uint(p.part_index)))
            &&& f.contains(("payment_hash"@, JsonView::Str(p.payment_hash@)))
            &&& f.contains(("first_hop"@, JsonView::Str(p.first_hop@)))
            &&& f.contains(("return_hop"@, JsonView::Str(p.return_hop@)))
            &&& f.contains(("planned_msat"@, JsonView::Uint(p.planned_msat)))
            &&& f.contains(("sent_msat"@, JsonView::Uint(p.planned_sent_msat)))
            &&& p.status is Complete ==> f.contains(("status"@, JsonView::Str("complete"@)))
                && f.contains(("delivered_msat"@, JsonView::Uint(p.planned_msat))) && f.contains(
                ("fee_msat"@, JsonView::Uint(fee)),
            )
            &&& p.status is Pending ==> f.contains(("status"@, JsonView::Str("pending"@)))
            &&& p.status is Failed ==> f.contains(("status"@, JsonView::Str("failed"@)))
            &&& !(p.status is Complete) ==> f.contains(("delivered_msat"@, JsonView::Uint(0)))
                && f.contains(("fee_msat"@, JsonView::Uint(0)))
            &&& p.detail is None ==> f.contains(("detail"@, JsonView::Null))
            &&& p.detail matches Some(d) ==> f.contains(("detail"@, JsonView::Str(d@)))
        }),
{
    let f = part_fields(p);
    assert(f[0].0 == "part_index"@ && f[1].0 == "payment_hash"@ && f[2].0 == "status"@ && f[3].0
        == "first_hop"@ && f[4].0 == "return_hop"@ && f[5].0 == "planned_msat"@ && f[6].0
        == "delivered_msat"@ && f[7].0 == "sent_msat"@ && f[8].0 == "fee_msat"@ && f[9].0
        == "detail"@);
}

/// A dryrun shows the plan: what was asked for, what planning settled on
/// and at what price, what the routes would deliver and cost, and the
/// routes themselves.
pub proof fn law_dryruns_show_the_plan(params: XRebalanceParams, p: PlanResult)
    ensures
        ({
            let f = dryrun_fields(params, p);
            &&& f.len() == 11
            &&& f.contains(("status"@, JsonView::Str("planned"@)))
            &&& f.contains(("dryrun"@, JsonView::Bool(true)))
            &&& f.contains(("amount_msat"@, JsonView::Uint(params.amount_msat)))
            &&& f.contains(("effective_amount_msat"@, JsonView::Uint(p.effective_amount_msat)))
            &&& f.contains(("maxfee_msat"@, JsonView::Uint(p.maxfee_msat)))
            &&& f.contains(("delivered_msat"@, JsonView::Uint(p.delivered_msat)))
            &&& f.contains(("fee_msat"@, JsonView::Uint(p.fee_msat)))
            &&& f.contains(("routes"@, JsonView::Array(json::list(p.routes@))))
            &&& p.delivered_msat == 0 ==> f.contains(("fee_ppm"@, JsonView::Null))
            &&& p.delivered_msat > 0 ==> f.contains(
                (
                    "fee_ppm"@,
                    JsonView::Uint(
                        ((p.fee_msat * 1_000_000 / (p.delivered_msat as int))
                            % 0x1_0000_0000_0000_0000) as u64,
                    ),
                ),
            )
            &&& params.label matches Some(l) ==> f.contains(("label"@, JsonView::Str(l@)))
            &&& params.label is None ==> f.contains(("label"@, JsonView::Null))
            &&& p.detail matches Some(d) ==> f.contains(("detail"@, JsonView::Str(d@)))
            &&& p.detail is None ==> f.contains(("detail"@, JsonView::Null))
        }),
{
    let f = dryrun_fields(params, p);
    assert(f[0].0 == "status"@ && f[1].0 == "label"@ && f[2].0 == "dryrun"@ && f[3].0
        == "amount_msat"@ && f[4].0 == "effective_amount_msat"@ && f[5].0 == "maxfee_msat"@
        && f[6].0 == "delivered_msat"@ && f[7].0 == "fee_msat"@ && f[8].0 == "fee_ppm"@ && f[9].0
        == "routes"@ && f[10].0 == "detail"@);
}

/// A round shows what was planned and what came of it: the totals of its
/// parts and each of the parts.
pub proof fn law_rounds_show_what_came_of_them(
    params: XRebalanceParams,
    p: PlanResult,
    parts: Seq<Part>,
    t: Totals,
    i: int,
)
    ensures
        ({
            let f = round_fields(params, p, parts, t);
            &&& f.len() == 11
            &&& f.contains(("status"@, JsonView::Str("executed"@)))
            &&& f.contains(("amount_msat"@, JsonView::Uint(params.amount_msat)))
            &&& f.contains(("maxfee_msat"@, JsonView::Uint(p.maxfee_msat)))
            &&& f.contains(("planned_msat"@, JsonView::Uint(p.delivered_msat)))
            &&& f.contains(("planned_fee_msat"@, JsonView::Uint(p.fee_msat)))
            &&& f.contains(("delivered_msat"@, JsonView::Uint(t.delivered_msat)))
            &&& f.contains(("fee_msat"@, JsonView::Uint(t.fee_msat)))
            &&& f.contains(("pending_msat"@, JsonView::Uint(t.pending_msat)))
            &&& f.contains(("parts"@, JsonView::Array(part_list(parts))))
            &&& params.label matches Some(l) ==> f.contains(("label"@, JsonView::Str(l@)))
            &&& params.label is None ==> f.contains(("label"@, JsonView::Null))
            &&& p.detail matches Some(d) ==> f.contains(("detail"@, JsonView::Str(d@)))
            &&& p.detail is None ==> f.contains(("detail"@, JsonView::Null))
        }),
        part_list(parts).len() == parts.len(),
        0 <= i < parts.len() ==> part_list(parts)[i] == JsonView::Object(part_fields(parts[i])),
{
    let f = round_fields(params, p, parts, t);
    assert(f[0].0 == "status"@ && f[1].0 == "label"@ && f[2].0 == "amount_msat"@ && f[3].0
        == "maxfee_msat"@ && f[4].0 == "planned_msat"@ && f[5].0 == "planned_fee_msat"@ && f[6].0
        == "delivered_msat"@ && f[7].0 == "fee_msat"@ && f[8].0 == "pending_msat"@ && f[9].0
        == "detail"@ && f[10].0 == "parts"@);
}

/// A request shows its outcome over all the rounds, why they ended and
/// what its parts came to; the rounds themselves only where the caller
/// wants them.
pub proof fn law_requests_show_their_outcome(
    params: XRebalanceParams,
    l: Ledger,
    s: Summary,
    parts: Seq<Part>,
    rounds: Seq<Json>,
    stop_reason: Seq<char>,
)
    ensures
        ({
            let f = request_fields(params, l, s, parts, rounds, stop_reason);
            let detail = ("rounds"@, JsonView::Array(json::list(rounds)));
            &&& f.contains(("status"@, JsonView::Str("executed"@)))
            &&& f.contains(("amount_msat"@, JsonView::Uint(params.amount_msat)))
            &&& f.contains(("rounds_run"@, JsonView::Uint(rounds.len() as u64)))
            &&& f.contains(("stop_reason"@, JsonView::Str(stop_reason)))
            &&& f.contains(("delivered_msat"@, JsonView::Uint(l.delivered_msat)))
            &&& f.contains(("fee_msat"@, JsonView::Uint(l.fee_msat)))
            &&& f.contains(("pending_msat"@, JsonView::Uint(l.pending_msat)))
            &&& f.contains(
                ("summary"@, JsonView::Object(summary_fields(l, s, parts, rounds.len() as int))),
            )
            &&& l.delivered_msat == 0 ==> f.contains(("fee_ppm"@, JsonView::Null))
            &&& l.delivered_msat > 0 ==> f.contains(
                (
                    "fee_ppm"@,
                    JsonView::Uint(
                        ((l.fee_msat * 1_000_000 / (l.delivered_msat as int))
                            % 0x1_0000_0000_0000_0000) as u64,
                    ),
                ),
            )
            &&& params.label matches Some(name) ==> f.contains(("label"@, JsonView::Str(name@)))
            &&& params.label is None ==> f.contains(("label"@, JsonView::Null))
            &&& params.verbose == Some(true) ==> f.len() == 11 && f.last() == detail
            &&& params.verbose != Some(true) ==> f.len() == 10
        }),
{
    let f = request_fields(params, l, s, parts, rounds, stop_reason);
    assert(f[0].0 == "status"@ && f[1].0 == "label"@ && f[2].0 == "amount_msat"@ && f[3].0
        == "rounds_run"@ && f[4].0 == "stop_reason"@ && f[5].0 == "delivered_msat"@ && f[6].0
        == "fee_msat"@ && f[7].0 == "fee_ppm"@ && f[8].0 == "pending_msat"@ && f[9].0
        == "summary"@);
}

/// The summary counts the rounds and the parts by their state, and shows
/// the closest miss where there is one.
pub proof fn law_summaries_count_the_parts(l: Ledger, s: Summary, parts: Seq<Part>, rounds: int)
    ensures
        ({
            let f = summary_fields(l, s, parts, rounds);
            &&& f.contains(("rounds"@, JsonView::Uint(rounds as u64)))
            &&& f.contains(("parts"@, JsonView::Uint(s.parts as u64)))
            &&& f.contains(("complete"@, JsonView::Uint(s.complete as u64)))
            &&& f.contains(("failed"@, JsonView::Uint(s.failed as u64)))
            &&& f.contains(("pending"@, JsonView::Uint(s.pending as u64)))
            &&& f.contains(("delivered_msat"@, JsonView::Uint(l.delivered_msat)))
            &&& f.contains(("fee_msat"@, JsonView::Uint(l.fee_msat)))
            &&& s.closest_miss is None ==> f.len() == 7
            &&& s.closest_miss matches Some(i) ==> f.len() == 8 && f.last() == (
                "closest_miss"@,
                JsonView::Object(part_fields(parts[i as int])),
            )
        }),
{
    let f = summary_fields(l, s, parts, rounds);
    assert(f[0].0 == "rounds"@ && f[1].0 == "parts"@ && f[2].0 == "complete"@ && f[3].0
        == "failed"@ && f[4].0 == "pending"@ && f[5].0 == "delivered_msat"@ && f[6].0
        == "fee_msat"@);
}

/// An HTLC of ours is resolved with its preimage, and any other goes on
/// untouched.
pub proof fn law_htlcs_are_answered(key: String)
    ensures
        htlc_fields(HtlcDecision::Resolve { payment_key: key }).contains(
            ("result"@, JsonView::Str("resolve"@)),
        ),
        htlc_fields(HtlcDecision::Resolve { payment_key: key }).contains(
            ("payment_key"@, JsonView::Str(key@)),
        ),
        htlc_fields(HtlcDecision::Continue) == seq![("result"@, JsonView::Str("continue"@))],
{
    let f = htlc_fields(HtlcDecision::Resolve { payment_key: key });
    assert(f[0].0 == "result"@ && f[1].0 == "payment_key"@);
}

/// A layer write goes to its command, into its layer, with what it says.
pub proof fn law_layer_writes_say_what_they_are(
    scidd: Seq<char>,
    layer: Seq<char>,
    amount_msat: u64,
    constrained: bool,
    node: Seq<char>,
    policy: crate::onion_error::ChanUpdate,
)
    ensures
        ({
            let op = LayerOpView::Inform { scidd, amount_msat, constrained };
            let f = op_fields(op, layer);
            &&& op_command(op) == "askrene-inform-channel"@
            &&& f.len() == 4
            &&& f.contains(("layer"@, JsonView::Str(layer)))
            &&& f.contains(("short_channel_id_dir"@, JsonView::Str(scidd)))
            &&& f.contains(("amount_msat"@, JsonView::Uint(amount_msat)))
            &&& constrained ==> f.contains(("inform"@, JsonView::Str("constrained"@)))
            &&& !constrained ==> f.contains(("inform"@, JsonView::Str("unconstrained"@)))
        }),
        ({
            let op = LayerOpView::Disable { scidd };
            let f = op_fields(op, layer);
            &&& op_command(op) == "askrene-update-channel"@
            &&& f.len() == 3
            &&& f.contains(("layer"@, JsonView::Str(layer)))
            &&& f.contains(("short_channel_id_dir"@, JsonView::Str(scidd)))
            &&& f.contains(("enabled"@, JsonView::Bool(false)))
        }),
        ({
            let op = LayerOpView::DisableNode { node };
            let f = op_fields(op, layer);
            &&& op_command(op) == "askrene-disable-node"@
            &&& f.len() == 2
            &&& f.contains(("layer"@, JsonView::Str(layer)))
            &&& f.contains(("node"@, JsonView::Str(node)))
        }),
        ({
            let op = LayerOpView::SetPolicy { scidd, policy };
            let f = op_fields(op, layer);
            &&& op_command(op) == "askrene-update-channel"@
            &&& f.len() == 8
            &&& f.contains(("layer"@, JsonView::Str(layer)))
            &&& f.contains(("short_channel_id_dir"@, JsonView::Str(scidd)))
            &&& f.contains(("enabled"@, JsonView::Bool(policy.enabled)))
            &&& f.contains(("htlc_minimum_msat"@, JsonView::Uint(policy.htlc_minimum_msat)))
            &&& f.contains(("htlc_maximum_msat"@, JsonView::Uint(policy.htlc_maximum_msat)))
            &&& f.contains(("fee_base_msat"@, JsonView::Uint(policy.fee_base_msat as u64)))
            &&& f.contains(
                (
                    "fee_proportional_millionths"@,
                    JsonView::Uint(policy.fee_proportional_millionths as u64),
                ),
            )
            &&& f.contains(
                ("cltv_expiry_delta"@, JsonView::Uint(policy.cltv_expiry_delta as u64)),
            )
        }),
{
    let f = op_fields(LayerOpView::Inform { scidd, amount_msat, constrained }, layer);
    assert(f[0].0 == "layer"@ && f[1].0 == "short_channel_id_dir"@ && f[2].0 == "amount_msat"@
        && f[3].0 == "inform"@);
    let g = op_fields(LayerOpView::Disable { scidd }, layer);
    assert(g[0].0 == "layer"@ && g[1].0 == "short_channel_id_dir"@ && g[2].0 == "enabled"@);
    let h = op_fields(LayerOpView::DisableNode { node }, layer);
    assert(h[0].0 == "layer"@ && h[1].0 == "node"@);
    let k = op_fields(LayerOpView::SetPolicy { scidd, policy }, layer);
    assert(k[0].0 == "layer"@ && k[1].0 == "short_channel_id_dir"@ && k[2].0 == "enabled"@
        && k[3].0 == "htlc_minimum_msat"@ && k[4].0 == "htlc_maximum_msat"@ && k[5].0
        == "fee_base_msat"@ && k[6].0 == "fee_proportional_millionths"@ && k[7].0
        == "cltv_expiry_delta"@);
}

/// A mirror is created with its ends, its name and its capacity, and its
/// policy is written as enabled, with each of the peer's terms under its
/// own name and null for one that is absent.
pub proof fn law_mirror_writes_say_what_they_are(
    layer: Seq<char>,
    source: Seq<char>,
    destination: Seq<char>,
    scid: Seq<char>,
    capacity_msat: u64,
    scidd: Seq<char>,
    htlc_minimum_msat: u64,
    max: Option<Json>,
    base: Option<Json>,
    ppm: Option<Json>,
    cltv: Option<Json>,
)
    ensures
        ({
            let op = LayerOpView::CreateChannel { source, destination, scid, capacity_msat };
            let f = op_fields(op, layer);
            &&& op_command(op) == "askrene-create-channel"@
            &&& f.len() == 5
            &&& f.contains(("layer"@, JsonView::Str(layer)))
            &&& f.contains(("source"@, JsonView::Str(source)))
            &&& f.contains(("destination"@, JsonView::Str(destination)))
            &&& f.contains(("short_channel_id"@, JsonView::Str(scid)))
            &&& f.contains(("capacity_msat"@, JsonView::Uint(capacity_msat)))
        }),
        ({
            let op = LayerOpView::CopyPolicy {
                scidd,
                htlc_minimum_msat,
                htlc_maximum_msat: max,
                fee_base_msat: base,
                fee_proportional_millionths: ppm,
                cltv_expiry_delta: cltv,
            };
            let f = op_fields(op, layer);
            let shown = |v: Option<Json>|
                match v {
                    Some(v) => v@,
                    None => JsonView::Null,
                };
            &&& op_command(op) == "askrene-update-channel"@
            &&& f.len() == 8
            &&& f.contains(("layer"@, JsonView::Str(layer)))
            &&& f.contains(("short_channel_id_dir"@, JsonView::Str(scidd)))
            &&& f.contains(("enabled"@, JsonView::Bool(true)))
            &&& f.contains(("htlc_minimum_msat"@, JsonView::Uint(htlc_minimum_msat)))
            &&& f.contains(("htlc_maximum_msat"@, shown(max)))
            &&& f.contains(("fee_base_msat"@, shown(base)))
            &&& f.contains(("fee_proportional_millionths"@, shown(ppm)))
            &&& f.contains(("cltv_expiry_delta"@, shown(cltv)))
        }),
{
    let f = op_fields(
        LayerOpView::CreateChannel { source, destination, scid, capacity_msat },
        layer,
    );
    assert(f[0].0 == "layer"@ && f[1].0 == "source"@ && f[2].0 == "destination"@ && f[3].0
        == "short_channel_id"@ && f[4].0 == "capacity_msat"@);
    let k = op_fields(
        LayerOpView::CopyPolicy {
            scidd,
            htlc_minimum_msat,
            htlc_maximum_msat: max,
            fee_base_msat: base,
            fee_proportional_millionths: ppm,
            cltv_expiry_delta: cltv,
        },
        layer,
    );
    assert(k[0].0 == "layer"@ && k[1].0 == "short_channel_id_dir"@ && k[2].0 == "enabled"@
        && k[3].0 == "htlc_minimum_msat"@ && k[4].0 == "htlc_maximum_msat"@ && k[5].0
        == "fee_base_msat"@ && k[6].0 == "fee_proportional_millionths"@ && k[7].0
        == "cltv_expiry_delta"@);
}

/// A query asks for what it holds: the parts only where the caller caps
/// them.
pub proof fn law_queries_ask_for_what_they_hold(q: RouteQuery)
    ensures
        ({
            let f = query_fields(q);
            &&& f.contains(("source"@, JsonView::Str(q.source@)))
            &&& f.contains(("destination"@, JsonView::Str(q.destination@)))
            &&& f.contains(("amount_msat"@, JsonView::Uint(q.amount_msat)))
            &&& f.contains(("layers"@, JsonView::Array(text_list(q.layers@))))
            &&& f.contains(("maxfee_msat"@, JsonView::Uint(q.maxfee_msat)))
            &&& f.contains(("final_cltv"@, JsonView::Uint(q.final_cltv)))
            &&& q.maxparts is None ==> f.len() == 6
            &&& q.maxparts matches Some(n) ==> f.len() == 7 && f.last() == (
                "maxparts"@,
                JsonView::Uint(n as u64),
            )
        }),
        text_list(q.layers@).len() == q.layers@.len(),
        forall|i: int|
            0 <= i < q.layers@.len() ==> #[trigger] text_list(q.layers@)[i] == JsonView::Str(
                q.layers@[i]@,
            ),
{
    let f = query_fields(q);
    assert(f[0].0 == "source"@ && f[1].0 == "destination"@ && f[2].0 == "amount_msat"@ && f[3].0
        == "layers"@ && f[4].0 == "maxfee_msat"@ && f[5].0 == "final_cltv"@);
}

/// A payment is sent over its hops in their order, under its own hash and
/// secret, for what it delivers; each hop with its node, channel,
/// direction, amount and delay.
pub proof fn law_payments_are_sent_as_prepared<'a>(
    p: Part,
    hops: Seq<SendpayHop<'a>>,
    label: Seq<char>,
    secret: Seq<char>,
    i: int,
)
    ensures
        ({
            let f = sendpay_fields(p, hops, label, secret);
            &&& f.len() == 5
            &&& f.contains(("route"@, JsonView::Array(hop_list(hops))))
            &&& f.contains(("payment_hash"@, JsonView::Str(p.payment_hash@)))
            &&& f.contains(("label"@, JsonView::Str(label)))
            &&& f.contains(("payment_secret"@, JsonView::Str(secret)))
            &&& f.contains(("amount_msat"@, JsonView::Uint(p.planned_msat)))
        }),
        hop_list(hops).len() == hops.len(),
        0 <= i < hops.len() ==> (hop_list(hops)[i] matches JsonView::Object(h) && {
            let hop = hops[i]@;
            let shown = |v: Option<Json>|
                match v {
                    Some(v) => v@,
                    None => JsonView::Null,
                };
            &&& h.len() == 6
            &&& h.contains(("id"@, shown(hop.id)))
            &&& h.contains(("channel"@, JsonView::Str(hop.channel)))
            &&& h.contains(("direction"@, JsonView::Uint(hop.direction as u64)))
            &&& h.contains(("amount_msat"@, shown(hop.amount_msat)))
            &&& h.contains(("delay"@, shown(hop.delay)))
            &&& h.contains(("style"@, JsonView::Str("tlv"@)))
        }),
{
    let f = sendpay_fields(p, hops, label, secret);
    assert(f[0].0 == "route"@ && f[1].0 == "payment_hash"@ && f[2].0 == "label"@ && f[3].0
        == "payment_secret"@ && f[4].0 == "amount_msat"@);
    if 0 <= i < hops.len() {
        let h = hop_fields(hops[i]@);
        assert(h[0].0 == "id"@ && h[1].0 == "channel"@ && h[2].0 == "direction"@ && h[3].0
            == "amount_msat"@ && h[4].0 == "delay"@ && h[5].0 == "style"@);
    }
}

/// The statistics show each number under its own name.
pub proof fn law_statistics_show_each_number(
    version: Seq<char>,
    s: Settings,
    h: Holdings,
    layer: Option<LayerStats>,
)
    ensures
        ({
            let f = stats_fields(version, s, h, layer);
            let o = option_fields(s, h);
            let v = override_fields(h);
            &&& f.len() == 6
            &&& f.contains(("version"@, JsonView::Str(version)))
            &&& f.contains(("options"@, JsonView::Object(o)))
            &&& f.contains(("claims"@, JsonView::Uint(h.claims as u64)))
            &&& f.contains(("coalescer_entries"@, JsonView::Uint(h.coalescer_entries as u64)))
            &&& f.contains(("overrides"@, JsonView::Object(v)))
            &&& f.contains(("layer"@, JsonView::Object(layer_fields(layer))))
            &&& o.len() == 6
            &&& o.contains(("constraint_age"@, JsonView::Uint(s.constraint_age)))
            &&& o.contains(("override_age"@, JsonView::Uint(h.override_age)))
            &&& o.contains(("part_wait"@, JsonView::Uint(s.part_wait_secs)))
            &&& o.contains(("min_part_msat"@, JsonView::Uint(s.min_part_msat)))
            &&& o.contains(("max_rounds"@, JsonView::Uint(s.max_rounds)))
            &&& o.contains(("final_cltv"@, JsonView::Uint(s.final_cltv)))
            &&& v.len() == 3
            &&& v.contains(("channel_updates"@, JsonView::Uint(h.policies as u64)))
            &&& v.contains(("disabled_nodes"@, JsonView::Uint(h.disabled_nodes as u64)))
            &&& v.contains(("exclusions"@, JsonView::Uint(h.exclusions as u64)))
        }),
        layer is None ==> layer_fields(layer) == seq![("exists"@, JsonView::Bool(false))],
        layer matches Some(l) ==> {
            let f = layer_fields(layer);
            let or_null = |t: Option<u64>|
                match t {
                    Some(t) => JsonView::Uint(t),
                    None => JsonView::Null,
                };
            &&& f.len() == 17
            &&& f.contains(("exists"@, JsonView::Bool(true)))
            &&& f.contains(("constraints"@, JsonView::Uint(l.constraints as u64)))
            &&& f.contains(("constraint_minimums"@, JsonView::Uint(l.constraint_minimums as u64)))
            &&& f.contains(("constraint_maximums"@, JsonView::Uint(l.constraint_maximums as u64)))
            &&& f.contains(("constraint_scidds"@, JsonView::Uint(l.constraint_scidds as u64)))
            &&& f.contains(("dirs_with_max"@, JsonView::Uint(l.dirs_with_max as u64)))
            &&& f.contains(("dirs_with_min"@, JsonView::Uint(l.dirs_with_min as u64)))
            &&& f.contains(("depth_min"@, JsonView::Uint(l.depth_min)))
            &&& f.contains(("depth_median"@, JsonView::Uint(l.depth_median)))
            &&& f.contains(("depth_p90"@, JsonView::Uint(l.depth_p90)))
            &&& f.contains(("depth_max"@, JsonView::Uint(l.depth_max)))
            &&& f.contains(("oldest_constraint"@, or_null(l.oldest_constraint)))
            &&& f.contains(("newest_constraint"@, or_null(l.newest_constraint)))
            &&& f.contains(("channel_updates"@, JsonView::Uint(l.channel_updates as u64)))
            &&& f.contains(("disabled_nodes"@, JsonView::Uint(l.disabled_nodes as u64)))
            &&& f.contains(("created_channels"@, JsonView::Uint(l.created_channels as u64)))
            &&& f.contains(("biases"@, JsonView::Uint(l.biases as u64)))
        },
{
    let f = stats_fields(version, s, h, layer);
    assert(f[0].0 == "version"@ && f[1].0 == "options"@ && f[2].0 == "claims"@ && f[3].0
        == "coalescer_entries"@ && f[4].0 == "overrides"@ && f[5].0 == "layer"@);
    let o = option_fields(s, h);
    assert(o[0].0 == "constraint_age"@ && o[1].0 == "override_age"@ && o[2].0 == "part_wait"@
        && o[3].0 == "min_part_msat"@ && o[4].0 == "max_rounds"@ && o[5].0 == "final_cltv"@);
    let v = override_fields(h);
    assert(v[0].0 == "channel_updates"@ && v[1].0 == "disabled_nodes"@ && v[2].0
        == "exclusions"@);
    if layer is Some {
        let g = layer_fields(layer);
        assert(g[0].0 == "exists"@ && g[1].0 == "constraints"@ && g[2].0 == "constraint_minimums"@
            && g[3].0 == "constraint_maximums"@ && g[4].0 == "constraint_scidds"@ && g[5].0
            == "dirs_with_max"@ && g[6].0 == "dirs_with_min"@ && g[7].0 == "depth_min"@ && g[8].0
            == "depth_median"@ && g[9].0 == "depth_p90"@ && g[10].0 == "depth_max"@ && g[11].0
            == "oldest_constraint"@ && g[12].0 == "newest_constraint"@ && g[13].0
            == "channel_updates"@ && g[14].0 == "disabled_nodes"@ && g[15].0 == "created_channels"@
            && g[16].0 == "biases"@);
    }
}

} // verus!
