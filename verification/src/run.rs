//! One request from its first round to its response.
//!
//! [`RequestRun`] says what the next round plans for, takes what came of
//! it, and says whether another follows.

use crate::chan_spec;
use crate::exec;
use crate::exec::{Part, Totals};
use crate::json::{Json, JsonView};
use crate::plan;
use crate::plan::{Ladder, PlanResult};
use crate::render;
use crate::request;
use crate::request::{FeeBudget, XRebalanceParams};
use crate::rounds;
use crate::rounds::{Drawn, Ledger, RoundAsk, StopReason, StopReasonView};
use vstd::prelude::*;

verus! {

/// An absolute budget: one pot across the rounds.
pub open spec fn pot_of(budget: FeeBudget) -> Option<u64> {
    match budget {
        FeeBudget::Msat(msat) => Some(msat),
        FeeBudget::Ppm(_) => None,
    }
}

/// A round's budget: what is left of a pot, or the rate.
pub open spec fn round_budget(budget: FeeBudget, ask: RoundAsk) -> FeeBudget {
    match ask.maxfee_msat {
        Some(left) => FeeBudget::Msat(left),
        None => budget,
    }
}

/// An optional stop reason with its texts as characters.
pub open spec fn reason(r: Option<StopReason>) -> Option<StopReasonView> {
    match r {
        Some(s) => Some(s@),
        None => None,
    }
}

/// The rounds of one request.
pub struct RequestRun {
    pub budget: FeeBudget,
    /// What the rounds came to.
    pub ledger: Ledger,
    /// What they committed through each channel.
    pub drawn: Drawn,
    /// Their parts.
    pub parts: Vec<Part>,
    /// Their responses.
    pub responses: Vec<Json>,
}

/// The totals of a run of parts, where they fit.
pub open spec fn totals_of(parts: Seq<Part>) -> Totals {
    Totals {
        delivered_msat: exec::delivered_sum(parts) as u64,
        fee_msat: exec::fee_sum(parts) as u64,
        pending_msat: exec::pending_sum(parts) as u64,
        pending_fee_msat: exec::pending_fee_sum(parts) as u64,
    }
}

/// Whether the totals of a run of parts fit.
pub open spec fn totals_fit(parts: Seq<Part>) -> bool {
    &&& exec::delivered_sum(parts) <= u64::MAX
    &&& exec::fee_sum(parts) <= u64::MAX
    &&& exec::pending_sum(parts) <= u64::MAX
    &&& exec::pending_fee_sum(parts) <= u64::MAX
}

proof fn lemma_sum_prefix(a: Seq<Part>, b: Seq<Part>, f: spec_fn(Part) -> u64, n: int)
    requires
        n <= a.len(),
    ensures
        exec::sum_of(a + b, f, n) == exec::sum_of(a, f, n),
    decreases n,
{
    if n > 0 {
        lemma_sum_prefix(a, b, f, n - 1);
        assert((a + b)[n - 1] == a[n - 1]);
    }
}

proof fn lemma_sum_joined(a: Seq<Part>, b: Seq<Part>, f: spec_fn(Part) -> u64, n: int)
    requires
        0 <= n <= b.len(),
    ensures
        exec::sum_of(a + b, f, a.len() + n) == exec::sum_of(a, f, a.len() as int) + exec::sum_of(
            b,
            f,
            n,
        ),
        exec::sum_of(b, f, n) >= 0,
    decreases n,
{
    if n > 0 {
        lemma_sum_joined(a, b, f, n - 1);
        assert((a + b)[a.len() + n - 1] == b[n - 1]);
    } else {
        lemma_sum_prefix(a, b, f, a.len() as int);
    }
}

proof fn lemma_totals_joined(a: Seq<Part>, b: Seq<Part>)
    ensures
        exec::delivered_sum(a + b) == exec::delivered_sum(a) + exec::delivered_sum(b),
        exec::fee_sum(a + b) == exec::fee_sum(a) + exec::fee_sum(b),
        exec::pending_sum(a + b) == exec::pending_sum(a) + exec::pending_sum(b),
        exec::pending_fee_sum(a + b) == exec::pending_fee_sum(a) + exec::pending_fee_sum(b),
        exec::delivered_sum(b) >= 0,
        exec::fee_sum(b) >= 0,
        exec::pending_sum(b) >= 0,
        exec::pending_fee_sum(b) >= 0,
{
    let n = b.len() as int;
    lemma_sum_joined(a, b, |p: Part| p.delivered(), n);
    lemma_sum_joined(a, b, |p: Part| p.fee(), n);
    lemma_sum_joined(a, b, |p: Part| p.pending(), n);
    lemma_sum_joined(a, b, |p: Part| p.pending_fee(), n);
}

proof fn lemma_drawn_prefix(
    drawn: Map<Seq<char>, u64>,
    a: Seq<Part>,
    b: Seq<Part>,
    n: int,
)
    requires
        n <= a.len(),
    ensures
        rounds::sources_drawn(drawn, a + b, n) == rounds::sources_drawn(drawn, a, n),
        rounds::destinations_drawn(drawn, a + b, n) == rounds::destinations_drawn(drawn, a, n),
    decreases n,
{
    if n > 0 {
        lemma_drawn_prefix(drawn, a, b, n - 1);
        assert((a + b)[n - 1] == a[n - 1]);
    }
}

proof fn lemma_drawn_joined(drawn: Map<Seq<char>, u64>, a: Seq<Part>, b: Seq<Part>, n: int)
    requires
        0 <= n <= b.len(),
    ensures
        rounds::sources_drawn(drawn, a + b, a.len() + n) == rounds::sources_drawn(
            rounds::sources_drawn(drawn, a, a.len() as int),
            b,
            n,
        ),
        rounds::destinations_drawn(drawn, a + b, a.len() + n) == rounds::destinations_drawn(
            rounds::destinations_drawn(drawn, a, a.len() as int),
            b,
            n,
        ),
    decreases n,
{
    if n > 0 {
        lemma_drawn_joined(drawn, a, b, n - 1);
        assert((a + b)[a.len() + n - 1] == b[n - 1]);
    } else {
        lemma_drawn_prefix(drawn, a, b, a.len() as int);
    }
}

impl RequestRun {
    /// The ledger and the caps account for every part of the request.
    pub open spec fn wf(&self) -> bool {
        let none = Map::<Seq<char>, u64>::empty();
        let n = self.parts@.len() as int;
        &&& self.drawn.wf()
        &&& self.ledger.pot_msat == pot_of(self.budget)
        &&& self.ledger.rounds_max >= 1
        &&& self.ledger.delivered_msat == exec::delivered_sum(self.parts@)
        &&& self.ledger.fee_msat == exec::fee_sum(self.parts@)
        &&& self.ledger.pending_msat == exec::pending_sum(self.parts@)
        &&& self.ledger.pending_fee_msat == exec::pending_fee_sum(self.parts@)
        &&& self.drawn.sources@ == rounds::sources_drawn(none, self.parts@, n)
        &&& self.drawn.destinations@ == rounds::destinations_drawn(none, self.parts@, n)
    }

    /// A request before its first round.  `option` is the value of
    /// xrebalance-max-rounds.
    pub fn new(params: &XRebalanceParams, budget: FeeBudget, option: u64) -> (r: Self)
        ensures
            r.wf(),
            r.budget == budget,
            r.ledger == (Ledger {
                amount_msat: params.amount_msat,
                pot_msat: pot_of(budget),
                rounds_max: request::rounds_limit(params.maxrounds, option),
                round: 0,
                delivered_msat: 0,
                fee_msat: 0,
                pending_msat: 0,
                pending_fee_msat: 0,
            }),
            r.parts@.len() == 0,
            r.responses@.len() == 0,
    {
        let pot_msat: Option<u64> = match budget {
            FeeBudget::Msat(msat) => Some(msat),
            FeeBudget::Ppm(_) => None,
        };
        RequestRun {
            budget,
            ledger: Ledger::new(params.amount_msat, pot_msat, params.rounds_max(option)),
            drawn: Drawn::new(),
            parts: Vec::new(),
            responses: Vec::new(),
        }
    }

    /// Begin a round: what it plans for and at what price, or why there
    /// is none.  `floor_msat` is the fragment floor.
    pub fn begin(&mut self, params: &XRebalanceParams, floor_msat: u64) -> (r: Result<
        (XRebalanceParams, FeeBudget),
        StopReason,
    >)
        requires
            old(self).wf(),
        ensures
            final(self).wf(),
            match r {
                Ok((p, b)) => {
                    let ask = old(self).ledger.ask();
                    &&& old(self).ledger.no_round(floor_msat) is None
                    &&& p.is_round_of(
                        *params,
                        ask,
                        old(self).drawn.sources@,
                        old(self).drawn.destinations@,
                    )
                    &&& b == round_budget(old(self).budget, ask)
                    &&& *final(self) == (RequestRun {
                        ledger: Ledger {
                            round: (old(self).ledger.round + 1) as u64,
                            ..old(self).ledger
                        },
                        ..*old(self)
                    })
                    &&& final(self).ledger.round <= final(self).ledger.rounds_max
                },
                Err(s) => old(self).ledger.no_round(floor_msat) == Some(s@) && *final(self)
                    == *old(self),
            },
            r matches Ok((p, b)) ==> {
                let done = exec::delivered_sum(old(self).parts@) + exec::pending_sum(
                    old(self).parts@,
                );
                let spent = exec::fee_sum(old(self).parts@) + exec::pending_fee_sum(
                    old(self).parts@,
                );
                &&& done <= old(self).ledger.amount_msat ==> p.amount_msat + done
                    == old(self).ledger.amount_msat
                &&& old(self).budget matches FeeBudget::Ppm(ppm) ==> b == FeeBudget::Ppm(ppm)
                &&& old(self).budget matches FeeBudget::Msat(pot) ==> (b matches FeeBudget::Msat(
                    left,
                ) && (spent <= pot ==> left + spent == pot))
            },
    {
        let ask = match self.ledger.begin(floor_msat) {
            Ok(ask) => ask,
            Err(s) => return Err(s),
        };
        let b = match ask.maxfee_msat {
            Some(left) => FeeBudget::Msat(left),
            None => self.budget,
        };
        Ok((self.drawn.round_params(params, &ask), b))
    }

    /// Finish a round: count its parts, keep its response, and say why
    /// the rounds end with it, if they do.  `learned` is whether its
    /// failures taught anything.  None where the request's totals no
    /// longer fit.
    pub fn finish(
        &mut self,
        params: &XRebalanceParams,
        plan: &PlanResult,
        parts: Vec<Part>,
        learned: bool,
    ) -> (r: Option<Option<StopReason>>)
        requires
            old(self).wf(),
        ensures
            final(self).wf(),
            match r {
                Some(end) => {
                    let t = totals_of(parts@);
                    &&& totals_fit(old(self).parts@ + parts@)
                    &&& final(self).parts@ == old(self).parts@ + parts@
                    &&& final(self).ledger == old(self).ledger.plus(t)
                    &&& final(self).budget == old(self).budget
                    &&& final(self).responses@.len() == old(self).responses@.len() + 1
                    &&& final(self).responses@.drop_last() == old(self).responses@
                    &&& final(self).responses@.last()@ == JsonView::Object(
                        render::round_fields(*params, *plan, parts@, t),
                    )
                    &&& reason(end) == old(self).ledger.round_end(
                        t,
                        plan.routes@.len() == 0,
                        plan::text_of(plan.detail),
                        learned,
                    )
                },
                None => !totals_fit(old(self).parts@ + parts@) && *final(self) == *old(self),
            },
            r matches Some(end) ==> (end is None <==> plan.routes@.len() > 0
                && old(self).ledger.round < old(self).ledger.rounds_max && (exec::delivered_sum(
                parts@,
            ) > 0 || exec::pending_sum(parts@) > 0 || learned)),
    {
        let ghost before = self.parts@;
        let ghost round = parts@;
        proof {
            lemma_totals_joined(before, round);
            lemma_totals_joined(Seq::<Part>::empty(), before);
            assert(Seq::<Part>::empty() + before =~= before);
            lemma_drawn_joined(
                Map::<Seq<char>, u64>::empty(),
                before,
                round,
                round.len() as int,
            );
        }
        let (totals, response) = match render::render(params, plan, &parts) {
            Some(r) => r,
            None => return None,
        };
        if !self.ledger.can_add(&totals) {
            return None;
        }
        let detail: Option<&str> = match &plan.detail {
            Some(d) => Some(d.as_str()),
            None => None,
        };
        let end = self.ledger.finish(&totals, plan.routes.len() == 0, detail, learned);
        self.drawn.commit(&parts);
        let mut parts = parts;
        self.parts.append(&mut parts);
        let ghost kept = self.responses@;
        self.responses.push(response);
        proof {
            assert(self.responses@.drop_last() =~= kept);
            assert(totals == totals_of(round));
        }
        Some(end)
    }

    /// The response once the rounds have ended.  A request of one round
    /// is answered with that round's own response; None where that
    /// round never finished.
    pub fn respond(self, params: &XRebalanceParams, stop: &StopReason) -> (r: Option<Json>)
        ensures
            match r {
                Some(v) => if self.ledger.rounds_max == 1 {
                    self.responses@.len() > 0 && v == self.responses@.last()
                } else {
                    exists|s: exec::Summary|
                        #[trigger] s.sums_up(self.parts@, self.ledger.delivered_msat) && v@
                            == JsonView::Object(
                            render::request_fields(
                                *params,
                                self.ledger,
                                s,
                                self.parts@,
                                self.responses@,
                                stop@.message(),
                            ),
                        )
                },
                None => self.ledger.rounds_max == 1 && self.responses@.len() == 0,
            },
    {
        let mut responses = self.responses;
        if self.ledger.rounds_max == 1 {
            return responses.pop();
        }
        Some(
            render::request_response(
                params,
                &self.ledger,
                &self.parts,
                responses,
                stop.message().as_str(),
            ),
        )
    }
}

// ---------------------------------------------------------------------
// Laws
// ---------------------------------------------------------------------

/// The request never commits more than was asked for: as long as each
/// round plans for no more than it was told to, what all the parts of
/// the request delivered and have in flight is at most the amount.
pub proof fn law_requests_stay_within_the_amount(run: RequestRun, parts: Seq<Part>)
    requires
        run.wf(),
        totals_fit(run.parts@ + parts),
        run.ledger.committed() <= run.ledger.amount_msat,
        exec::planned_sum(parts) <= run.ledger.ask().amount_msat,
    ensures
        exec::delivered_sum(run.parts@ + parts) + exec::pending_sum(run.parts@ + parts)
            <= run.ledger.amount_msat,
{
    lemma_totals_joined(run.parts@, parts);
    exec::law_parts_commit_at_most_the_plan(parts);
}

/// The request never spends more than its pot: as long as each round
/// plans within what is left of it, what all the parts of the request
/// cost and have reserved is at most the absolute budget.
pub proof fn law_requests_stay_within_the_pot(run: RequestRun, parts: Seq<Part>, pot: u64)
    requires
        run.wf(),
        run.budget == FeeBudget::Msat(pot),
        totals_fit(run.parts@ + parts),
        run.ledger.committed_fee() <= pot,
        forall|j: int|
            0 <= j < parts.len() ==> (#[trigger] parts[j]).planned_sent_msat
                >= parts[j].planned_msat,
        exec::sent_sum(parts) - exec::planned_sum(parts) <= run.ledger.ask().maxfee_msat->0,
    ensures
        exec::fee_sum(run.parts@ + parts) + exec::pending_fee_sum(run.parts@ + parts) <= pot,
{
    lemma_totals_joined(run.parts@, parts);
    exec::law_parts_cost_at_most_the_plan(parts);
}

/// Whether a part was planned within a rate.
pub open spec fn honors_rate(p: Part, ppm: u64) -> bool {
    plan::fee_between(p.planned_sent_msat, p.planned_msat) * 1_000_000 <= ppm * p.planned_msat
}

proof fn lemma_rate_upto(parts: Seq<Part>, ppm: u64, n: int)
    requires
        0 <= n <= parts.len(),
        forall|j: int| 0 <= j < parts.len() ==> honors_rate(#[trigger] parts[j], ppm),
    ensures
        exec::sum_of(parts, |p: Part| p.fee(), n) * 1_000_000 <= ppm * exec::sum_of(
            parts,
            |p: Part| p.delivered(),
            n,
        ),
    decreases n,
{
    if n > 0 {
        lemma_rate_upto(parts, ppm, n - 1);
        let d = exec::sum_of(parts, |p: Part| p.delivered(), n - 1);
        let p = parts[n - 1];
        assert(honors_rate(p, ppm));
        assert(ppm * (d + p.delivered()) == ppm * d + ppm * p.delivered()) by (nonlinear_arith);
        assert(ppm * 0 == 0) by (nonlinear_arith);
    } else {
        assert(ppm * 0 == 0) by (nonlinear_arith);
    }
}

/// Strict fees: where every part was planned within a rate, the request
/// pays within that rate for what it delivered, whichever of the parts
/// settled and whichever failed.
pub proof fn law_requests_pay_within_the_rate(parts: Seq<Part>, ppm: u64)
    requires
        forall|j: int| 0 <= j < parts.len() ==> honors_rate(#[trigger] parts[j], ppm),
    ensures
        exec::fee_sum(parts) * 1_000_000 <= ppm * exec::delivered_sum(parts),
{
    lemma_rate_upto(parts, ppm, parts.len() as int);
}

/// Every part of a round is planned within the caller's rate, at
/// whatever rung of the ladder the round was settled.
pub proof fn law_parts_are_planned_within_the_rate(
    parts: Seq<Part>,
    out: Seq<Json>,
    routes: Seq<Json>,
    unsplit: Map<Seq<char>, Seq<char>>,
    self_id: Seq<char>,
    onion_scids: Map<Seq<char>, Seq<char>>,
    ladder: Ladder,
    ppm: u64,
    j: int,
)
    requires
        ladder.wf(),
        ladder.budget == FeeBudget::Ppm(ppm),
        plan::translations(
            out,
            routes,
            plan::tally(
                routes,
                unsplit,
                ladder.rung_msat,
                ladder.maxfee_msat,
                routes.len() as int,
            ).kept,
            unsplit,
            self_id,
        ),
        0 <= j < parts.len() == out.len(),
        parts[j].sends(out[j], onion_scids, j, parts[j].payment_hash@),
    ensures
        honors_rate(parts[j], ppm),
{
    let n = routes.len() as int;
    let t = plan::tally(routes, unsplit, ladder.rung_msat, ladder.maxfee_msat, n);
    plan::lemma_kept(routes, unsplit, ladder.rung_msat, ladder.maxfee_msat, n, j);
    let old = routes[t.kept[j]];
    let mirror = plan::path_of(old)->0.last().at("short_channel_id_dir"@).text()->0;
    exec::lemma_translation_keeps_amounts(out[j], old, unsplit[mirror], self_id);
    let p = parts[j];
    plan::law_rate_holds_at_every_rung(
        ppm,
        ladder.rung_msat,
        plan::fee_between(p.planned_sent_msat, p.planned_msat),
        p.planned_msat,
        ladder.maxfee_msat,
    );
}

proof fn lemma_moved_prefix(a: Seq<Part>, b: Seq<Part>, scid: Seq<char>, n: int)
    requires
        n <= a.len(),
    ensures
        rounds::drawn_from(a + b, scid, n) == rounds::drawn_from(a, scid, n),
        rounds::delivered_into(a + b, scid, n) == rounds::delivered_into(a, scid, n),
    decreases n,
{
    if n > 0 {
        lemma_moved_prefix(a, b, scid, n - 1);
        assert((a + b)[n - 1] == a[n - 1]);
    }
}

proof fn lemma_moved_joined(a: Seq<Part>, b: Seq<Part>, scid: Seq<char>, n: int)
    requires
        0 <= n <= b.len(),
    ensures
        rounds::drawn_from(a + b, scid, a.len() + n) == rounds::drawn_from(
            a,
            scid,
            a.len() as int,
        ) + rounds::drawn_from(b, scid, n),
        rounds::delivered_into(a + b, scid, a.len() + n) == rounds::delivered_into(
            a,
            scid,
            a.len() as int,
        ) + rounds::delivered_into(b, scid, n),
    decreases n,
{
    if n > 0 {
        lemma_moved_joined(a, b, scid, n - 1);
        assert((a + b)[a.len() + n - 1] == b[n - 1]);
    } else {
        lemma_moved_prefix(a, b, scid, a.len() as int);
    }
}

/// A cap bounds the whole request: as long as each round moves no more
/// through a channel than the drawn-down cap it was given, all the parts
/// of the request together move no more through it than the caller's cap.
pub proof fn law_caps_bound_the_request(
    run: RequestRun,
    parts: Seq<Part>,
    spec: chan_spec::ChanSpecView,
    cap: u64,
)
    requires
        run.wf(),
        spec.max_msat == Some(cap),
    ensures
        ({
            let (a, b) = (run.parts@, parts);
            let (n, m) = (a.len() as int, b.len() as int);
            let left = rounds::drawn_down(spec, run.drawn.sources@).max_msat->0;
            rounds::drawn_from(a, spec.scid, n) <= cap && rounds::drawn_from(b, spec.scid, m) <= left
                ==> rounds::drawn_from(a + b, spec.scid, n + m) <= cap
        }),
        ({
            let (a, b) = (run.parts@, parts);
            let (n, m) = (a.len() as int, b.len() as int);
            let left = rounds::drawn_down(spec, run.drawn.destinations@).max_msat->0;
            rounds::delivered_into(a, spec.scid, n) <= cap && rounds::delivered_into(
                b,
                spec.scid,
                m,
            ) <= left ==> rounds::delivered_into(a + b, spec.scid, n + m) <= cap
        }),
{
    let none = Map::<Seq<char>, u64>::empty();
    rounds::lemma_drawn_adds_up(none, run.parts@, spec.scid, run.parts@.len() as int);
    lemma_moved_joined(run.parts@, parts, spec.scid, parts.len() as int);
}

/// An absolute budget is one pot across the rounds, and a rate is none; a
/// round pays out of what is left of the pot, or by the rate.
pub proof fn law_round_budgets_keep_their_form(msat: u64, ppm: u64, amount_msat: u64, left: u64)
    ensures
        pot_of(FeeBudget::Msat(msat)) == Some(msat),
        pot_of(FeeBudget::Ppm(ppm)) is None,
        round_budget(FeeBudget::Msat(msat), RoundAsk { amount_msat, maxfee_msat: Some(left) })
            == FeeBudget::Msat(left),
        round_budget(FeeBudget::Ppm(ppm), RoundAsk { amount_msat, maxfee_msat: None })
            == FeeBudget::Ppm(ppm),
{
}

/// Over the rounds of a request, what a round may spend, what settled
/// parts cost and what parts in flight have reserved make up the pot: no
/// msat of it is given out twice, and none is withheld.
pub proof fn law_the_pot_is_shared_out(run: RequestRun, pot: u64)
    requires
        run.wf(),
        run.budget == FeeBudget::Msat(pot),
        exec::fee_sum(run.parts@) + exec::pending_fee_sum(run.parts@) <= pot,
    ensures
        round_budget(run.budget, run.ledger.ask()) == FeeBudget::Msat(
            (pot - exec::fee_sum(run.parts@) - exec::pending_fee_sum(run.parts@)) as u64,
        ),
{
}

/// Over the rounds of a request, what a round asks for, what was delivered
/// and what is in flight make up the amount.
pub proof fn law_the_amount_is_shared_out(run: RequestRun)
    requires
        run.wf(),
        exec::delivered_sum(run.parts@) + exec::pending_sum(run.parts@) <= run.ledger.amount_msat,
    ensures
        run.ledger.ask().amount_msat + exec::delivered_sum(run.parts@) + exec::pending_sum(
            run.parts@,
        ) == run.ledger.amount_msat,
{
}

/// A round's totals are those of its parts, each under its own name, and
/// fit exactly where each of them does.
pub proof fn law_totals_are_those_of_the_parts(parts: Seq<Part>)
    ensures
        totals_fit(parts) <==> {
            &&& exec::delivered_sum(parts) < 0x1_0000_0000_0000_0000
            &&& exec::fee_sum(parts) < 0x1_0000_0000_0000_0000
            &&& exec::pending_sum(parts) < 0x1_0000_0000_0000_0000
            &&& exec::pending_fee_sum(parts) < 0x1_0000_0000_0000_0000
        },
        totals_fit(parts) ==> {
            let t = totals_of(parts);
            &&& t.delivered_msat == exec::delivered_sum(parts)
            &&& t.fee_msat == exec::fee_sum(parts)
            &&& t.pending_msat == exec::pending_sum(parts)
            &&& t.pending_fee_msat == exec::pending_fee_sum(parts)
        },
{
    lemma_totals_joined(Seq::<Part>::empty(), parts);
}

} // verus!
