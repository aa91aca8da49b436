//! The tenacious loop: replan the still-unmoved remainder each round,
//! against everything the earlier rounds' failures taught.

use crate::chan_spec;
use crate::chan_spec::ChanSpec;
use crate::exec;
use crate::exec::{Part, PartStatus, Totals};
use crate::request::XRebalanceParams;
use crate::table::Table;
use crate::text;
use crate::text::{eng, push_dec, split_once};
use vstd::prelude::*;
use vstd::string::*;

verus! {

// ---------------------------------------------------------------------
// Why the rounds end
// ---------------------------------------------------------------------

/// Why the rounds ended.
#[derive(Debug, PartialEq, Eq)]
pub enum StopReason {
    /// Everything was delivered or is in flight.
    FullyCommitted,
    /// What is left is below the fragment floor.
    BelowFloor(u64),
    /// A later round could not be planned.
    PlanningFailed { round: u64, error: String },
    /// A later round could not be executed.
    ExecutionFailed { round: u64, error: String },
    /// The planner found no route.
    NoRoutes(Option<String>),
    /// The request's rounds are used up.
    RoundLimit,
    /// Nothing moved and nothing was learned: the next solve would be
    /// identical.
    Stalled,
}

/// A stop reason with its texts as characters.
pub enum StopReasonView {
    FullyCommitted,
    BelowFloor(u64),
    PlanningFailed { round: u64, error: Seq<char> },
    ExecutionFailed { round: u64, error: Seq<char> },
    NoRoutes(Option<Seq<char>>),
    RoundLimit,
    Stalled,
}

impl View for StopReason {
    type V = StopReasonView;

    open spec fn view(&self) -> StopReasonView {
        match *self {
            StopReason::FullyCommitted => StopReasonView::FullyCommitted,
            StopReason::BelowFloor(n) => StopReasonView::BelowFloor(n),
            StopReason::PlanningFailed { round, error } => StopReasonView::PlanningFailed {
                round,
                error: error@,
            },
            StopReason::ExecutionFailed { round, error } => StopReasonView::ExecutionFailed {
                round,
                error: error@,
            },
            StopReason::NoRoutes(Some(d)) => StopReasonView::NoRoutes(Some(d@)),
            StopReason::NoRoutes(None) => StopReasonView::NoRoutes(None),
            StopReason::RoundLimit => StopReasonView::RoundLimit,
            StopReason::Stalled => StopReasonView::Stalled,
        }
    }
}

impl StopReasonView {
    /// The reason in words.
    pub open spec fn message(self) -> Seq<char> {
        match self {
            StopReasonView::FullyCommitted => "amount fully committed"@,
            StopReasonView::BelowFloor(n) => "remaining "@ + text::grouped(text::dec(n as nat))
                + "msat below the fragment floor"@,
            StopReasonView::PlanningFailed { round, error } => "round "@ + text::dec(round as nat)
                + " planning failed: "@ + error,
            StopReasonView::ExecutionFailed { round, error } => "round "@ + text::dec(round as nat)
                + " execution failed: "@ + error,
            StopReasonView::NoRoutes(detail) => "no further routes: "@ + match detail {
                Some(d) => d,
                None => "planner returned none"@,
            },
            StopReasonView::RoundLimit => "round limit"@,
            StopReasonView::Stalled => "stalled: a round moved nothing and learned nothing"@,
        }
    }
}

impl StopReason {
    /// The reason in words.
    pub fn message(&self) -> (r: String)
        ensures
            r@ == self@.message(),
    {
        match self {
            StopReason::FullyCommitted => "amount fully committed".to_owned(),
            StopReason::BelowFloor(n) => {
                let mut out = "remaining ".to_owned();
                out.append(eng(*n).as_str());
                out.append("msat below the fragment floor");
                out
            },
            StopReason::PlanningFailed { round, error } => {
                let mut out = "round ".to_owned();
                push_dec(&mut out, *round);
                out.append(" planning failed: ");
                out.append(error.as_str());
                out
            },
            StopReason::ExecutionFailed { round, error } => {
                let mut out = "round ".to_owned();
                push_dec(&mut out, *round);
                out.append(" execution failed: ");
                out.append(error.as_str());
                out
            },
            StopReason::NoRoutes(detail) => {
                let mut out = "no further routes: ".to_owned();
                match detail {
                    Some(d) => out.append(d.as_str()),
                    None => out.append("planner returned none"),
                }
                out
            },
            StopReason::RoundLimit => "round limit".to_owned(),
            StopReason::Stalled => "stalled: a round moved nothing and learned nothing".to_owned(),
        }
    }
}

// ---------------------------------------------------------------------
// The ledger
// ---------------------------------------------------------------------

/// What the rounds of one request came to so far.
#[derive(Debug, Clone, Copy, PartialEq, Eq, Structural)]
pub struct Ledger {
    /// The amount asked for.
    pub amount_msat: u64,
    /// An absolute fee budget: one pot across the rounds.
    pub pot_msat: Option<u64>,
    /// How many rounds the request may run.
    pub rounds_max: u64,
    /// The number of the current round; 0 before the first.
    pub round: u64,
    pub delivered_msat: u64,
    pub fee_msat: u64,
    pub pending_msat: u64,
    pub pending_fee_msat: u64,
}

/// What a round asks for.
#[derive(Debug, Clone, Copy, PartialEq, Eq, Structural)]
pub struct RoundAsk {
    pub amount_msat: u64,
    /// What is left of an absolute budget.
    pub maxfee_msat: Option<u64>,
}

/// What is left of `whole` once `used` is taken off it.
pub open spec fn left_of(whole: u64, used: int) -> u64 {
    if used <= whole {
        (whole - used) as u64
    } else {
        0
    }
}

impl Ledger {
    /// What was delivered or is in flight.  Amounts still in flight
    /// count as committed: if a straggler later fails, this request
    /// under-delivers rather than double-spending its liquidity on a
    /// retry.
    pub open spec fn committed(&self) -> int {
        self.delivered_msat + self.pending_msat
    }

    /// What settled parts cost and parts in flight have reserved.
    pub open spec fn committed_fee(&self) -> int {
        self.fee_msat + self.pending_fee_msat
    }

    /// What is still to move.
    pub open spec fn remaining(&self) -> u64 {
        left_of(self.amount_msat, self.committed())
    }

    /// What the next round asks for.  An absolute budget is one pot
    /// across the rounds: settled and reserved (pending-part) fees come
    /// off it.
    pub open spec fn ask(&self) -> RoundAsk {
        RoundAsk {
            amount_msat: self.remaining(),
            maxfee_msat: match self.pot_msat {
                Some(pot) => Some(left_of(pot, self.committed_fee())),
                None => None,
            },
        }
    }

    /// Why no further round begins, if none does.
    pub open spec fn no_round(&self, floor_msat: u64) -> Option<StopReasonView> {
        if self.round >= self.rounds_max {
            Some(StopReasonView::RoundLimit)
        } else if self.round >= 1 && self.remaining() == 0 {
            Some(StopReasonView::FullyCommitted)
        } else if self.round >= 1 && self.remaining() < floor_msat {
            Some(StopReasonView::BelowFloor(self.remaining()))
        } else {
            None
        }
    }

    /// The ledger once a round's totals are added.
    pub open spec fn plus(&self, t: Totals) -> Ledger {
        Ledger {
            delivered_msat: (self.delivered_msat + t.delivered_msat) as u64,
            fee_msat: (self.fee_msat + t.fee_msat) as u64,
            pending_msat: (self.pending_msat + t.pending_msat) as u64,
            pending_fee_msat: (self.pending_fee_msat + t.pending_fee_msat) as u64,
            ..*self
        }
    }

    /// Whether a round's totals can be added.
    pub open spec fn has_room(&self, t: Totals) -> bool {
        &&& self.delivered_msat + t.delivered_msat <= u64::MAX
        &&& self.fee_msat + t.fee_msat <= u64::MAX
        &&& self.pending_msat + t.pending_msat <= u64::MAX
        &&& self.pending_fee_msat + t.pending_fee_msat <= u64::MAX
    }

    /// A request's ledger before its first round.
    pub fn new(amount_msat: u64, pot_msat: Option<u64>, rounds_max: u64) -> (r: Self)
        ensures
            r == (Ledger {
                amount_msat,
                pot_msat,
                rounds_max,
                round: 0,
                delivered_msat: 0,
                fee_msat: 0,
                pending_msat: 0,
                pending_fee_msat: 0,
            }),
    {
        Ledger {
            amount_msat,
            pot_msat,
            rounds_max,
            round: 0,
            delivered_msat: 0,
            fee_msat: 0,
            pending_msat: 0,
            pending_fee_msat: 0,
        }
    }

    /// What is still to move.
    pub fn remaining_msat(&self) -> (r: u64)
        ensures
            r == self.remaining(),
            self.delivered_msat + self.pending_msat <= self.amount_msat ==> r + self.delivered_msat
                + self.pending_msat == self.amount_msat,
            self.delivered_msat + self.pending_msat >= self.amount_msat ==> r == 0,
    {
        self.amount_msat.saturating_sub(self.delivered_msat.saturating_add(self.pending_msat))
    }

    /// Begin a round: what it asks for, or why there is none.
    /// `floor_msat` is the fragment floor.
    pub fn begin(&mut self, floor_msat: u64) -> (r: Result<RoundAsk, StopReason>)
        ensures
            match r {
                Ok(ask) => old(self).no_round(floor_msat) is None && ask == old(self).ask()
                    && *final(self) == (Ledger { round: (old(self).round + 1) as u64, ..*old(self) })
                    && final(self).round <= final(self).rounds_max,
                Err(s) => old(self).no_round(floor_msat) == Some(s@) && *final(self) == *old(self),
            },
            ({
                let done = old(self).delivered_msat + old(self).pending_msat;
                let spent = old(self).fee_msat + old(self).pending_fee_msat;
                &&& r is Ok <==> old(self).round < old(self).rounds_max && (old(self).round == 0 || (
                done < old(self).amount_msat && old(self).amount_msat - done >= floor_msat))
                &&& r matches Ok(ask) ==> {
                    &&& done <= old(self).amount_msat ==> ask.amount_msat + done
                        == old(self).amount_msat
                    &&& old(self).pot_msat matches Some(pot) ==> (ask.maxfee_msat matches Some(left)
                        && (spent <= pot ==> left + spent == pot))
                    &&& old(self).pot_msat is None ==> ask.maxfee_msat is None
                }
            }),
    {
        if self.round >= self.rounds_max {
            return Err(StopReason::RoundLimit);
        }
        let remaining: u64 = self.remaining_msat();
        if self.round >= 1 {
            if remaining == 0 {
                return Err(StopReason::FullyCommitted);
            }
            if remaining < floor_msat {
                return Err(StopReason::BelowFloor(remaining));
            }
        }
        self.round = self.round + 1;
        let maxfee_msat: Option<u64> = match self.pot_msat {
            Some(pot) => Some(
                pot.saturating_sub(self.fee_msat.saturating_add(self.pending_fee_msat)),
            ),
            None => None,
        };
        Ok(RoundAsk { amount_msat: remaining, maxfee_msat })
    }

    /// What a round that could not be planned means: the first round's
    /// failure is the request's, but a later one must not turn work
    /// already done into an error.
    pub fn planning_failed(&self, error: &str) -> (r: Option<StopReason>)
        ensures
            match r {
                Some(s) => self.round > 1 && s@ == (StopReasonView::PlanningFailed {
                    round: self.round,
                    error: error@,
                }),
                None => self.round <= 1,
            },
            r is Some <==> self.round >= 2,
    {
        if self.round > 1 {
            Some(StopReason::PlanningFailed { round: self.round, error: error.to_owned() })
        } else {
            None
        }
    }

    /// What a round that could not be executed means.
    pub fn execution_failed(&self, error: &str) -> (r: Option<StopReason>)
        ensures
            match r {
                Some(s) => self.round > 1 && s@ == (StopReasonView::ExecutionFailed {
                    round: self.round,
                    error: error@,
                }),
                None => self.round <= 1,
            },
            r is Some <==> self.round >= 2,
    {
        if self.round > 1 {
            Some(StopReason::ExecutionFailed { round: self.round, error: error.to_owned() })
        } else {
            None
        }
    }

    /// Whether a round's totals can be added.
    pub fn can_add(&self, t: &Totals) -> (r: bool)
        ensures
            r == self.has_room(*t),
    {
        self.delivered_msat <= u64::MAX - t.delivered_msat && self.fee_msat <= u64::MAX - t.fee_msat
            && self.pending_msat <= u64::MAX - t.pending_msat && self.pending_fee_msat <= u64::MAX
            - t.pending_fee_msat
    }

    /// Why the rounds end after this one, if they do.
    pub open spec fn round_end(
        &self,
        t: Totals,
        no_routes: bool,
        detail: Option<Seq<char>>,
        learned: bool,
    ) -> Option<StopReasonView> {
        if no_routes {
            Some(StopReasonView::NoRoutes(detail))
        } else if self.round >= self.rounds_max {
            Some(StopReasonView::RoundLimit)
        } else if t.delivered_msat == 0 && t.pending_msat == 0 && !learned {
            Some(StopReasonView::Stalled)
        } else {
            None
        }
    }

    /// Finish a round: add its totals, and say why the rounds end with
    /// it, if they do.  `learned` is whether its failures taught
    /// anything.
    pub fn finish(
        &mut self,
        t: &Totals,
        no_routes: bool,
        detail: Option<&str>,
        learned: bool,
    ) -> (r: Option<StopReason>)
        requires
            old(self).has_room(*t),
        ensures
            *final(self) == old(self).plus(*t),
            final(self).delivered_msat == old(self).delivered_msat + t.delivered_msat,
            final(self).fee_msat == old(self).fee_msat + t.fee_msat,
            final(self).pending_msat == old(self).pending_msat + t.pending_msat,
            final(self).pending_fee_msat == old(self).pending_fee_msat + t.pending_fee_msat,
            ({
                let end = old(self).round_end(
                    *t,
                    no_routes,
                    match detail {
                        Some(d) => Some(d@),
                        None => None,
                    },
                    learned,
                );
                match r {
                    Some(s) => end == Some(s@),
                    None => end is None,
                }
            }),
            r is None <==> !no_routes && old(self).round < old(self).rounds_max && (t.delivered_msat
                > 0 || t.pending_msat > 0 || learned),
            r is Some && r->0@ is Stalled <==> !no_routes && old(self).round < old(self).rounds_max
                && t.delivered_msat == 0 && t.pending_msat == 0 && !learned,
    {
        self.delivered_msat = self.delivered_msat + t.delivered_msat;
        self.fee_msat = self.fee_msat + t.fee_msat;
        self.pending_msat = self.pending_msat + t.pending_msat;
        self.pending_fee_msat = self.pending_fee_msat + t.pending_fee_msat;
        if no_routes {
            return Some(
                StopReason::NoRoutes(
                    match detail {
                        Some(d) => Some(d.to_owned()),
                        None => None,
                    },
                ),
            );
        }
        if self.round >= self.rounds_max {
            return Some(StopReason::RoundLimit);
        }
        if t.delivered_msat == 0 && t.pending_msat == 0 && !learned {
            return Some(StopReason::Stalled);
        }
        None
    }
}

/// The rounds never commit more than was asked for, as long as none
/// commits more than it asked for; what is left and what is committed
/// make up the whole.
pub proof fn law_rounds_stay_within_the_amount(l: Ledger, t: Totals)
    requires
        l.has_room(t),
        l.committed() <= l.amount_msat,
        t.delivered_msat + t.pending_msat <= l.ask().amount_msat,
    ensures
        l.committed() + l.remaining() == l.amount_msat,
        l.plus(t).committed() <= l.amount_msat,
        l.plus(t).remaining() == l.remaining() - (t.delivered_msat + t.pending_msat),
{
}

/// An absolute budget is never exceeded over the rounds, as long as no
/// round exceeds what it was given.
pub proof fn law_the_pot_is_never_exceeded(l: Ledger, t: Totals, pot: u64)
    requires
        l.has_room(t),
        l.pot_msat == Some(pot),
        l.committed_fee() <= pot,
        t.fee_msat + t.pending_fee_msat <= l.ask().maxfee_msat->0,
    ensures
        l.plus(t).committed_fee() <= pot,
        l.committed_fee() + l.ask().maxfee_msat->0 == pot,
{
}

/// A straggler's amount and fee stay committed: nothing that is in
/// flight is asked for or spent again.
pub proof fn law_pending_counts_as_committed(l: Ledger, t: Totals)
    requires
        l.has_room(t),
    ensures
        l.plus(t).committed() == l.committed() + t.delivered_msat + t.pending_msat,
        l.plus(t).committed_fee() == l.committed_fee() + t.fee_msat + t.pending_fee_msat,
        l.plus(t).remaining() <= l.remaining(),
{
}

/// No request runs more rounds than it may, and a round that moves
/// nothing and learns nothing is the last.
pub proof fn law_rounds_are_bounded(
    l: Ledger,
    floor_msat: u64,
    t: Totals,
    no_routes: bool,
    detail: Option<Seq<char>>,
    learned: bool,
)
    ensures
        l.no_round(floor_msat) is None ==> l.round + 1 <= l.rounds_max,
        l.round >= l.rounds_max ==> l.round_end(t, no_routes, detail, learned) is Some,
        t.delivered_msat == 0 && t.pending_msat == 0 && !learned ==> l.round_end(
            t,
            no_routes,
            detail,
            learned,
        ) is Some,
{
}

// ---------------------------------------------------------------------
// Caps across rounds
// ---------------------------------------------------------------------

/// What was drawn from, or delivered into, a channel.
pub open spec fn drawn_at(drawn: Map<Seq<char>, u64>, scid: Seq<char>) -> u64 {
    if drawn.contains_key(scid) {
        drawn[scid]
    } else {
        0
    }
}

/// A total with one more amount, at most the largest.
pub open spec fn raised(n: u64, by: u64) -> u64 {
    if n + by <= u64::MAX {
        (n + by) as u64
    } else {
        u64::MAX
    }
}

/// Whether a part was delivered or is in flight.
pub open spec fn is_committed(p: Part) -> bool {
    p.status != PartStatus::Failed
}

/// What crossed the sources once the first `n` parts are counted.
pub open spec fn sources_drawn(
    drawn: Map<Seq<char>, u64>,
    parts: Seq<Part>,
    n: int,
) -> Map<Seq<char>, u64>
    decreases n,
{
    if n <= 0 {
        drawn
    } else {
        let before = sources_drawn(drawn, parts, n - 1);
        let p = parts[n - 1];
        let scid = exec::scid_part(p.first_hop@);
        if is_committed(p) {
            before.insert(scid, raised(drawn_at(before, scid), p.planned_sent_msat))
        } else {
            before
        }
    }
}

/// What reached the destinations once the first `n` parts are counted.
pub open spec fn destinations_drawn(
    drawn: Map<Seq<char>, u64>,
    parts: Seq<Part>,
    n: int,
) -> Map<Seq<char>, u64>
    decreases n,
{
    if n <= 0 {
        drawn
    } else {
        let before = destinations_drawn(drawn, parts, n - 1);
        let p = parts[n - 1];
        let scid = exec::scid_part(p.return_hop@);
        if is_committed(p) {
            before.insert(scid, raised(drawn_at(before, scid), p.planned_msat))
        } else {
            before
        }
    }
}

/// A spec with its cap drawn down.
pub open spec fn drawn_down(
    spec: chan_spec::ChanSpecView,
    drawn: Map<Seq<char>, u64>,
) -> chan_spec::ChanSpecView {
    chan_spec::ChanSpecView {
        scid: spec.scid,
        max_msat: match spec.max_msat {
            Some(cap) => Some(left_of(cap, drawn_at(drawn, spec.scid) as int)),
            None => None,
        },
    }
}

/// The specs with their caps drawn down.
pub open spec fn all_drawn_down(
    specs: Seq<ChanSpec>,
    drawn: Map<Seq<char>, u64>,
) -> Seq<chan_spec::ChanSpecView> {
    Seq::new(specs.len(), |i: int| drawn_down(specs[i]@, drawn))
}

/// The specs as characters.
pub open spec fn spec_views(specs: Seq<ChanSpec>) -> Seq<chan_spec::ChanSpecView> {
    specs.map_values(|s: ChanSpec| s@)
}

impl XRebalanceParams {
    /// The request `params` as one round plans it: the remainder, what
    /// is left of an absolute budget, and the caps drawn down by what
    /// earlier rounds committed.
    pub open spec fn is_round_of(
        &self,
        params: XRebalanceParams,
        ask: RoundAsk,
        sources: Map<Seq<char>, u64>,
        destinations: Map<Seq<char>, u64>,
    ) -> bool {
        &&& self.amount_msat == ask.amount_msat
        &&& self.maxfee_msat == match (params.maxfee_msat, ask.maxfee_msat) {
            (Some(_), Some(left)) => Some(left),
            (whole, _) => whole,
        }
        &&& self.maxfee_ppm == params.maxfee_ppm
        &&& spec_views(self.sources@) == all_drawn_down(params.sources@, sources)
        &&& spec_views(self.destinations@) == all_drawn_down(params.destinations@, destinations)
        &&& self.label == params.label
        &&& self.dryrun == params.dryrun
        &&& self.maxparts == params.maxparts
        &&& self.maxrounds == params.maxrounds
        &&& self.part_wait == params.part_wait
        &&& self.verbose == params.verbose
    }
}

/// What the rounds of one request committed through each channel.
pub struct Drawn {
    /// What crossed each source, fees included.
    pub sources: Table<u64>,
    /// What reached each destination.
    pub destinations: Table<u64>,
}

fn scid_text(scidd: &str) -> (r: String)
    ensures
        r@ == exec::scid_part(scidd@),
{
    match split_once(scidd, '/') {
        Some((scid, _)) => scid,
        None => {
            let out = String::new();
            proof {
                assert(out@ =~= seq![]);
            }
            out
        },
    }
}

fn raise(drawn: &mut Table<u64>, scid: &str, by: u64)
    requires
        old(drawn).wf(),
    ensures
        final(drawn).wf(),
        final(drawn)@ == old(drawn)@.insert(scid@, raised(drawn_at(old(drawn)@, scid@), by)),
{
    let n: u64 = match drawn.get(scid) {
        Some(n) => *n,
        None => 0,
    };
    drawn.insert(scid, n.saturating_add(by));
}

fn draw_down(specs: &[ChanSpec], drawn: &Table<u64>) -> (r: Vec<ChanSpec>)
    requires
        drawn.wf(),
    ensures
        spec_views(r@) == all_drawn_down(specs@, drawn@),
{
    let mut out: Vec<ChanSpec> = Vec::new();
    for i in 0..specs.len()
        invariant
            drawn.wf(),
            out@.len() == i,
            forall|j: int| 0 <= j < i ==> (#[trigger] out@[j])@ == drawn_down(specs@[j]@, drawn@),
    {
        let spec = &specs[i];
        let used: u64 = match drawn.get(spec.scid.as_str()) {
            Some(n) => *n,
            None => 0,
        };
        let max_msat: Option<u64> = match spec.max_msat {
            Some(cap) => Some(cap.saturating_sub(used)),
            None => None,
        };
        out.push(ChanSpec { scid: spec.scid.clone(), max_msat });
    }
    proof {
        assert(spec_views(out@) =~= all_drawn_down(specs@, drawn@));
    }
    out
}

impl Drawn {
    /// The tables are well-formed.
    pub open spec fn wf(&self) -> bool {
        self.sources.wf() && self.destinations.wf()
    }

    /// Nothing drawn yet.
    pub fn new() -> (r: Self)
        ensures
            r.wf(),
            r.sources@ == Map::<Seq<char>, u64>::empty(),
            r.destinations@ == Map::<Seq<char>, u64>::empty(),
    {
        Drawn { sources: Table::new(), destinations: Table::new() }
    }

    /// Count what a round's parts committed.
    pub fn commit(&mut self, parts: &[Part])
        requires
            old(self).wf(),
        ensures
            final(self).wf(),
            final(self).sources@ == sources_drawn(
                old(self).sources@,
                parts@,
                parts@.len() as int,
            ),
            final(self).destinations@ == destinations_drawn(
                old(self).destinations@,
                parts@,
                parts@.len() as int,
            ),
    {
        let ghost s0 = self.sources@;
        let ghost d0 = self.destinations@;
        for i in 0..parts.len()
            invariant
                self.wf(),
                self.sources@ == sources_drawn(s0, parts@, i as int),
                self.destinations@ == destinations_drawn(d0, parts@, i as int),
        {
            let p = &parts[i];
            let failed = match p.status {
                PartStatus::Failed => true,
                _ => false,
            };
            if !failed {
                let from = scid_text(p.first_hop.as_str());
                let to = scid_text(p.return_hop.as_str());
                raise(&mut self.sources, from.as_str(), p.planned_sent_msat);
                raise(&mut self.destinations, to.as_str(), p.planned_msat);
            }
        }
    }

    /// The request as one round plans it: the remainder, what is left
    /// of an absolute budget, and the caps drawn down by what earlier
    /// rounds committed.
    pub fn round_params(&self, params: &XRebalanceParams, ask: &RoundAsk) -> (r: XRebalanceParams)
        requires
            self.wf(),
        ensures
            r.is_round_of(*params, *ask, self.sources@, self.destinations@),
    {
        let maxfee_msat: Option<u64> = match params.maxfee_msat {
            Some(msat) => match ask.maxfee_msat {
                Some(left) => Some(left),
                None => Some(msat),
            },
            None => None,
        };
        XRebalanceParams {
            sources: draw_down(&params.sources, &self.sources),
            destinations: draw_down(&params.destinations, &self.destinations),
            amount_msat: ask.amount_msat,
            maxfee_ppm: params.maxfee_ppm,
            maxfee_msat,
            label: match &params.label {
                Some(l) => Some(l.clone()),
                None => None,
            },
            dryrun: params.dryrun,
            maxparts: params.maxparts,
            maxrounds: params.maxrounds,
            part_wait: params.part_wait,
            verbose: params.verbose,
        }
    }
}

/// What the committed ones of the first `n` parts draw from the source
/// `scid`.
pub open spec fn drawn_from(parts: Seq<Part>, scid: Seq<char>, n: int) -> int
    decreases n,
{
    if n <= 0 {
        0
    } else {
        let p = parts[n - 1];
        drawn_from(parts, scid, n - 1) + if is_committed(p) && exec::scid_part(p.first_hop@)
            == scid {
            p.planned_sent_msat as int
        } else {
            0
        }
    }
}

/// What the committed ones of the first `n` parts deliver into the
/// destination `scid`.
pub open spec fn delivered_into(parts: Seq<Part>, scid: Seq<char>, n: int) -> int
    decreases n,
{
    if n <= 0 {
        0
    } else {
        let p = parts[n - 1];
        delivered_into(parts, scid, n - 1) + if is_committed(p) && exec::scid_part(p.return_hop@)
            == scid {
            p.planned_msat as int
        } else {
            0
        }
    }
}

proof fn lemma_drawn_from_grows(parts: Seq<Part>, scid: Seq<char>, n: int, m: int)
    requires
        0 <= n <= m,
    ensures
        0 <= drawn_from(parts, scid, n) <= drawn_from(parts, scid, m),
        0 <= delivered_into(parts, scid, n) <= delivered_into(parts, scid, m),
    decreases m,
{
    if n < m {
        lemma_drawn_from_grows(parts, scid, n, m - 1);
    } else if n > 0 {
        lemma_drawn_from_grows(parts, scid, n - 1, n - 1);
    }
}

/// What was counted for a channel is what the parts moved through it,
/// where that fits.
pub proof fn lemma_drawn_adds_up(drawn: Map<Seq<char>, u64>, parts: Seq<Part>, scid: Seq<char>, n: int)
    requires
        0 <= n <= parts.len(),
    ensures
        drawn_at(drawn, scid) + drawn_from(parts, scid, n) <= u64::MAX ==> drawn_at(
            sources_drawn(drawn, parts, n),
            scid,
        ) == drawn_at(drawn, scid) + drawn_from(parts, scid, n),
        drawn_at(drawn, scid) + delivered_into(parts, scid, n) <= u64::MAX ==> drawn_at(
            destinations_drawn(drawn, parts, n),
            scid,
        ) == drawn_at(drawn, scid) + delivered_into(parts, scid, n),
    decreases n,
{
    if n > 0 {
        lemma_drawn_adds_up(drawn, parts, scid, n - 1);
        lemma_drawn_from_grows(parts, scid, n - 1, n);
    }
}

/// Drawing a cap down never raises it, and a channel that nothing moved
/// through keeps it.
pub proof fn law_caps_only_shrink(
    spec: chan_spec::ChanSpecView,
    drawn: Map<Seq<char>, u64>,
    avail_msat: u64,
)
    ensures
        drawn_down(spec, drawn).capped(avail_msat) <= spec.capped(avail_msat),
        drawn_at(drawn, spec.scid) == 0 ==> drawn_down(spec, drawn) == spec,
{
}

// ---------------------------------------------------------------------
// Laws of the rounds
// ---------------------------------------------------------------------

/// A round that had routes, was not the last allowed one, and delivered
/// something, left something in flight or learned something does not end
/// the request, and every other round does: for want of routes, for want
/// of rounds, or because the next solve would be identical.
pub proof fn law_the_rounds_go_on(
    l: Ledger,
    t: Totals,
    no_routes: bool,
    detail: Option<Seq<char>>,
    learned: bool,
)
    ensures
        ({
            let end = l.round_end(t, no_routes, detail, learned);
            let moved = t.delivered_msat > 0 || t.pending_msat > 0;
            &&& end is None <==> !no_routes && l.round < l.rounds_max && (moved || learned)
            &&& end == Some(StopReasonView::NoRoutes(detail)) <==> no_routes
            &&& end == Some(StopReasonView::RoundLimit) <==> !no_routes && l.round >= l.rounds_max
            &&& end == Some(StopReasonView::Stalled) <==> !no_routes && l.round < l.rounds_max
                && !moved && !learned
        }),
{
}

/// A further round begins exactly while there are rounds left and, after
/// the first, something left to move that is not below the fragment
/// floor.  The first round always begins where one is allowed.
pub proof fn law_rounds_begin_while_there_is_something_to_move(l: Ledger, floor_msat: u64)
    ensures
        ({
            let done = l.delivered_msat + l.pending_msat;
            let no = l.no_round(floor_msat);
            &&& no is None <==> l.round < l.rounds_max && (l.round == 0 || (done < l.amount_msat
                && l.amount_msat - done >= floor_msat))
            &&& no == Some(StopReasonView::RoundLimit) <==> l.round >= l.rounds_max
            &&& no == Some(StopReasonView::FullyCommitted) <==> 1 <= l.round < l.rounds_max && done
                >= l.amount_msat
            &&& no matches Some(StopReasonView::BelowFloor(n)) ==> n == l.amount_msat - done && 0
                < n < floor_msat
        }),
{
}

/// A round asks for what was neither delivered nor is in flight, and for
/// what is left of an absolute budget once settled and reserved fees are
/// taken off; a rate is not drawn down.
pub proof fn law_rounds_ask_for_the_rest(l: Ledger)
    ensures
        ({
            let (done, spent) = (l.delivered_msat + l.pending_msat, l.fee_msat + l.pending_fee_msat);
            let ask = l.ask();
            &&& ask.amount_msat == l.remaining()
            &&& done <= l.amount_msat ==> ask.amount_msat + done == l.amount_msat
            &&& done >= l.amount_msat ==> ask.amount_msat == 0
            &&& l.pot_msat is None <==> ask.maxfee_msat is None
            &&& l.pot_msat matches Some(pot) ==> (ask.maxfee_msat matches Some(left) && (spent <= pot
                ==> left + spent == pot) && (spent >= pot ==> left == 0))
        }),
{
}

/// A round's totals are added each to its own, and nothing else of the
/// ledger changes; they can be added exactly where all four sums fit.
pub proof fn law_totals_are_added(l: Ledger, t: Totals)
    ensures
        l.has_room(t) <==> {
            &&& l.delivered_msat + t.delivered_msat < 0x1_0000_0000_0000_0000
            &&& l.fee_msat + t.fee_msat < 0x1_0000_0000_0000_0000
            &&& l.pending_msat + t.pending_msat < 0x1_0000_0000_0000_0000
            &&& l.pending_fee_msat + t.pending_fee_msat < 0x1_0000_0000_0000_0000
        },
        l.has_room(t) ==> {
            let after = l.plus(t);
            &&& after.delivered_msat - l.delivered_msat == t.delivered_msat
            &&& after.fee_msat - l.fee_msat == t.fee_msat
            &&& after.pending_msat - l.pending_msat == t.pending_msat
            &&& after.pending_fee_msat - l.pending_fee_msat == t.pending_fee_msat
            &&& after.amount_msat == l.amount_msat
            &&& after.pot_msat == l.pot_msat
            &&& after.rounds_max == l.rounds_max
            &&& after.round == l.round
        },
{
}

/// A part draws on its source what it sends and fills its destination
/// with what it delivers, where it was delivered or is in flight; a part
/// that failed draws nothing, and no part touches another channel.
pub proof fn law_parts_draw_on_their_own_channels(
    drawn: Map<Seq<char>, u64>,
    parts: Seq<Part>,
    n: int,
    scid: Seq<char>,
)
    requires
        0 < n <= parts.len(),
    ensures
        ({
            let p = parts[n - 1];
            let (s0, s1) = (
                drawn_at(sources_drawn(drawn, parts, n - 1), scid),
                drawn_at(sources_drawn(drawn, parts, n), scid),
            );
            let (d0, d1) = (
                drawn_at(destinations_drawn(drawn, parts, n - 1), scid),
                drawn_at(destinations_drawn(drawn, parts, n), scid),
            );
            let failed = p.status is Failed;
            &&& failed || exec::scid_part(p.first_hop@) != scid ==> s1 == s0
            &&& failed || exec::scid_part(p.return_hop@) != scid ==> d1 == d0
            &&& !failed && exec::scid_part(p.first_hop@) == scid && s0 + p.planned_sent_msat
                < 0x1_0000_0000_0000_0000 ==> s1 == s0 + p.planned_sent_msat
            &&& !failed && exec::scid_part(p.return_hop@) == scid && d0 + p.planned_msat
                < 0x1_0000_0000_0000_0000 ==> d1 == d0 + p.planned_msat
            &&& s1 >= s0 && d1 >= d0
        }),
        sources_drawn(drawn, parts, 0) == drawn,
        destinations_drawn(drawn, parts, 0) == drawn,
{
}

/// A cap and what was drawn on it make up the cap that was given, as long
/// as it lasts, and an uncapped channel stays so.
pub proof fn law_caps_are_drawn_down(scid: Seq<char>, cap: u64, drawn: Map<Seq<char>, u64>)
    ensures
        ({
            let used = if drawn.contains_key(scid) {
                drawn[scid] as int
            } else {
                0
            };
            let left = drawn_down(chan_spec::ChanSpecView { scid, max_msat: Some(cap) }, drawn);
            &&& left.scid == scid
            &&& left.max_msat is Some
            &&& used <= cap ==> left.max_msat->0 + used == cap
            &&& used >= cap ==> left.max_msat->0 == 0
        }),
        drawn_down(chan_spec::ChanSpecView { scid, max_msat: None }, drawn)
            == (chan_spec::ChanSpecView { scid, max_msat: None }),
{
}

/// A round is the request with a smaller amount, what is left of an
/// absolute budget, and its own channels in their order with no larger
/// caps; everything else is the caller's.
pub proof fn law_rounds_are_the_request(
    round: XRebalanceParams,
    params: XRebalanceParams,
    ask: RoundAsk,
    sources: Map<Seq<char>, u64>,
    destinations: Map<Seq<char>, u64>,
    i: int,
)
    requires
        round.is_round_of(params, ask, sources, destinations),
    ensures
        round.amount_msat == ask.amount_msat,
        params.maxfee_msat is None ==> round.maxfee_msat is None,
        params.maxfee_msat is Some ==> round.maxfee_msat is Some,
        params.maxfee_msat is Some && ask.maxfee_msat is Some ==> round.maxfee_msat
            == ask.maxfee_msat,
        round.maxfee_ppm == params.maxfee_ppm,
        round.maxparts == params.maxparts,
        round.label == params.label,
        round.part_wait == params.part_wait,
        round.dryrun == params.dryrun,
        round.maxrounds == params.maxrounds,
        round.verbose == params.verbose,
        round.sources@.len() == params.sources@.len(),
        round.destinations@.len() == params.destinations@.len(),
        0 <= i < params.sources@.len() ==> {
            let (now, given) = (round.sources@[i], params.sources@[i]);
            &&& now.scid@ == given.scid@
            &&& now.max_msat is Some <==> given.max_msat is Some
            &&& given.max_msat matches Some(cap) ==> now.max_msat->0 == if !sources.contains_key(
                given.scid@,
            ) {
                cap as int
            } else if sources[given.scid@] <= cap {
                cap - sources[given.scid@]
            } else {
                0
            }
        },
        0 <= i < params.destinations@.len() ==> {
            let (now, given) = (round.destinations@[i], params.destinations@[i]);
            &&& now.scid@ == given.scid@
            &&& now.max_msat is Some <==> given.max_msat is Some
            &&& given.max_msat matches Some(cap) ==> now.max_msat->0
                == if !destinations.contains_key(given.scid@) {
                cap as int
            } else if destinations[given.scid@] <= cap {
                cap - destinations[given.scid@]
            } else {
                0
            }
        },
{
    assert(spec_views(round.sources@).len() == params.sources@.len());
    assert(spec_views(round.destinations@).len() == params.destinations@.len());
    if 0 <= i < params.sources@.len() {
        assert(spec_views(round.sources@)[i] == round.sources@[i]@);
        assert(spec_views(round.sources@)[i] == drawn_down(params.sources@[i]@, sources));
    }
    if 0 <= i < params.destinations@.len() {
        assert(spec_views(round.destinations@)[i] == round.destinations@[i]@);
        assert(spec_views(round.destinations@)[i] == drawn_down(
            params.destinations@[i]@,
            destinations,
        ));
    }
}

/// The reasons as they are told.
pub proof fn law_stop_reasons_in_words(n: u64, round: u64, error: Seq<char>)
    ensures
        StopReasonView::FullyCommitted.message() == "amount fully committed"@,
        StopReasonView::RoundLimit.message() == "round limit"@,
        StopReasonView::Stalled.message() == "stalled: a round moved nothing and learned nothing"@,
        StopReasonView::NoRoutes(Some(error)).message() == "no further routes: "@ + error,
        StopReasonView::NoRoutes(None).message() == "no further routes: planner returned none"@,
        (StopReasonView::PlanningFailed { round, error }).message() == "round "@ + text::dec(
            round as nat,
        ) + " planning failed: "@ + error,
        (StopReasonView::ExecutionFailed { round, error }).message() == "round "@ + text::dec(
            round as nat,
        ) + " execution failed: "@ + error,
        StopReasonView::BelowFloor(n).message() == "remaining "@ + text::grouped(
            text::dec(n as nat),
        ) + "msat below the fragment floor"@,
{
    reveal_strlit("no further routes: ");
    reveal_strlit("planner returned none");
    reveal_strlit("no further routes: planner returned none");
    assert(StopReasonView::NoRoutes(None).message()
        =~= "no further routes: planner returned none"@);
}

} // verus!
