//! One rebalance request: its parameters and what they must satisfy.

use crate::chan_spec;
use crate::chan_spec::{find_duplicate, ChanSpec};
use crate::outside::random_u32;
use crate::text;
use crate::text::push_hex_padded;
use vstd::prelude::*;
use vstd::string::*;

verus! {

/// The parameters of one request.
#[derive(Debug)]
pub struct XRebalanceParams {
    /// Channels to drain (our outgoing scids), each with an optional
    /// cap on how much this request draws from it (chan_spec.rs).
    pub sources: Vec<ChanSpec>,
    /// Channels to fill (our incoming scids), each with an optional
    /// cap on how much this request delivers into it.
    pub destinations: Vec<ChanSpec>,
    /// Ceiling on the amount to move; partial delivery is the norm,
    /// zero delivered is a result rather than an error.  Clamped to
    /// what the channels can carry under their caps (plan.rs).
    pub amount_msat: u64,
    /// Strict whole-request fee budget: exactly one of these.
    pub maxfee_ppm: Option<u64>,
    pub maxfee_msat: Option<u64>,
    /// Caller correlation id, echoed in the response and in every
    /// xrebalance_part notification, and prefixed to this request's
    /// log lines.  Defaults to a random 8-hex-char id so concurrent
    /// requests never share a log prefix.
    pub label: Option<String>,
    /// Plan only: compute and return routes, execute nothing.
    pub dryrun: Option<bool>,
    pub maxparts: Option<u32>,
    /// Plan-execute rounds this request may run; each round replans
    /// the remainder with everything earlier failures taught.
    /// Defaults to the xrebalance-max-rounds option.
    pub maxrounds: Option<u32>,
    /// Snapshot-window override: seconds the response waits for
    /// parts, 0 to return immediately.  Defaults to the
    /// xrebalance-part-wait option.  Results stream via the
    /// xrebalance_part notification either way.
    pub part_wait: Option<u64>,
    /// Add the per-round detail to the response.
    pub verbose: Option<bool>,
}

/// The whole-request fee budget, in the form the caller gave it.
#[derive(Debug, Clone, Copy, PartialEq, Eq, Structural)]
pub enum FeeBudget {
    /// An absolute amount.
    Msat(u64),
    /// A rate, in millionths of what is moved.
    Ppm(u64),
}

/// Why a request was refused.
#[derive(Debug, PartialEq, Eq)]
pub enum RequestError {
    /// Both or neither form of the fee budget.
    BudgetForm,
    /// No source, or no destination.
    NoChannels,
    DuplicateSource(String),
    DuplicateDestination(String),
    ZeroMaxparts,
    ZeroMaxrounds,
    ZeroAmount,
}

/// A refusal with its text as characters.
pub enum RequestErrorView {
    BudgetForm,
    NoChannels,
    DuplicateSource(Seq<char>),
    DuplicateDestination(Seq<char>),
    ZeroMaxparts,
    ZeroMaxrounds,
    ZeroAmount,
}

impl View for RequestError {
    type V = RequestErrorView;

    open spec fn view(&self) -> RequestErrorView {
        match self {
            RequestError::BudgetForm => RequestErrorView::BudgetForm,
            RequestError::NoChannels => RequestErrorView::NoChannels,
            RequestError::DuplicateSource(s) => RequestErrorView::DuplicateSource(s@),
            RequestError::DuplicateDestination(s) => RequestErrorView::DuplicateDestination(s@),
            RequestError::ZeroMaxparts => RequestErrorView::ZeroMaxparts,
            RequestError::ZeroMaxrounds => RequestErrorView::ZeroMaxrounds,
            RequestError::ZeroAmount => RequestErrorView::ZeroAmount,
        }
    }
}

impl RequestErrorView {
    /// The refusal in words.
    pub open spec fn message(self) -> Seq<char> {
        match self {
            RequestErrorView::BudgetForm =>
                "exactly one of maxfee_ppm or maxfee_msat is required"@,
            RequestErrorView::NoChannels =>
                "sources and destinations must each name at least one channel"@,
            RequestErrorView::DuplicateSource(s) => "duplicate source "@ + s,
            RequestErrorView::DuplicateDestination(s) => "duplicate destination "@ + s,
            RequestErrorView::ZeroMaxparts => "maxparts must be at least 1"@,
            RequestErrorView::ZeroMaxrounds => "maxrounds must be at least 1"@,
            RequestErrorView::ZeroAmount => "amount_msat must be positive"@,
        }
    }
}

impl RequestError {
    /// The refusal in words.
    pub fn message(&self) -> (r: String)
        ensures
            r@ == self@.message(),
    {
        match self {
            RequestError::BudgetForm =>
                "exactly one of maxfee_ppm or maxfee_msat is required".to_owned(),
            RequestError::NoChannels =>
                "sources and destinations must each name at least one channel".to_owned(),
            RequestError::DuplicateSource(s) => {
                let mut out = "duplicate source ".to_owned();
                out.append(s);
                out
            },
            RequestError::DuplicateDestination(s) => {
                let mut out = "duplicate destination ".to_owned();
                out.append(s);
                out
            },
            RequestError::ZeroMaxparts => "maxparts must be at least 1".to_owned(),
            RequestError::ZeroMaxrounds => "maxrounds must be at least 1".to_owned(),
            RequestError::ZeroAmount => "amount_msat must be positive".to_owned(),
        }
    }
}

/// The smaller of `n` and the largest amount.
pub open spec fn saturated(n: int) -> u64 {
    if n <= u64::MAX {
        n as u64
    } else {
        u64::MAX
    }
}

impl FeeBudget {
    /// What the budget allows for moving `amount_msat`.
    pub open spec fn allowance(self, amount_msat: u64) -> int {
        match self {
            FeeBudget::Msat(msat) => msat as int,
            FeeBudget::Ppm(ppm) => amount_msat * ppm / 1_000_000,
        }
    }

    /// What the budget allows for moving `amount_msat`; None where that
    /// does not fit.
    pub fn allow(&self, amount_msat: u64) -> (r: Option<u64>)
        ensures
            match r {
                Some(n) => n == self.allowance(amount_msat),
                None => self.allowance(amount_msat) > u64::MAX,
            },
            *self matches FeeBudget::Msat(msat) ==> r == Some(msat),
            *self matches FeeBudget::Ppm(ppm) ==> (r matches Some(n) ==> n * 1_000_000 <= amount_msat
                * ppm < (n + 1) * 1_000_000),
    {
        match self {
            FeeBudget::Msat(msat) => Some(*msat),
            FeeBudget::Ppm(ppm) => {
                let a: u128 = amount_msat as u128;
                let p: u128 = *ppm as u128;
                assert(a * p <= 0xffff_ffff_ffff_ffff * 0xffff_ffff_ffff_ffff) by (nonlinear_arith)
                    requires
                        a <= 0xffff_ffff_ffff_ffff,
                        p <= 0xffff_ffff_ffff_ffff,
                ;
                let fee: u128 = a * p / 1_000_000;
                if fee <= u64::MAX as u128 {
                    Some(fee as u64)
                } else {
                    None
                }
            },
        }
    }
}

/// A budget allows no more for a smaller amount.
pub proof fn law_allowance_is_monotone(budget: FeeBudget, less: u64, more: u64)
    requires
        less <= more,
    ensures
        0 <= budget.allowance(less) <= budget.allowance(more),
{
    if let FeeBudget::Ppm(ppm) = budget {
        assert(0 <= less * ppm <= more * ppm) by (nonlinear_arith)
            requires
                0 <= less <= more,
                0 <= ppm,
        ;
    }
}

/// The label drawn for a request that has none: eight hexadecimal
/// digits.
pub fn default_label(n: u32) -> (r: String)
    ensures
        r@ == text::hex_padded(n as nat, 8),
{
    let mut out = String::new();
    push_hex_padded(&mut out, n as u64, 8);
    proof {
        assert(out@ =~= text::hex_padded(n as nat, 8));
    }
    out
}

/// How many rounds a request may run, given the option's value.
pub open spec fn rounds_limit(maxrounds: Option<u32>, option: u64) -> u64 {
    let n = match maxrounds {
        Some(n) => n as u64,
        None => option,
    };
    if n >= 1 {
        n
    } else {
        1
    }
}

impl XRebalanceParams {
    /// The fee budget, where exactly one form of it was given.
    pub open spec fn budget(&self) -> Option<FeeBudget> {
        match (self.maxfee_msat, self.maxfee_ppm) {
            (Some(msat), None) => Some(FeeBudget::Msat(msat)),
            (None, Some(ppm)) => Some(FeeBudget::Ppm(ppm)),
            _ => None,
        }
    }

    /// Why the request is refused, if it is: the first of these that
    /// applies.
    pub open spec fn refusal(&self) -> Option<RequestErrorView> {
        if self.budget() is None {
            Some(RequestErrorView::BudgetForm)
        } else if self.sources@.len() == 0 || self.destinations@.len() == 0 {
            Some(RequestErrorView::NoChannels)
        } else if let Some(scid) = chan_spec::first_repeat(self.sources@) {
            Some(RequestErrorView::DuplicateSource(scid))
        } else if let Some(scid) = chan_spec::first_repeat(self.destinations@) {
            Some(RequestErrorView::DuplicateDestination(scid))
        } else if self.maxparts == Some(0u32) {
            Some(RequestErrorView::ZeroMaxparts)
        } else if self.maxrounds == Some(0u32) {
            Some(RequestErrorView::ZeroMaxrounds)
        } else if self.amount_msat == 0 {
            Some(RequestErrorView::ZeroAmount)
        } else {
            None
        }
    }

    /// The fee budget, where exactly one form of it was given.
    pub fn fee_budget(&self) -> (r: Option<FeeBudget>)
        ensures
            r == self.budget(),
    {
        match (self.maxfee_msat, self.maxfee_ppm) {
            (Some(msat), None) => Some(FeeBudget::Msat(msat)),
            (None, Some(ppm)) => Some(FeeBudget::Ppm(ppm)),
            _ => None,
        }
    }

    /// Check the request; the fee budget of one that passes.
    pub fn validate(&self) -> (r: Result<FeeBudget, RequestError>)
        ensures
            match r {
                Ok(b) => self.refusal() is None && self.budget() == Some(b),
                Err(e) => self.refusal() == Some(e@),
            },
            r is Ok ==> chan_spec::all_distinct(self.sources@) && chan_spec::all_distinct(
                self.destinations@,
            ),
            r is Ok ==> self.amount_msat > 0 && self.maxparts != Some(0u32) && self.maxrounds
                != Some(0u32) && self.sources@.len() > 0 && self.destinations@.len() > 0,
            r matches Ok(b) ==> match b {
                FeeBudget::Msat(msat) => self.maxfee_msat == Some(msat) && self.maxfee_ppm is None,
                FeeBudget::Ppm(ppm) => self.maxfee_ppm == Some(ppm) && self.maxfee_msat is None,
            },
    {
        let budget = match self.fee_budget() {
            Some(b) => b,
            None => return Err(RequestError::BudgetForm),
        };
        if self.sources.len() == 0 || self.destinations.len() == 0 {
            return Err(RequestError::NoChannels);
        }
        if let Some(scid) = find_duplicate(&self.sources) {
            return Err(RequestError::DuplicateSource(scid.to_owned()));
        }
        if let Some(scid) = find_duplicate(&self.destinations) {
            return Err(RequestError::DuplicateDestination(scid.to_owned()));
        }
        if let Some(0) = self.maxparts {
            return Err(RequestError::ZeroMaxparts);
        }
        if let Some(0) = self.maxrounds {
            return Err(RequestError::ZeroMaxrounds);
        }
        if self.amount_msat == 0 {
            return Err(RequestError::ZeroAmount);
        }
        Ok(budget)
    }

    /// Give the request a label where the caller gave none.
    pub fn fill_label(&mut self)
        ensures
            final(self).label is Some,
            *final(self) == (XRebalanceParams { label: final(self).label, ..*old(self) }),
            match old(self).label {
                Some(_) => *final(self) == *old(self),
                None => exists|n: u32|
                    final(self).label->0@ == #[trigger] text::hex_padded(n as nat, 8),
            },
    {
        if self.label.is_none() {
            let n: u32 = random_u32();
            self.label = Some(default_label(n));
        }
    }

    /// The budget in both forms, whichever one was given: msat for the
    /// whole amount, and ppm of it.  Either is capped at what fits.
    pub fn budget_forms(&self) -> (r: Option<(u64, u64)>)
        requires
            self.amount_msat > 0,
        ensures
            match (r, self.budget()) {
                (Some((msat, ppm)), Some(b)) => msat == saturated(b.allowance(self.amount_msat))
                    && ppm == saturated(msat * 1_000_000 / (self.amount_msat as int)),
                (None, None) => true,
                _ => false,
            },
            r matches Some((msat, _)) ==> (self.maxfee_msat matches Some(given) ==> msat == given),
            r is Some <==> (self.maxfee_msat is Some <==> self.maxfee_ppm is None),
    {
        let budget = match self.fee_budget() {
            Some(b) => b,
            None => return None,
        };
        let msat: u64 = match budget.allow(self.amount_msat) {
            Some(n) => n,
            None => u64::MAX,
        };
        let ppm: u128 = msat as u128 * 1_000_000 / self.amount_msat as u128;
        if ppm <= u64::MAX as u128 {
            Some((msat, ppm as u64))
        } else {
            Some((msat, u64::MAX))
        }
    }

    /// Whether only a plan is asked for.
    pub fn is_dryrun(&self) -> (r: bool)
        ensures
            r == (self.dryrun == Some(true)),
    {
        match self.dryrun {
            Some(b) => b,
            None => false,
        }
    }

    /// Whether the response carries the per-round detail.
    pub fn is_verbose(&self) -> (r: bool)
        ensures
            r == (self.verbose == Some(true)),
    {
        match self.verbose {
            Some(b) => b,
            None => false,
        }
    }

    /// How many rounds this request may run, given the
    /// xrebalance-max-rounds option.
    pub fn rounds_max(&self, option: u64) -> (r: u64)
        ensures
            r == rounds_limit(self.maxrounds, option),
            r >= 1,
            self.maxrounds matches Some(n) ==> n >= 1 ==> r == n,
            self.maxrounds is None && option >= 1 ==> r == option,
    {
        let n: u64 = match self.maxrounds {
            Some(n) => n as u64,
            None => option,
        };
        if n >= 1 {
            n
        } else {
            1
        }
    }

    /// How many seconds the response waits for parts, given the
    /// xrebalance-part-wait option.
    pub fn wait_secs(&self, option: u64) -> (r: u64)
        ensures
            r == match self.part_wait {
                Some(n) => n,
                None => option,
            },
    {
        match self.part_wait {
            Some(n) => n,
            None => option,
        }
    }
}

// ---------------------------------------------------------------------
// Laws
// ---------------------------------------------------------------------

/// What a budget allows: an absolute one is the same for every amount; a
/// rate allows the largest whole msat that is not above its millionths of
/// the amount.
pub proof fn law_allowance_is_the_budget(amount_msat: u64, msat: u64, ppm: u64)
    ensures
        FeeBudget::Msat(msat).allowance(amount_msat) == msat,
        ({
            let fee = FeeBudget::Ppm(ppm).allowance(amount_msat);
            0 <= fee && fee * 1_000_000 <= amount_msat * ppm < (fee + 1) * 1_000_000
        }),
{
    assert(0 <= amount_msat * ppm) by (nonlinear_arith)
        requires
            0 <= amount_msat,
            0 <= ppm,
    ;
}

/// A total that does not fit is capped at the largest amount, and one
/// that fits is kept.
pub proof fn law_saturation_keeps_what_fits(n: int)
    requires
        0 <= n,
    ensures
        saturated(n) <= n,
        saturated(n) < n ==> saturated(n) == 0xffff_ffff_ffff_ffffu64,
        n <= 0xffff_ffff_ffff_ffff ==> saturated(n) == n,
{
}

/// A request runs at least one round: what it says itself counts before
/// the option does.
pub proof fn law_rounds_limit(n: u32, option: u64)
    ensures
        n >= 1 ==> rounds_limit(Some(n), option) == n,
        option >= 1 ==> rounds_limit(None, option) == option,
        rounds_limit(Some(0u32), option) == 1,
        rounds_limit(None, 0) == 1,
{
}

/// A request is taken exactly where it is well formed: one form of the
/// fee budget and not the other, channels on both sides, none of them
/// named twice on one side, and no zero for the parts, the rounds or the
/// amount.  Its budget is then the one it gave.
pub proof fn law_requests_are_taken_where_well_formed(p: XRebalanceParams)
    ensures
        p.refusal() is None <==> {
            &&& p.maxfee_msat is Some <==> p.maxfee_ppm is None
            &&& p.sources@.len() >= 1
            &&& p.destinations@.len() >= 1
            &&& forall|i: int, j: int|
                0 <= i < j < p.sources@.len() ==> (#[trigger] p.sources@[i]).scid@ != (
                #[trigger] p.sources@[j]).scid@
            &&& forall|i: int, j: int|
                0 <= i < j < p.destinations@.len() ==> (#[trigger] p.destinations@[i]).scid@ != (
                #[trigger] p.destinations@[j]).scid@
            &&& p.maxparts != Some(0u32)
            &&& p.maxrounds != Some(0u32)
            &&& p.amount_msat >= 1
        },
        p.maxfee_msat matches Some(msat) ==> p.maxfee_ppm is None ==> p.budget() == Some(
            FeeBudget::Msat(msat),
        ),
        p.maxfee_ppm matches Some(ppm) ==> p.maxfee_msat is None ==> p.budget() == Some(
            FeeBudget::Ppm(ppm),
        ),
        p.maxfee_msat is Some && p.maxfee_ppm is Some ==> p.budget() is None,
        p.maxfee_msat is None && p.maxfee_ppm is None ==> p.budget() is None,
{
    chan_spec::law_repeats_are_found(p.sources@);
    chan_spec::law_repeats_are_found(p.destinations@);
}

/// A refusal says what is wrong: each reason is given only where it
/// holds, and only where none of the reasons before it does.
pub proof fn law_refusals_are_true(p: XRebalanceParams)
    ensures
        ({
            let one_form = p.maxfee_msat is Some <==> p.maxfee_ppm is None;
            let both_sides = p.sources@.len() >= 1 && p.destinations@.len() >= 1;
            let distinct = |specs: Seq<ChanSpec>|
                forall|i: int, j: int|
                    0 <= i < j < specs.len() ==> (#[trigger] specs[i]).scid@ != (
                    #[trigger] specs[j]).scid@;
            let twice = |specs: Seq<ChanSpec>, s: Seq<char>|
                exists|i: int, j: int|
                    0 <= i < j < specs.len() && (#[trigger] specs[i]).scid@ == s && (
                    #[trigger] specs[j]).scid@ == s;
            let named = one_form && both_sides && distinct(p.sources@) && distinct(p.destinations@);
            match p.refusal() {
                None => named,
                Some(RequestErrorView::BudgetForm) => !one_form,
                Some(RequestErrorView::NoChannels) => one_form && !both_sides,
                Some(RequestErrorView::DuplicateSource(s)) => one_form && both_sides && twice(
                    p.sources@,
                    s,
                ),
                Some(RequestErrorView::DuplicateDestination(s)) => one_form && both_sides
                    && distinct(p.sources@) && twice(p.destinations@, s),
                Some(RequestErrorView::ZeroMaxparts) => named && p.maxparts == Some(0u32),
                Some(RequestErrorView::ZeroMaxrounds) => named && p.maxparts != Some(0u32)
                    && p.maxrounds == Some(0u32),
                Some(RequestErrorView::ZeroAmount) => named && p.maxparts != Some(0u32)
                    && p.maxrounds != Some(0u32) && p.amount_msat == 0,
            }
        }),
        (p.maxfee_msat is Some <==> p.maxfee_ppm is Some) ==> p.refusal()
            == Some(RequestErrorView::BudgetForm),
        p.budget() is Some && (p.sources@.len() == 0 || p.destinations@.len() == 0) ==> p.refusal()
            == Some(RequestErrorView::NoChannels),
{
    chan_spec::law_repeats_are_found(p.sources@);
    chan_spec::law_repeats_are_found(p.destinations@);
}

/// The refusals as they are told: each names what was refused.
pub proof fn law_request_refusals_in_words(s: Seq<char>)
    ensures
        RequestErrorView::BudgetForm.message()
            == "exactly one of maxfee_ppm or maxfee_msat is required"@,
        RequestErrorView::NoChannels.message()
            == "sources and destinations must each name at least one channel"@,
        RequestErrorView::DuplicateSource(s).message() == "duplicate source "@ + s,
        RequestErrorView::DuplicateDestination(s).message() == "duplicate destination "@ + s,
        RequestErrorView::ZeroMaxparts.message() == "maxparts must be at least 1"@,
        RequestErrorView::ZeroMaxrounds.message() == "maxrounds must be at least 1"@,
        RequestErrorView::ZeroAmount.message() == "amount_msat must be positive"@,
{
}

} // verus!
