//! The dynamic options.
//!
//! All the options are dynamic (setconfig): restarting the plugin
//! to tune a knob would discard the very state being tuned -- the
//! claim table (stranding in-flight parts), the learned overrides,
//! and the coalescer cache.

use crate::coalesce;
use crate::coalesce::Coalescer;
use crate::json::Json;
use crate::overrides::{Overrides, OverridesView};
use crate::text;
use crate::text::{parse_i64, same_text};
use vstd::prelude::*;
use vstd::string::*;

verus! {

/// Learned constraints in the persistent xrebalance layer expire
/// after this many seconds.  Applied lazily before each request (and
/// once at init) -- askrene-age is a pure in-memory trim, so
/// per-request aging is effectively free and needs no timer.
/// Liquidity knowledge decays in hours as network traffic moves
/// balances; operators on slow networks (e.g. signet) should widen
/// this to keep accumulated knowledge longer.
///
/// Constraint knowledge should expire on the timescale of its
/// re-acquisition cost, and tenacious rounds cut re-testing a
/// corridor to one failed part.  Stale pessimism (a max bound on a
/// corridor that has since refilled) silently prunes routes until
/// it expires; stale optimism is rewritten by the first failure.
/// So age toward re-learning: 6 hours keeps the layer dominated by
/// continuously re-probed knowledge, and sits just above a periodic
/// driver's cadence so each run inherits the run before.
pub const DEFAULT_CONSTRAINT_AGE: i64 = 21_600;

/// Learned gossip overrides (policy refreshes from onion failures,
/// node disables, channel exclusions) expire after this many
/// seconds.  A separate knob from the constraint age: overrides
/// assert what a peer enforces rather than where liquidity sits,
/// and the two decay on different clocks.
pub const DEFAULT_OVERRIDE_AGE: i64 = 3_600;

/// Snapshot window: how long the RPC waits so fast outcomes appear
/// directly in the response.  The wait recurs every round, so the
/// default is short; stragglers detach with their amounts still counted
/// as committed.
pub const DEFAULT_PART_WAIT: i64 = 30;

/// Minimum msat a planned part must deliver.  Applied as the
/// htlc_minimum_msat of every destination mirror (layer.rs), so the
/// solver itself never plans a part below it: askrene's refine
/// stage drops sub-minimum flows and re-solves the remainder over
/// other corridors.  Fragments -- fee-free quantization slivers
/// riding truncated fee arithmetic -- carry no rebalance value at
/// any price; this floor keeps them out of the plan entirely.
/// 0 disables the floor.
pub const DEFAULT_MIN_PART: i64 = 1_000_000;

/// How many plan-execute rounds one request may run (the
/// per-request maxrounds overrides).  A round that delivers nothing and
/// learns nothing ends the loop early (the stall check), so the cap is a
/// backstop for feedback bugs, not the usual exit, and the default
/// is sized for that backstop role.
pub const DEFAULT_MAX_ROUNDS: i64 = 50;

/// Final-hop CLTV delta granted to each part's return leg.  The
/// htlc_accepted hook claims the HTLC the moment it arrives, but the
/// removal handshake still needs the peer to respond, and lightningd
/// force-closes a channel whose fulfilled incoming HTLC is still
/// present within ~cltv-delta/2 blocks of expiry (17 at the default
/// cltv-delta of 34).  This delta minus that buffer is how many
/// blocks a slow or flapping peer has to finish the removal before
/// the deadline check fires; a value at or below the buffer makes
/// every return leg a force-close race against the next block.
pub const DEFAULT_FINAL_CLTV: i64 = 40;

/// The options.
#[derive(Debug, Clone, Copy, PartialEq, Eq, Structural)]
pub enum OptionKey {
    ConstraintAge,
    OverrideAge,
    PartWait,
    MinPart,
    MaxRounds,
    FinalCltv,
}

impl OptionKey {
    /// The option's name.
    pub open spec fn text(self) -> Seq<char> {
        match self {
            OptionKey::ConstraintAge => "xrebalance-constraint-age"@,
            OptionKey::OverrideAge => "xrebalance-override-age"@,
            OptionKey::PartWait => "xrebalance-part-wait"@,
            OptionKey::MinPart => "xrebalance-min-part-msat"@,
            OptionKey::MaxRounds => "xrebalance-max-rounds"@,
            OptionKey::FinalCltv => "xrebalance-final-cltv"@,
        }
    }

    /// The least value the option takes.
    pub open spec fn least(self) -> u64 {
        match self {
            OptionKey::MaxRounds => 1,
            OptionKey::FinalCltv => 1,
            _ => 0,
        }
    }

    /// The option's name.
    pub fn name(&self) -> (r: &'static str)
        ensures
            r@ == self.text(),
    {
        match self {
            OptionKey::ConstraintAge => "xrebalance-constraint-age",
            OptionKey::OverrideAge => "xrebalance-override-age",
            OptionKey::PartWait => "xrebalance-part-wait",
            OptionKey::MinPart => "xrebalance-min-part-msat",
            OptionKey::MaxRounds => "xrebalance-max-rounds",
            OptionKey::FinalCltv => "xrebalance-final-cltv",
        }
    }

    fn needs_one(&self) -> (r: bool)
        ensures
            r == (self.least() == 1),
            !r ==> self.least() == 0,
    {
        match self {
            OptionKey::MaxRounds => true,
            OptionKey::FinalCltv => true,
            _ => false,
        }
    }

    /// The option with the given name.
    pub open spec fn named(name: Seq<char>) -> Option<OptionKey> {
        if name == OptionKey::ConstraintAge.text() {
            Some(OptionKey::ConstraintAge)
        } else if name == OptionKey::OverrideAge.text() {
            Some(OptionKey::OverrideAge)
        } else if name == OptionKey::PartWait.text() {
            Some(OptionKey::PartWait)
        } else if name == OptionKey::MinPart.text() {
            Some(OptionKey::MinPart)
        } else if name == OptionKey::MaxRounds.text() {
            Some(OptionKey::MaxRounds)
        } else if name == OptionKey::FinalCltv.text() {
            Some(OptionKey::FinalCltv)
        } else {
            None
        }
    }

    /// The option with the given name.
    pub fn find(name: &str) -> (r: Option<OptionKey>)
        ensures
            r == OptionKey::named(name@),
    {
        if same_text(name, OptionKey::ConstraintAge.name()) {
            Some(OptionKey::ConstraintAge)
        } else if same_text(name, OptionKey::OverrideAge.name()) {
            Some(OptionKey::OverrideAge)
        } else if same_text(name, OptionKey::PartWait.name()) {
            Some(OptionKey::PartWait)
        } else if same_text(name, OptionKey::MinPart.name()) {
            Some(OptionKey::MinPart)
        } else if same_text(name, OptionKey::MaxRounds.name()) {
            Some(OptionKey::MaxRounds)
        } else if same_text(name, OptionKey::FinalCltv.name()) {
            Some(OptionKey::FinalCltv)
        } else {
            None
        }
    }
}

/// Every option is found by its own name.
pub proof fn law_options_are_found_by_name(key: OptionKey)
    ensures
        OptionKey::named(key.text()) == Some(key),
{
    reveal_strlit("xrebalance-constraint-age");
    reveal_strlit("xrebalance-override-age");
    reveal_strlit("xrebalance-part-wait");
    reveal_strlit("xrebalance-min-part-msat");
    reveal_strlit("xrebalance-max-rounds");
    reveal_strlit("xrebalance-final-cltv");
    assert(OptionKey::ConstraintAge.text().len() == 25);
    assert(OptionKey::OverrideAge.text().len() == 23);
    assert(OptionKey::PartWait.text().len() == 20);
    assert(OptionKey::MinPart.text().len() == 24);
    assert(OptionKey::MaxRounds.text().len() == 21);
    assert(OptionKey::FinalCltv.text().len() == 21);
    assert(OptionKey::MaxRounds.text()[11] != OptionKey::FinalCltv.text()[11]);
}

/// The values of the options.
#[derive(Debug, Clone, Copy, PartialEq, Eq, Structural)]
pub struct Settings {
    /// Seconds until learned constraints expire.
    pub constraint_age: u64,
    /// Seconds until learned overrides expire.
    pub override_age: u64,
    /// Bound on the synchronous part wait.
    pub part_wait_secs: u64,
    /// Fragment floor: least msat a planned part may deliver.
    pub min_part_msat: u64,
    /// Round cap for the tenacious loop.
    pub max_rounds: u64,
    /// Final-hop cltv delta for return legs.
    pub final_cltv: u64,
}

/// Why a value was refused.
#[derive(Debug, PartialEq, Eq)]
pub enum ConfigError {
    /// setconfig named no option.
    MissingName,
    /// The value is neither an integer nor the text of one.
    NotInteger(String),
    /// The value is negative.
    Negative(String),
    /// The value is zero where it must not be.
    TooSmall(String),
    /// There is no such option.
    Unknown(String),
    /// At startup: the value is negative.
    MustBePositive(OptionKey),
    /// At startup: the value is negative, where zero means something.
    MustNotBeNegative(OptionKey),
    /// At startup: the value is below one.
    MustBeAtLeastOne(OptionKey),
}

/// A refusal with its text as characters.
pub enum ConfigErrorView {
    MissingName,
    NotInteger(Seq<char>),
    Negative(Seq<char>),
    TooSmall(Seq<char>),
    Unknown(Seq<char>),
    MustBePositive(OptionKey),
    MustNotBeNegative(OptionKey),
    MustBeAtLeastOne(OptionKey),
}

impl View for ConfigError {
    type V = ConfigErrorView;

    open spec fn view(&self) -> ConfigErrorView {
        match *self {
            ConfigError::MissingName => ConfigErrorView::MissingName,
            ConfigError::NotInteger(s) => ConfigErrorView::NotInteger(s@),
            ConfigError::Negative(s) => ConfigErrorView::Negative(s@),
            ConfigError::TooSmall(s) => ConfigErrorView::TooSmall(s@),
            ConfigError::Unknown(s) => ConfigErrorView::Unknown(s@),
            ConfigError::MustBePositive(k) => ConfigErrorView::MustBePositive(k),
            ConfigError::MustNotBeNegative(k) => ConfigErrorView::MustNotBeNegative(k),
            ConfigError::MustBeAtLeastOne(k) => ConfigErrorView::MustBeAtLeastOne(k),
        }
    }
}

impl ConfigErrorView {
    /// The refusal in words.
    pub open spec fn message(self) -> Seq<char> {
        match self {
            ConfigErrorView::MissingName => "setconfig: missing config name"@,
            ConfigErrorView::NotInteger(s) => s + ": value is not an integer"@,
            ConfigErrorView::Negative(s) => s + " must not be negative"@,
            ConfigErrorView::TooSmall(s) => s + " must be at least 1"@,
            ConfigErrorView::Unknown(s) => "unknown dynamic option "@ + s,
            ConfigErrorView::MustBePositive(k) => k.text() + " must be positive"@,
            ConfigErrorView::MustNotBeNegative(k) => k.text() + " must not be negative"@,
            ConfigErrorView::MustBeAtLeastOne(k) => k.text() + " must be at least 1"@,
        }
    }
}

fn suffixed(s: &str, after: &str) -> (r: String)
    ensures
        r@ == s@ + after@,
{
    let mut out = s.to_owned();
    out.append(after);
    out
}

impl ConfigError {
    /// The refusal in words.
    pub fn message(&self) -> (r: String)
        ensures
            r@ == self@.message(),
    {
        match self {
            ConfigError::MissingName => "setconfig: missing config name".to_owned(),
            ConfigError::NotInteger(s) => suffixed(s, ": value is not an integer"),
            ConfigError::Negative(s) => suffixed(s, " must not be negative"),
            ConfigError::TooSmall(s) => suffixed(s, " must be at least 1"),
            ConfigError::Unknown(s) => suffixed("unknown dynamic option ", s),
            ConfigError::MustBePositive(k) => suffixed(k.name(), " must be positive"),
            ConfigError::MustNotBeNegative(k) => suffixed(k.name(), " must not be negative"),
            ConfigError::MustBeAtLeastOne(k) => suffixed(k.name(), " must be at least 1"),
        }
    }
}

/// The integer a setconfig value stands for.
pub open spec fn config_integer(v: Json) -> Option<int> {
    match v.int64() {
        Some(n) => Some(n),
        None => match v.text() {
            Some(s) => text::signed_i64(s),
            None => None,
        },
    }
}

/// What a setconfig call asks for.
pub open spec fn config_request(v: Json) -> Result<(OptionKey, u64), ConfigErrorView> {
    match v.at("config"@).text() {
        None => Err(ConfigErrorView::MissingName),
        Some(name) => match config_integer(v.at("val"@)) {
            None => Err(ConfigErrorView::NotInteger(name)),
            Some(n) => if n < 0 {
                Err(ConfigErrorView::Negative(name))
            } else {
                match OptionKey::named(name) {
                    None => Err(ConfigErrorView::Unknown(name)),
                    Some(key) => if n < key.least() {
                        Err(ConfigErrorView::TooSmall(name))
                    } else {
                        Ok((key, n as u64))
                    },
                }
            },
        },
    }
}

fn integer_at(v: &Json, key: &str) -> (r: Option<i64>)
    ensures
        match r {
            Some(n) => config_integer(v.at(key@)) == Some(n as int),
            None => config_integer(v.at(key@)) is None,
        },
{
    match v.get(key) {
        None => None,
        Some(val) => match val.as_i64() {
            Some(n) => Some(n),
            None => match val {
                Json::Str(s) => parse_i64(s.as_str()),
                _ => None,
            },
        },
    }
}

/// Read a setconfig call: the option and its new value.  An error here
/// vetoes the change.
pub fn read_change(v: &Json) -> (r: Result<(OptionKey, u64), ConfigError>)
    ensures
        match r {
            Ok(c) => config_request(*v) == Ok::<(OptionKey, u64), ConfigErrorView>(c),
            Err(e) => config_request(*v) == Err::<(OptionKey, u64), ConfigErrorView>(e@),
        },
{
    let name = match v.text_at("config") {
        Some(s) => s,
        None => return Err(ConfigError::MissingName),
    };
    let value: i64 = match integer_at(v, "val") {
        Some(n) => n,
        None => return Err(ConfigError::NotInteger(name.to_owned())),
    };
    if value < 0 {
        return Err(ConfigError::Negative(name.to_owned()));
    }
    let key = match OptionKey::find(name) {
        Some(k) => k,
        None => return Err(ConfigError::Unknown(name.to_owned())),
    };
    if key.needs_one() && value < 1 {
        return Err(ConfigError::TooSmall(name.to_owned()));
    }
    Ok((key, value as u64))
}

impl Settings {
    /// The value of an option.
    pub open spec fn value(&self, key: OptionKey) -> u64 {
        match key {
            OptionKey::ConstraintAge => self.constraint_age,
            OptionKey::OverrideAge => self.override_age,
            OptionKey::PartWait => self.part_wait_secs,
            OptionKey::MinPart => self.min_part_msat,
            OptionKey::MaxRounds => self.max_rounds,
            OptionKey::FinalCltv => self.final_cltv,
        }
    }

    /// Every option is at least its least value.
    pub open spec fn valid(&self) -> bool {
        forall|key: OptionKey| #[trigger] self.value(key) >= key.least()
    }

    /// Set one option.  Values take effect from the next request or
    /// layer write.
    pub fn set(&mut self, key: OptionKey, value: u64)
        requires
            old(self).valid(),
            value >= key.least(),
        ensures
            final(self).valid(),
            final(self).value(key) == value,
            forall|k: OptionKey| k != key ==> #[trigger] final(self).value(k) == old(self).value(k),
    {
        match key {
            OptionKey::ConstraintAge => {
                self.constraint_age = value;
            },
            OptionKey::OverrideAge => {
                self.override_age = value;
            },
            OptionKey::PartWait => {
                self.part_wait_secs = value;
            },
            OptionKey::MinPart => {
                self.min_part_msat = value;
            },
            OptionKey::MaxRounds => {
                self.max_rounds = value;
            },
            OptionKey::FinalCltv => {
                self.final_cltv = value;
            },
        }
        proof {
            assert forall|k: OptionKey| #[trigger] self.value(k) >= k.least() by {
                if k != key {
                    assert(old(self).value(k) >= k.least());
                }
            }
        }
    }

    /// Apply a setconfig call.  A refused one changes nothing.
    pub fn apply(&mut self, v: &Json) -> (r: Result<(OptionKey, u64), ConfigError>)
        requires
            old(self).valid(),
        ensures
            final(self).valid(),
            match r {
                Ok((key, value)) => config_request(*v) == Ok::<(OptionKey, u64), ConfigErrorView>(
                    (key, value),
                ) && final(self).value(key) == value && forall|k: OptionKey|
                    k != key ==> #[trigger] final(self).value(k) == old(self).value(k),
                Err(e) => config_request(*v) == Err::<(OptionKey, u64), ConfigErrorView>(e@)
                    && *final(self) == *old(self),
            },
    {
        match read_change(v) {
            Ok((key, value)) => {
                self.set(key, value);
                Ok((key, value))
            },
            Err(e) => Err(e),
        }
    }
}

/// The stores that an option rules follow its value.
pub open spec fn in_step(
    settings: Settings,
    coalescer: coalesce::CoalescerView,
    overrides: OverridesView,
) -> bool {
    &&& coalescer.bucket_secs == coalesce::bucket_width(settings.constraint_age)
    &&& overrides.max_age == settings.override_age
}

/// The stores the plugin starts with: empty, and in step with the
/// settings.
pub fn stores(settings: &Settings) -> (r: (Coalescer, Overrides))
    ensures
        r.0.wf(),
        r.1.wf(),
        r.0@ == (coalesce::CoalescerView {
            bucket_secs: coalesce::bucket_width(settings.constraint_age),
            cache: Map::empty(),
            emits: 0,
        }),
        r.1@ == (OverridesView {
            max_age: settings.override_age,
            policies: Map::empty(),
            disabled_nodes: Map::empty(),
            exclusions: Map::empty(),
        }),
        in_step(*settings, r.0@, r.1@),
{
    (Coalescer::new(settings.constraint_age), Overrides::new(settings.override_age))
}

/// Apply a setconfig call to the option and to the store it rules: the
/// constraint age is also the coalescer's aging window, and the override
/// age is that of the override store.  A refused call changes nothing.
pub fn change(
    settings: &mut Settings,
    coalescer: &mut Coalescer,
    overrides: &mut Overrides,
    v: &Json,
) -> (r: Result<(OptionKey, u64), ConfigError>)
    requires
        old(settings).valid(),
        old(coalescer).wf(),
        old(overrides).wf(),
    ensures
        final(settings).valid(),
        final(coalescer).wf(),
        final(overrides).wf(),
        match r {
            Ok((key, value)) => {
                &&& config_request(*v) == Ok::<(OptionKey, u64), ConfigErrorView>((key, value))
                &&& final(settings).value(key) == value
                &&& forall|k: OptionKey|
                    k != key ==> #[trigger] final(settings).value(k) == old(settings).value(k)
                &&& final(coalescer)@ == if key == OptionKey::ConstraintAge {
                    old(coalescer)@.with_aging(value)
                } else {
                    old(coalescer)@
                }
                &&& final(overrides)@ == if key == OptionKey::OverrideAge {
                    OverridesView { max_age: value, ..old(overrides)@ }
                } else {
                    old(overrides)@
                }
            },
            Err(e) => {
                &&& config_request(*v) == Err::<(OptionKey, u64), ConfigErrorView>(e@)
                &&& *final(settings) == *old(settings)
                &&& *final(coalescer) == *old(coalescer)
                &&& *final(overrides) == *old(overrides)
            },
        },
        in_step(*old(settings), old(coalescer)@, old(overrides)@) ==> in_step(
            *final(settings),
            final(coalescer)@,
            final(overrides)@,
        ),
{
    let (key, value) = match settings.apply(v) {
        Ok(c) => c,
        Err(e) => return Err(e),
    };
    proof {
        assert(settings.value(OptionKey::ConstraintAge) == settings.constraint_age);
        assert(settings.value(OptionKey::OverrideAge) == settings.override_age);
        assert(old(settings).value(OptionKey::ConstraintAge) == old(settings).constraint_age);
        assert(old(settings).value(OptionKey::OverrideAge) == old(settings).override_age);
    }
    match key {
        OptionKey::ConstraintAge => {
            coalescer.set_aging(value);
        },
        OptionKey::OverrideAge => {
            overrides.set_max_age(value);
        },
        _ => {},
    }
    Ok((key, value))
}

/// What the options were started with.
#[derive(Debug, Clone, Copy, PartialEq, Eq, Structural)]
pub struct StartupValues {
    pub constraint_age: i64,
    pub override_age: i64,
    pub part_wait: i64,
    pub min_part: i64,
    pub max_rounds: i64,
    pub final_cltv: i64,
}

/// Why the startup values are refused, if they are: the first of these
/// that applies.
pub open spec fn startup_refusal(s: StartupValues) -> Option<ConfigErrorView> {
    if s.constraint_age < 0 {
        Some(ConfigErrorView::MustBePositive(OptionKey::ConstraintAge))
    } else if s.override_age < 0 {
        Some(ConfigErrorView::MustBePositive(OptionKey::OverrideAge))
    } else if s.part_wait < 0 {
        Some(ConfigErrorView::MustBePositive(OptionKey::PartWait))
    } else if s.min_part < 0 {
        Some(ConfigErrorView::MustNotBeNegative(OptionKey::MinPart))
    } else if s.max_rounds < 1 {
        Some(ConfigErrorView::MustBeAtLeastOne(OptionKey::MaxRounds))
    } else if s.final_cltv < 1 {
        Some(ConfigErrorView::MustBeAtLeastOne(OptionKey::FinalCltv))
    } else {
        None
    }
}

/// The settings the plugin starts with.
pub fn startup(s: &StartupValues) -> (r: Result<Settings, ConfigError>)
    ensures
        match r {
            Ok(t) => startup_refusal(*s) is None && t.valid() && t.constraint_age
                == s.constraint_age && t.override_age == s.override_age && t.part_wait_secs
                == s.part_wait && t.min_part_msat == s.min_part && t.max_rounds == s.max_rounds
                && t.final_cltv == s.final_cltv,
            Err(e) => startup_refusal(*s) == Some(e@),
        },
{
    if s.constraint_age < 0 {
        return Err(ConfigError::MustBePositive(OptionKey::ConstraintAge));
    }
    if s.override_age < 0 {
        return Err(ConfigError::MustBePositive(OptionKey::OverrideAge));
    }
    if s.part_wait < 0 {
        return Err(ConfigError::MustBePositive(OptionKey::PartWait));
    }
    if s.min_part < 0 {
        return Err(ConfigError::MustNotBeNegative(OptionKey::MinPart));
    }
    if s.max_rounds < 1 {
        return Err(ConfigError::MustBeAtLeastOne(OptionKey::MaxRounds));
    }
    if s.final_cltv < 1 {
        return Err(ConfigError::MustBeAtLeastOne(OptionKey::FinalCltv));
    }
    Ok(
        Settings {
            constraint_age: s.constraint_age as u64,
            override_age: s.override_age as u64,
            part_wait_secs: s.part_wait as u64,
            min_part_msat: s.min_part as u64,
            max_rounds: s.max_rounds as u64,
            final_cltv: s.final_cltv as u64,
        },
    )
}

// ---------------------------------------------------------------------
// Laws
// ---------------------------------------------------------------------

/// The options by their names, and the two that must be at least one.
pub proof fn law_options_have_their_names()
    ensures
        OptionKey::named("xrebalance-constraint-age"@) == Some(OptionKey::ConstraintAge),
        OptionKey::named("xrebalance-override-age"@) == Some(OptionKey::OverrideAge),
        OptionKey::named("xrebalance-part-wait"@) == Some(OptionKey::PartWait),
        OptionKey::named("xrebalance-min-part-msat"@) == Some(OptionKey::MinPart),
        OptionKey::named("xrebalance-max-rounds"@) == Some(OptionKey::MaxRounds),
        OptionKey::named("xrebalance-final-cltv"@) == Some(OptionKey::FinalCltv),
        OptionKey::ConstraintAge.least() == 0,
        OptionKey::OverrideAge.least() == 0,
        OptionKey::PartWait.least() == 0,
        OptionKey::MinPart.least() == 0,
        OptionKey::MaxRounds.least() == 1,
        OptionKey::FinalCltv.least() == 1,
{
    law_options_are_found_by_name(OptionKey::ConstraintAge);
    law_options_are_found_by_name(OptionKey::OverrideAge);
    law_options_are_found_by_name(OptionKey::PartWait);
    law_options_are_found_by_name(OptionKey::MinPart);
    law_options_are_found_by_name(OptionKey::MaxRounds);
    law_options_are_found_by_name(OptionKey::FinalCltv);
}

/// A name stands for an option exactly where it is that option's own.
pub proof fn law_names_stand_for_one_option(name: Seq<char>)
    ensures
        match OptionKey::named(name) {
            Some(key) => key.text() == name,
            None => forall|key: OptionKey| #[trigger] key.text() != name,
        },
{
    assert forall|key: OptionKey| OptionKey::named(name) is None implies #[trigger] key.text()
        != name by {
        law_options_are_found_by_name(key);
    }
}

/// A value is an integer where it is one that fits 64 bits, or the text
/// of one.
pub proof fn law_integers_are_read_from_numbers_and_texts(n: u64, m: i64, s: String)
    ensures
        n < 0x8000_0000_0000_0000 ==> config_integer(Json::Uint(n)) == Some(n as int),
        n >= 0x8000_0000_0000_0000 ==> config_integer(Json::Uint(n)) is None,
        config_integer(Json::Int(m)) == Some(m as int),
        config_integer(Json::Str(s)) == text::signed_i64(s@),
        config_integer(Json::Null) is None,
        config_integer(Json::Bool(true)) is None,
{
}

/// A change is made exactly where it names an option and gives it an
/// integer that is not negative and not below the option's least; the
/// value is then that integer.  Otherwise it is refused for the first of
/// these that it lacks.
pub proof fn law_changes_are_made_where_they_fit(v: Json)
    ensures
        ({
            let r = config_request(v);
            let n = config_integer(v.at("val"@));
            match v.at("config"@) {
                Json::Str(s) => {
                    &&& r is Ok <==> n is Some && n->0 >= 0 && OptionKey::named(s@) is Some && n->0
                        >= OptionKey::named(s@)->0.least()
                    &&& r matches Ok((key, value)) ==> key.text() == s@ && value == n->0
                    &&& n is None ==> r == Err::<(OptionKey, u64), ConfigErrorView>(
                        ConfigErrorView::NotInteger(s@),
                    )
                    &&& n is Some && n->0 < 0 ==> r == Err::<(OptionKey, u64), ConfigErrorView>(
                        ConfigErrorView::Negative(s@),
                    )
                    &&& n is Some && n->0 >= 0 && OptionKey::named(s@) is None ==> r == Err::<
                        (OptionKey, u64),
                        ConfigErrorView,
                    >(ConfigErrorView::Unknown(s@))
                    &&& n == Some(0int) && (s@ == "xrebalance-max-rounds"@ || s@
                        == "xrebalance-final-cltv"@) ==> r == Err::<
                        (OptionKey, u64),
                        ConfigErrorView,
                    >(ConfigErrorView::TooSmall(s@))
                },
                _ => r == Err::<(OptionKey, u64), ConfigErrorView>(ConfigErrorView::MissingName),
            }
        }),
{
    law_options_have_their_names();
    if let Json::Str(s) = v.at("config"@) {
        law_names_stand_for_one_option(s@);
        lemma_config_integer_fits(v.at("val"@));
    }
}

proof fn lemma_config_integer_fits(v: Json)
    ensures
        config_integer(v) matches Some(n) ==> i64::MIN <= n <= i64::MAX,
{
}

/// The plugin starts exactly where no value is negative and the rounds
/// and the cltv delta are at least one, and then with the values given.
pub proof fn law_startup_takes_sound_values(s: StartupValues)
    ensures
        startup_refusal(s) is None <==> s.constraint_age >= 0 && s.override_age >= 0 && s.part_wait
            >= 0 && s.min_part >= 0 && s.max_rounds >= 1 && s.final_cltv >= 1,
        match startup_refusal(s) {
            Some(ConfigErrorView::MustBePositive(OptionKey::ConstraintAge)) => s.constraint_age < 0,
            Some(ConfigErrorView::MustBePositive(OptionKey::OverrideAge)) => s.override_age < 0,
            Some(ConfigErrorView::MustBePositive(OptionKey::PartWait)) => s.part_wait < 0,
            Some(ConfigErrorView::MustNotBeNegative(OptionKey::MinPart)) => s.min_part < 0,
            Some(ConfigErrorView::MustBeAtLeastOne(OptionKey::MaxRounds)) => s.max_rounds < 1,
            Some(ConfigErrorView::MustBeAtLeastOne(OptionKey::FinalCltv)) => s.final_cltv < 1,
            Some(_) => false,
            None => true,
        },
{
}

/// The defaults are values the plugin starts with: six hours, an hour,
/// half a minute, a thousand sat, fifty rounds and forty blocks.
pub proof fn law_defaults_are_sound()
    ensures
        DEFAULT_CONSTRAINT_AGE == 6 * 3_600,
        DEFAULT_OVERRIDE_AGE == 3_600,
        DEFAULT_PART_WAIT == 30,
        DEFAULT_MIN_PART == 1_000 * 1_000,
        DEFAULT_MAX_ROUNDS == 50,
        DEFAULT_FINAL_CLTV == 40,
{
}

/// The value of each option is its own.
pub proof fn law_settings_keep_each_option_apart(s: Settings)
    ensures
        s.value(OptionKey::ConstraintAge) == s.constraint_age,
        s.value(OptionKey::OverrideAge) == s.override_age,
        s.value(OptionKey::PartWait) == s.part_wait_secs,
        s.value(OptionKey::MinPart) == s.min_part_msat,
        s.value(OptionKey::MaxRounds) == s.max_rounds,
        s.value(OptionKey::FinalCltv) == s.final_cltv,
        s.valid() <==> s.max_rounds >= 1 && s.final_cltv >= 1,
{
    if s.max_rounds >= 1 && s.final_cltv >= 1 {
        assert forall|key: OptionKey| #[trigger] s.value(key) >= key.least() by {}
    }
    if s.valid() {
        assert(s.value(OptionKey::MaxRounds) >= OptionKey::MaxRounds.least());
        assert(s.value(OptionKey::FinalCltv) >= OptionKey::FinalCltv.least());
    }
}

/// The stores follow the options exactly where the coalescer's buckets
/// are those of the constraint age and the overrides expire after the
/// override age.
pub proof fn law_stores_follow_their_options(
    settings: Settings,
    coalescer: coalesce::CoalescerView,
    overrides: OverridesView,
)
    ensures
        in_step(settings, coalescer, overrides) <==> {
            &&& settings.constraint_age >= 12 ==> 12 * coalescer.bucket_secs
                <= settings.constraint_age < 12 * (coalescer.bucket_secs + 1)
            &&& settings.constraint_age < 12 ==> coalescer.bucket_secs == 1
            &&& overrides.max_age == settings.override_age
        },
{
    coalesce::law_buckets_are_a_twelfth(settings.constraint_age);
}

/// The refusals as they are told: each names the option.
pub proof fn law_config_refusals_in_words(s: Seq<char>, key: OptionKey)
    ensures
        ConfigErrorView::MissingName.message() == "setconfig: missing config name"@,
        ConfigErrorView::NotInteger(s).message() == s + ": value is not an integer"@,
        ConfigErrorView::Negative(s).message() == s + " must not be negative"@,
        ConfigErrorView::TooSmall(s).message() == s + " must be at least 1"@,
        ConfigErrorView::Unknown(s).message() == "unknown dynamic option "@ + s,
        ConfigErrorView::MustBePositive(key).message() == key.text() + " must be positive"@,
        ConfigErrorView::MustNotBeNegative(key).message() == key.text() + " must not be negative"@,
        ConfigErrorView::MustBeAtLeastOne(key).message() == key.text() + " must be at least 1"@,
{
}

} // verus!
