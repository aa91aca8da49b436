//! Channel specs: the elements of `sources` and `destinations`.
//!
//! Each element names one of our channels and may cap how much this
//! request moves through it -- at most `max_msat` drawn from a
//! source (fees included: the cap bounds what crosses the channel),
//! at most `max_msat` delivered into a destination.  A cap bounds
//! the whole request: the round loop (rounds.rs) draws it down by
//! what earlier rounds committed through the channel, so partial
//! deliveries never add up past it.  Within a round the effective
//! bound is the smaller of the remaining cap and the channel's live
//! liquidity (plan.rs asserts the cap as an askrene constraint;
//! constraint intersection does the min).
//!
//! Two spellings parse to the same thing:
//!
//!   "845123x1x0"                            no cap
//!   "845123x1x0:250000"                     cap, msat
//!   "845123x1x0:250sat"                     cap, sat/msat suffixes
//!   {"scid": "845123x1x0", "max_msat": N}   object form
//!
//! The string form is for humans at a CLI; programs composing JSON
//! anyway (CLBOSS) should prefer the object form.

use crate::json::Json;
use crate::text;
use crate::text::{has_char, parse_unsigned, same_text, split_once, strip_suffix};
use vstd::hash_set::*;
use vstd::prelude::*;
use vstd::string::*;

verus! {

/// One element of `sources` or `destinations`.
#[derive(Debug, PartialEq, Eq)]
pub struct ChanSpec {
    pub scid: String,
    pub max_msat: Option<u64>,
}

/// A channel spec with its name as characters.
pub struct ChanSpecView {
    pub scid: Seq<char>,
    pub max_msat: Option<u64>,
}

impl View for ChanSpec {
    type V = ChanSpecView;

    open spec fn view(&self) -> ChanSpecView {
        ChanSpecView { scid: self.scid@, max_msat: self.max_msat }
    }
}

impl Clone for ChanSpec {
    fn clone(&self) -> (r: Self)
        ensures
            r == *self,
    {
        ChanSpec { scid: self.scid.clone(), max_msat: self.max_msat }
    }
}

/// Why a channel spec was refused.
#[derive(Debug, PartialEq, Eq)]
pub enum SpecError {
    /// Nothing before the ':'.
    MissingScid(String),
    /// Nothing after the ':'.
    MissingLimit(String),
    /// More than one ':'.
    ExtraColon(String),
    /// The limit is not an integer with a known suffix.
    InvalidLimit(String),
    /// The limit does not fit in msat.
    LimitOverflow(String),
    /// A member other than `scid` and `max_msat`.
    UnknownField(String),
    /// No `scid` string.
    NeedsScid,
    /// `max_msat` is not a non-negative integer.
    BadMax(String),
    /// Neither a string nor an object.
    WrongType,
}

/// A refusal with its text as characters.
pub enum SpecErrorView {
    MissingScid(Seq<char>),
    MissingLimit(Seq<char>),
    ExtraColon(Seq<char>),
    InvalidLimit(Seq<char>),
    LimitOverflow(Seq<char>),
    UnknownField(Seq<char>),
    NeedsScid,
    BadMax(Seq<char>),
    WrongType,
}

impl View for SpecError {
    type V = SpecErrorView;

    open spec fn view(&self) -> SpecErrorView {
        match self {
            SpecError::MissingScid(s) => SpecErrorView::MissingScid(s@),
            SpecError::MissingLimit(s) => SpecErrorView::MissingLimit(s@),
            SpecError::ExtraColon(s) => SpecErrorView::ExtraColon(s@),
            SpecError::InvalidLimit(s) => SpecErrorView::InvalidLimit(s@),
            SpecError::LimitOverflow(s) => SpecErrorView::LimitOverflow(s@),
            SpecError::UnknownField(s) => SpecErrorView::UnknownField(s@),
            SpecError::NeedsScid => SpecErrorView::NeedsScid,
            SpecError::BadMax(s) => SpecErrorView::BadMax(s@),
            SpecError::WrongType => SpecErrorView::WrongType,
        }
    }
}

impl SpecErrorView {
    /// The refusal in words.
    pub open spec fn message(self) -> Seq<char> {
        match self {
            SpecErrorView::MissingScid(s) => "\""@ + s + "\": missing scid before ':'"@,
            SpecErrorView::MissingLimit(s) => "\""@ + s + "\": missing limit after ':'"@,
            SpecErrorView::ExtraColon(s) => "\""@ + s + "\": more than one ':'"@,
            SpecErrorView::InvalidLimit(s) => "invalid limit \""@ + s + "\""@,
            SpecErrorView::LimitOverflow(s) => "limit \""@ + s + "\" overflows msat"@,
            SpecErrorView::UnknownField(s) => "unknown field \""@ + s
                + "\" (expected scid, max_msat)"@,
            SpecErrorView::NeedsScid => "channel object needs a \"scid\" string"@,
            SpecErrorView::BadMax(s) => s + ": max_msat must be a non-negative integer"@,
            SpecErrorView::WrongType =>
                "each channel is a string \"scid[:limit]\" or an object {\"scid\": ..., \"max_msat\": ...}"@,
        }
    }
}

fn quoted(before: &str, s: &str, after: &str) -> (r: String)
    ensures
        r@ == before@ + s@ + after@,
{
    let mut out = before.to_owned();
    out.append(s);
    out.append(after);
    out
}

impl SpecError {
    /// The refusal in words.
    pub fn message(&self) -> (r: String)
        ensures
            r@ == self@.message(),
    {
        match self {
            SpecError::MissingScid(s) => quoted("\"", s, "\": missing scid before ':'"),
            SpecError::MissingLimit(s) => quoted("\"", s, "\": missing limit after ':'"),
            SpecError::ExtraColon(s) => quoted("\"", s, "\": more than one ':'"),
            SpecError::InvalidLimit(s) => quoted("invalid limit \"", s, "\""),
            SpecError::LimitOverflow(s) => quoted("limit \"", s, "\" overflows msat"),
            SpecError::UnknownField(s) => quoted(
                "unknown field \"",
                s,
                "\" (expected scid, max_msat)",
            ),
            SpecError::NeedsScid => "channel object needs a \"scid\" string".to_owned(),
            SpecError::BadMax(s) => {
                let mut out = s.clone();
                out.append(": max_msat must be a non-negative integer");
                out
            },
            SpecError::WrongType =>
                "each channel is a string \"scid[:limit]\" or an object {\"scid\": ..., \"max_msat\": ...}".to_owned(),
        }
    }
}

/// A parse outcome with its texts as characters.
pub open spec fn outcome(r: Result<ChanSpec, SpecError>) -> Result<ChanSpecView, SpecErrorView> {
    match r {
        Ok(s) => Ok(s@),
        Err(e) => Err(e@),
    }
}

/// A limit's digits and what one unit is worth in msat.
pub open spec fn limit_parts(text: Seq<char>) -> (Seq<char>, nat) {
    if "msat"@.is_suffix_of(text) {
        (text.take(text.len() - "msat"@.len()), 1)
    } else if "sat"@.is_suffix_of(text) {
        (text.take(text.len() - "sat"@.len()), 1000)
    } else {
        (text, 1)
    }
}

/// The msat a limit stands for.
pub open spec fn limit_value(text: Seq<char>) -> Result<u64, SpecErrorView> {
    let (digits, mult) = limit_parts(text);
    match text::unsigned_upto(digits, u64::MAX as nat) {
        None => Err(SpecErrorView::InvalidLimit(text)),
        Some(n) => if n * mult <= u64::MAX {
            Ok((n * mult) as u64)
        } else {
            Err(SpecErrorView::LimitOverflow(text))
        },
    }
}

/// What the string form `s` stands for.
pub open spec fn string_form(s: Seq<char>) -> Result<ChanSpecView, SpecErrorView> {
    match text::split_at_first(s, ':') {
        None => Ok(ChanSpecView { scid: s, max_msat: None }),
        Some((scid, limit)) => if scid.len() == 0 {
            Err(SpecErrorView::MissingScid(s))
        } else if limit.len() == 0 {
            Err(SpecErrorView::MissingLimit(s))
        } else if limit.contains(':') {
            Err(SpecErrorView::ExtraColon(s))
        } else {
            match limit_value(limit) {
                Ok(n) => Ok(ChanSpecView { scid, max_msat: Some(n) }),
                Err(e) => Err(e),
            }
        },
    }
}

/// The first member that is neither `scid` nor `max_msat`.
pub open spec fn first_unknown(m: Seq<(String, Json)>) -> Option<Seq<char>>
    decreases m.len(),
{
    if m.len() == 0 {
        None
    } else if m[0].0@ != "scid"@ && m[0].0@ != "max_msat"@ {
        Some(m[0].0@)
    } else {
        first_unknown(m.skip(1))
    }
}

/// What the object form with members `m` stands for.
pub open spec fn object_form(v: Json, m: Seq<(String, Json)>) -> Result<
    ChanSpecView,
    SpecErrorView,
> {
    match first_unknown(m) {
        Some(k) => Err(SpecErrorView::UnknownField(k)),
        None => match v.at("scid"@).text() {
            None => Err(SpecErrorView::NeedsScid),
            Some(scid) => match v.at("max_msat"@) {
                Json::Null => Ok(ChanSpecView { scid, max_msat: None }),
                Json::Uint(n) => Ok(ChanSpecView { scid, max_msat: Some(n) }),
                _ => Err(SpecErrorView::BadMax(scid)),
            },
        },
    }
}

/// What a JSON value stands for.
pub open spec fn value_form(v: Json) -> Result<ChanSpecView, SpecErrorView> {
    match v {
        Json::Str(s) => string_form(s@),
        Json::Object(m) => object_form(v, m@),
        _ => Err(SpecErrorView::WrongType),
    }
}

/// The cap, or the largest amount where there is none.
pub open spec fn cap_of(max_msat: Option<u64>) -> u64 {
    match max_msat {
        Some(n) => n,
        None => u64::MAX,
    }
}

/// The smaller of two amounts.
pub open spec fn min_msat(a: u64, b: u64) -> u64 {
    if a <= b {
        a
    } else {
        b
    }
}

impl ChanSpecView {
    /// The channel's usable liquidity under this spec's cap.
    pub open spec fn capped(self, avail_msat: u64) -> u64 {
        min_msat(avail_msat, cap_of(self.max_msat))
    }
}

impl ChanSpec {
    /// The channel's usable liquidity under this spec's cap.
    pub fn capped(&self, avail_msat: u64) -> (r: u64)
        ensures
            r == self@.capped(avail_msat),
            r <= avail_msat,
            self.max_msat is None ==> r == avail_msat,
            self.max_msat matches Some(cap) ==> r <= cap && (r == cap || r == avail_msat),
    {
        match self.max_msat {
            Some(cap) if cap < avail_msat => cap,
            _ => avail_msat,
        }
    }

    /// Read the string form.
    pub fn from_str_form(s: &str) -> (r: Result<Self, SpecError>)
        ensures
            outcome(r) == string_form(s@),
    {
        match split_once(s, ':') {
            None => Ok(ChanSpec { scid: s.to_owned(), max_msat: None }),
            Some((scid, limit)) => {
                if scid.as_str().is_empty() {
                    return Err(SpecError::MissingScid(s.to_owned()));
                }
                if limit.as_str().is_empty() {
                    return Err(SpecError::MissingLimit(s.to_owned()));
                }
                if has_char(limit.as_str(), ':') {
                    return Err(SpecError::ExtraColon(s.to_owned()));
                }
                match parse_limit(limit.as_str()) {
                    Ok(n) => Ok(ChanSpec { scid, max_msat: Some(n) }),
                    Err(e) => Err(e),
                }
            },
        }
    }

    /// Read either form.
    pub fn from_value(v: &Json) -> (r: Result<Self, SpecError>)
        ensures
            outcome(r) == value_form(*v),
    {
        match v {
            Json::Str(s) => Self::from_str_form(s.as_str()),
            Json::Object(m) => {
                let mut i: usize = 0;
                proof {
                    assert(m@.skip(0) =~= m@);
                }
                while i < m.len()
                    invariant
                        i <= m@.len(),
                        *v == Json::Object(*m),
                        first_unknown(m@) == first_unknown(m@.skip(i as int)),
                    decreases m@.len() - i,
                {
                    let k = m[i].0.as_str();
                    if !same_text(k, "scid") && !same_text(k, "max_msat") {
                        return Err(SpecError::UnknownField(k.to_owned()));
                    }
                    proof {
                        assert(m@.skip(i as int).skip(1) =~= m@.skip(i + 1));
                    }
                    i = i + 1;
                }
                let scid = match v.text_at("scid") {
                    Some(s) => s.to_owned(),
                    None => return Err(SpecError::NeedsScid),
                };
                match v.get("max_msat") {
                    None | Some(Json::Null) => Ok(ChanSpec { scid, max_msat: None }),
                    Some(Json::Uint(n)) => Ok(ChanSpec { scid, max_msat: Some(*n) }),
                    Some(_) => Err(SpecError::BadMax(scid)),
                }
            },
            _ => Err(SpecError::WrongType),
        }
    }
}

/// A limit from the string form: plain digits are msat; `msat` and
/// `sat` suffixes are accepted.
pub fn parse_limit(text: &str) -> (r: Result<u64, SpecError>)
    ensures
        match r {
            Ok(n) => limit_value(text@) == Ok::<u64, SpecErrorView>(n),
            Err(e) => limit_value(text@) == Err::<u64, SpecErrorView>(e@),
        },
{
    // Strip `msat` before `sat`: "msat" ends with "sat".
    let (digits, mult): (String, u64) = match strip_suffix(text, "msat") {
        Some(d) => (d, 1),
        None => match strip_suffix(text, "sat") {
            Some(d) => (d, 1000),
            None => (text.to_owned(), 1),
        },
    };
    match parse_unsigned(digits.as_str(), u64::MAX) {
        None => Err(SpecError::InvalidLimit(text.to_owned())),
        Some(n) => match n.checked_mul(mult) {
            Some(v) => Ok(v),
            None => Err(SpecError::LimitOverflow(text.to_owned())),
        },
    }
}

/// Whether the channel at `j` was already named before it.
pub open spec fn repeats_at(specs: Seq<ChanSpec>, j: int) -> bool {
    exists|i: int| 0 <= i < j && #[trigger] specs[i].scid@ == specs[j].scid@
}

/// No channel is named twice.
pub open spec fn all_distinct(specs: Seq<ChanSpec>) -> bool {
    forall|j: int| 0 <= j < specs.len() ==> !#[trigger] repeats_at(specs, j)
}

/// The channel of the first spec at or after `j` that was already named
/// before it.
pub open spec fn first_repeat_from(specs: Seq<ChanSpec>, j: int) -> Option<Seq<char>>
    decreases specs.len() - j,
{
    if j < 0 || j >= specs.len() {
        None
    } else if repeats_at(specs, j) {
        Some(specs[j].scid@)
    } else {
        first_repeat_from(specs, j + 1)
    }
}

/// The first channel that is named again.
pub open spec fn first_repeat(specs: Seq<ChanSpec>) -> Option<Seq<char>> {
    first_repeat_from(specs, 0)
}

/// The first scid appearing twice, if any.  Duplicates would make
/// the per-scid caps ambiguous, so the caller rejects them.
pub fn find_duplicate(specs: &[ChanSpec]) -> (r: Option<&str>)
    ensures
        match r {
            Some(s) => first_repeat(specs@) == Some(s@),
            None => first_repeat(specs@) is None && all_distinct(specs@),
        },
{
    let mut seen = StringHashSet::new();
    for j in 0..specs.len()
        invariant
            forall|s: Seq<char>| #[trigger]
                seen@.contains(s) <==> exists|i: int|
                    0 <= i < j && #[trigger] specs@[i].scid@ == s,
            forall|k: int| 0 <= k < j ==> !#[trigger] repeats_at(specs@, k),
            first_repeat(specs@) == first_repeat_from(specs@, j as int),
    {
        let ghost before = seen@;
        if !seen.insert(specs[j].scid.clone()) {
            proof {
                assert(repeats_at(specs@, j as int));
            }
            return Some(specs[j].scid.as_str());
        }
        proof {
            assert(!repeats_at(specs@, j as int)) by {
                assert(!before.contains(specs@[j as int].scid@));
            }
            assert forall|s: Seq<char>| #[trigger] seen@.contains(s) <==> exists|i: int|
                0 <= i < j + 1 && #[trigger] specs@[i].scid@ == s by {
                if seen@.contains(s) {
                    if s == specs@[j as int].scid@ {
                        assert(specs@[j as int].scid@ == s);
                    } else {
                        assert(before.contains(s));
                    }
                }
                if exists|i: int| 0 <= i < j + 1 && #[trigger] specs@[i].scid@ == s {
                    let i = choose|i: int| 0 <= i < j + 1 && #[trigger] specs@[i].scid@ == s;
                    if i < j {
                        assert(before.contains(s));
                    }
                }
            }
        }
    }
    None
}

proof fn lemma_cut_at_colon(scid: Seq<char>, limit: Seq<char>)
    requires
        !scid.contains(':'),
    ensures
        text::split_at_first(scid + ":"@ + limit, ':') == Some((scid, limit)),
{
    reveal_strlit(":");
    let s = scid + ":"@ + limit;
    s.index_of_first_ensures(':');
    assert(s[scid.len() as int] == ':');
    let k = s.index_of_first(':')->0;
    if k < scid.len() {
        assert(s[k] == scid[k]);
    }
    assert(s.take(k) =~= scid);
    assert(s.skip(k + 1) =~= limit);
}

proof fn lemma_limit_spellings(n: u64)
    ensures
        ({
            let d = text::dec(n as nat);
            &&& d.len() > 0
            &&& !d.contains(':') && !(d + "msat"@).contains(':') && !(d + "sat"@).contains(':')
            &&& limit_parts(d) == (d, 1nat)
            &&& limit_parts(d + "msat"@) == (d, 1nat)
            &&& limit_parts(d + "sat"@) == (d, 1000nat)
            &&& text::unsigned_upto(d, u64::MAX as nat) == Some(n as nat)
        }),
{
    reveal_strlit("msat");
    reveal_strlit("sat");
    let d = text::dec(n as nat);
    text::law_numeral_round_trip(n as nat);
    let last = d.last();
    assert(text::is_digit(last));
    assert forall|i: int| 0 <= i < d.len() implies #[trigger] d[i] != ':' by {
        assert(text::is_digit(d[i]));
    }
    if "msat"@.is_suffix_of(d) {
        assert("msat"@[3] == 't');
        assert(d[d.len() - 1] == 't');
    }
    if "sat"@.is_suffix_of(d) {
        assert("sat"@[2] == 't');
        assert(d[d.len() - 1] == 't');
    }
    let m = d + "msat"@;
    let s = d + "sat"@;
    assert(m.subrange(m.len() - 4, m.len() as int) =~= "msat"@);
    assert(m.take(m.len() - 4) =~= d);
    assert(s.subrange(s.len() - 3, s.len() as int) =~= "sat"@);
    assert(s.take(s.len() - 3) =~= d);
    if "msat"@.is_suffix_of(s) {
        assert(s.subrange(s.len() - 4, s.len() as int)[0] == "msat"@[0]);
        assert(s[s.len() - 4] == last);
    }
}

/// The spellings of a cap agree: digits, digits with `msat`, and the
/// object form stand for the same channel spec; digits with `sat` stand
/// for a thousand times as much, and are refused where that does not
/// fit.
pub proof fn law_spellings_agree(scid: Seq<char>, n: u64, object: Json)
    requires
        scid.len() > 0,
        !scid.contains(':'),
        object matches Json::Object(m) && first_unknown(m@) is None,
        object.at("scid"@).text() == Some(scid),
        object.at("max_msat"@) == Json::Uint(n),
    ensures
        ({
            let named = Ok::<ChanSpecView, SpecErrorView>(
                ChanSpecView { scid, max_msat: Some(n) },
            );
            let d = text::dec(n as nat);
            &&& string_form(scid + ":"@ + d) == named
            &&& string_form(scid + ":"@ + (d + "msat"@)) == named
            &&& value_form(object) == named
            &&& string_form(scid + ":"@ + (d + "sat"@)) == if n * 1000 <= u64::MAX {
                Ok::<ChanSpecView, SpecErrorView>(
                    ChanSpecView { scid, max_msat: Some((n * 1000) as u64) },
                )
            } else {
                Err::<ChanSpecView, SpecErrorView>(SpecErrorView::LimitOverflow(d + "sat"@))
            }
            &&& string_form(scid) == Ok::<ChanSpecView, SpecErrorView>(
                ChanSpecView { scid, max_msat: None },
            )
        }),
{
    let d = text::dec(n as nat);
    lemma_limit_spellings(n);
    lemma_cut_at_colon(scid, d);
    lemma_cut_at_colon(scid, d + "msat"@);
    lemma_cut_at_colon(scid, d + "sat"@);
    scid.index_of_first_ensures(':');
}

/// The effective bound is always the smaller of the cap and the live
/// liquidity; a cap of 0 excludes the channel.
pub proof fn law_cap_binds(spec: ChanSpecView, avail_msat: u64)
    ensures
        spec.capped(avail_msat) <= avail_msat,
        spec.max_msat matches Some(cap) ==> spec.capped(avail_msat) <= cap,
        spec.max_msat == Some(0u64) ==> spec.capped(avail_msat) == 0,
        spec.max_msat is None ==> spec.capped(avail_msat) == avail_msat,
{
}

proof fn lemma_first_repeat(specs: Seq<ChanSpec>, j: int)
    requires
        0 <= j,
    ensures
        match first_repeat_from(specs, j) {
            Some(s) => exists|k: int|
                j <= k < specs.len() && #[trigger] repeats_at(specs, k) && specs[k].scid@ == s
                    && forall|l: int| j <= l < k ==> !#[trigger] repeats_at(specs, l),
            None => forall|k: int| j <= k < specs.len() ==> !#[trigger] repeats_at(specs, k),
        },
    decreases specs.len() - j,
{
    if j < specs.len() && !repeats_at(specs, j) {
        lemma_first_repeat(specs, j + 1);
    }
}

/// A channel is reported as a repeat exactly where one is named twice:
/// it is then one of those that are, and no two specs before its second
/// mention name the same channel.
pub proof fn law_repeats_are_found(specs: Seq<ChanSpec>)
    ensures
        match first_repeat(specs) {
            Some(s) => exists|i: int, j: int|
                0 <= i < j < specs.len() && (#[trigger] specs[i]).scid@ == s && (
                #[trigger] specs[j]).scid@ == s && forall|k: int, l: int|
                    0 <= k < l < j ==> (#[trigger] specs[k]).scid@ != (#[trigger] specs[l]).scid@,
            None => forall|i: int, j: int|
                0 <= i < j < specs.len() ==> (#[trigger] specs[i]).scid@ != (
                #[trigger] specs[j]).scid@,
        },
{
    lemma_first_repeat(specs, 0);
    if let Some(s) = first_repeat(specs) {
        let j = choose|k: int|
            0 <= k < specs.len() && #[trigger] repeats_at(specs, k) && specs[k].scid@ == s
                && forall|l: int| 0 <= l < k ==> !#[trigger] repeats_at(specs, l);
        let i = choose|i: int| 0 <= i < j && #[trigger] specs[i].scid@ == specs[j].scid@;
        assert forall|k: int, l: int| 0 <= k < l < j implies (#[trigger] specs[k]).scid@ != (
        #[trigger] specs[l]).scid@ by {
            assert(!repeats_at(specs, l));
        }
        assert(specs[i].scid@ == s && specs[j].scid@ == s);
    } else {
        assert forall|i: int, j: int| 0 <= i < j < specs.len() implies (#[trigger] specs[i]).scid@
            != (#[trigger] specs[j]).scid@ by {
            assert(!repeats_at(specs, j));
        }
    }
}

/// The usable liquidity is one of the two that bound it: nothing is lost
/// where neither binds.
pub proof fn law_cap_is_exact(scid: Seq<char>, cap: u64, avail_msat: u64)
    ensures
        ({
            let capped = ChanSpecView { scid, max_msat: Some(cap) };
            &&& cap <= avail_msat ==> capped.capped(avail_msat) == cap
            &&& avail_msat <= cap ==> capped.capped(avail_msat) == avail_msat
        }),
        (ChanSpecView { scid, max_msat: None }).capped(avail_msat) == avail_msat,
{
}

proof fn lemma_first_unknown(m: Seq<(String, Json)>)
    ensures
        match first_unknown(m) {
            Some(k) => exists|i: int|
                0 <= i < m.len() && (#[trigger] m[i]).0@ == k && k != "scid"@ && k != "max_msat"@,
            None => forall|i: int|
                0 <= i < m.len() ==> (#[trigger] m[i]).0@ == "scid"@ || m[i].0@ == "max_msat"@,
        },
    decreases m.len(),
{
    if m.len() > 0 {
        let rest = m.skip(1);
        lemma_first_unknown(rest);
        if m[0].0@ != "scid"@ && m[0].0@ != "max_msat"@ {
        } else if let Some(k) = first_unknown(rest) {
            let i = choose|i: int|
                0 <= i < rest.len() && (#[trigger] rest[i]).0@ == k && k != "scid"@ && k
                    != "max_msat"@;
            assert(m[i + 1].0@ == k);
        } else {
            assert forall|i: int| 0 <= i < m.len() implies (#[trigger] m[i]).0@ == "scid"@
                || m[i].0@ == "max_msat"@ by {
                if i > 0 {
                    assert(rest[i - 1] == m[i]);
                }
            }
        }
    }
}

/// The object form is taken exactly where it has no other members than
/// its two, a text for the channel, and a non-negative integer or nothing
/// for the cap; it then stands for those.
pub proof fn law_objects_stand_for_their_members(v: Json)
    requires
        v is Object,
    ensures
        value_form(v) is Ok <==> {
            &&& forall|i: int|
                0 <= i < v->Object_0@.len() ==> (#[trigger] v->Object_0@[i]).0@ == "scid"@
                    || v->Object_0@[i].0@ == "max_msat"@
            &&& v.at("scid"@) is Str
            &&& v.at("max_msat"@) is Null || v.at("max_msat"@) is Uint
        },
        value_form(v) matches Ok(s) ==> {
            &&& v.at("scid"@) matches Json::Str(scid) && s.scid == scid@
            &&& v.at("max_msat"@) is Null ==> s.max_msat is None
            &&& v.at("max_msat"@) matches Json::Uint(n) ==> s.max_msat == Some(n)
        },
        value_form(v) == Err::<ChanSpecView, SpecErrorView>(SpecErrorView::NeedsScid) ==> !(v.at(
            "scid"@,
        ) is Str),
        value_form(v) matches Err(SpecErrorView::UnknownField(k)) ==> exists|i: int|
            0 <= i < v->Object_0@.len() && (#[trigger] v->Object_0@[i]).0@ == k && k != "scid"@
                && k != "max_msat"@,
        value_form(v) matches Err(SpecErrorView::BadMax(s)) ==> !(v.at("max_msat"@) is Null
            || v.at("max_msat"@) is Uint),
{
    lemma_first_unknown(v->Object_0@);
}

/// A value that is neither a text nor an object names no channel.
pub proof fn law_other_values_name_nothing(v: Json)
    ensures
        !(v is Str) && !(v is Object) ==> value_form(v) == Err::<ChanSpecView, SpecErrorView>(
            SpecErrorView::WrongType,
        ),
        v matches Json::Str(s) ==> value_form(v) == string_form(s@),
{
}

/// A text is refused where something is missing on either side of its
/// first ':', where it has a second one, and where what follows is not a
/// number; every such refusal names what was refused.
pub proof fn law_faulty_texts_are_refused(scid: Seq<char>, limit: Seq<char>)
    requires
        !scid.contains(':'),
    ensures
        ({
            let s = scid + ":"@ + limit;
            let refused = |e: SpecErrorView| string_form(s) == Err::<ChanSpecView, SpecErrorView>(e);
            &&& scid.len() == 0 ==> refused(SpecErrorView::MissingScid(s))
            &&& scid.len() > 0 && limit.len() == 0 ==> refused(SpecErrorView::MissingLimit(s))
            &&& scid.len() > 0 && limit.contains(':') ==> refused(SpecErrorView::ExtraColon(s))
            &&& scid.len() > 0 && limit.len() > 0 && !limit.contains(':') && !('0' <= limit[0]
                <= '9') && limit[0] != '+' && limit != "msat"@ && limit != "sat"@ ==> refused(
                SpecErrorView::InvalidLimit(limit),
            )
        }),
{
    lemma_cut_at_colon(scid, limit);
    if limit.len() > 0 && !('0' <= limit[0] <= '9') && limit[0] != '+' && limit != "msat"@ && limit
        != "sat"@ {
        let (digits, mult) = limit_parts(limit);
        if digits.len() > 0 {
            assert(digits[0] == limit[0]);
            assert(!text::is_digit(digits[0]));
        } else if "msat"@.is_suffix_of(limit) {
            assert(limit =~= "msat"@);
        } else if "sat"@.is_suffix_of(limit) {
            assert(limit =~= "sat"@);
        }
    }
}

/// Any run of digits is a cap of that many msat, and with `sat` behind it
/// of a thousand times as many; a number that does not fit is refused.
pub proof fn law_any_digits_are_a_cap(scid: Seq<char>, d: Seq<char>)
    requires
        scid.len() > 0,
        !scid.contains(':'),
        d.len() > 0,
        forall|i: int| 0 <= i < d.len() ==> '0' <= #[trigger] d[i] <= '9',
    ensures
        ({
            let n = text::digits_value(d);
            let capped = |m: nat|
                Ok::<ChanSpecView, SpecErrorView>(ChanSpecView { scid, max_msat: Some(m as u64) });
            let (plain, sat) = (string_form(scid + ":"@ + d), string_form(
                scid + ":"@ + (d + "sat"@),
            ));
            &&& n <= u64::MAX ==> plain == capped(n)
            &&& n > u64::MAX ==> plain == Err::<ChanSpecView, SpecErrorView>(
                SpecErrorView::InvalidLimit(d),
            )
            &&& n * 1000 <= u64::MAX ==> sat == capped(n * 1000)
            &&& n * 1000 > u64::MAX ==> sat is Err
        }),
{
    reveal_strlit("msat");
    reveal_strlit("sat");
    lemma_cut_at_colon(scid, d);
    lemma_cut_at_colon(scid, d + "sat"@);
    text::law_any_digits_are_read(d, u64::MAX as nat);
    let s = d + "sat"@;
    let last = d.last();
    assert('0' <= d[d.len() - 1] <= '9');
    if "msat"@.is_suffix_of(d) {
        assert("msat"@[3] == 't');
        assert(d[d.len() - 1] == 't');
    }
    if "sat"@.is_suffix_of(d) {
        assert("sat"@[2] == 't');
        assert(d[d.len() - 1] == 't');
    }
    assert(s.subrange(s.len() - 3, s.len() as int) =~= "sat"@);
    assert(s.take(s.len() - 3) =~= d);
    if "msat"@.is_suffix_of(s) {
        assert(s.subrange(s.len() - 4, s.len() as int)[0] == "msat"@[0]);
        assert(s[s.len() - 4] == last);
    }
    assert forall|i: int| 0 <= i < s.len() implies #[trigger] s[i] != ':' by {
        if i < d.len() {
            assert('0' <= d[i] <= '9');
        } else {
            assert(s[i] == "sat"@[i - d.len()]);
        }
    }
    assert forall|i: int| 0 <= i < d.len() implies #[trigger] d[i] != ':' by {
        assert('0' <= d[i] <= '9');
    }
    assert(!d.contains(':') && !s.contains(':'));
    assert("sat"@.len() == 3 && "msat"@.len() == 4);
    assert("sat"@.is_suffix_of(s));
    assert(limit_parts(d) == (d, 1nat));
    assert(limit_parts(s) == (d, 1000nat));
    let n = text::digits_value(d);
    let (once, thousand) = (limit_parts(d).1, limit_parts(s).1);
    assert(n * once == n && n * thousand == n * 1000) by (nonlinear_arith)
        requires
            once == 1,
            thousand == 1000,
    ;
    if n <= u64::MAX {
        assert(text::unsigned_upto(d, u64::MAX as nat) == Some(n));
        assert(limit_value(d) == Ok::<u64, SpecErrorView>(n as u64));
        if n * 1000 <= u64::MAX {
            assert(limit_value(s) == Ok::<u64, SpecErrorView>((n * 1000) as u64));
        } else {
            assert(limit_value(s) is Err);
        }
    } else {
        assert(text::unsigned_upto(d, u64::MAX as nat) is None);
        assert(limit_value(d) == Err::<u64, SpecErrorView>(SpecErrorView::InvalidLimit(d)));
        assert(limit_value(s) is Err);
    }
}

/// The refusals as they are told: each names what was refused.
pub proof fn law_spec_refusals_in_words(s: Seq<char>)
    ensures
        SpecErrorView::MissingScid(s).message() == seq!['"'] + s + "\": missing scid before ':'"@,
        SpecErrorView::MissingLimit(s).message() == seq!['"'] + s + "\": missing limit after ':'"@,
        SpecErrorView::ExtraColon(s).message() == seq!['"'] + s + "\": more than one ':'"@,
        SpecErrorView::InvalidLimit(s).message() == "invalid limit \""@ + s + seq!['"'],
        SpecErrorView::LimitOverflow(s).message() == "limit \""@ + s + "\" overflows msat"@,
        SpecErrorView::UnknownField(s).message() == "unknown field \""@ + s
            + "\" (expected scid, max_msat)"@,
        SpecErrorView::NeedsScid.message() == "channel object needs a \"scid\" string"@,
        SpecErrorView::BadMax(s).message() == s + ": max_msat must be a non-negative integer"@,
        SpecErrorView::WrongType.message()
            == "each channel is a string \"scid[:limit]\" or an object {\"scid\": ..., \"max_msat\": ...}"@,
{
    reveal_strlit("\"");
    assert("\""@ =~= seq!['"']);
}

} // verus!
