//! Coalesce redundant askrene-inform-channel writes.
//!
//! Feedback keeps re-learning the same facts: successive parts
//! crossing the same channel-dir report the same bound over and
//! over.  Keep the tightest bound emitted per (scid-dir, kind)
//! within one time bucket and emit only on a new bucket or a
//! tightening.  Dropping a dominated write is lossless: askrene
//! folds a direction's constraints down to one tightest [min,max],
//! so the dropped entry would not have changed any route.
//!
//! The bucket length is a fixed fraction (1/12) of the constraint
//! aging window (xrebalance-constraint-age), so the once-per-bucket
//! keep-alive re-emit refreshes a still-observed constraint well
//! before it can age out, whatever the configured aging value.

use crate::table::Table;
use vstd::prelude::*;

verus! {

/// Buckets per aging window.
pub const WINDOW_DIVISOR: u64 = 12;

/// Buckets an idle entry is kept for: the aging window, and a few more
/// to cover any still-active entry.
pub const KEEP_BUCKETS: u64 = 16;

/// Emits between two sweeps of the cache.
pub const SWEEP_EMITS: u64 = 4096;

/// The tightest bound accepted by askrene for one key in its most
/// recent bucket.
#[derive(Debug, Clone, Copy)]
pub struct InformObs {
    pub bucket: u64,
    pub tightest_msat: u64,
}

/// An accepted bound, and whether its bucket is one of the current
/// width.
#[derive(Debug, Clone, Copy)]
pub struct Entry {
    pub obs: InformObs,
    pub current: bool,
}

/// Whether an observation goes out, given what was last accepted.
pub open spec fn emits(
    prior: Option<InformObs>,
    bucket: u64,
    amount_msat: u64,
    is_lower_bound: bool,
) -> bool {
    match prior {
        None => true,
        Some(p) => {
            ||| p.bucket != bucket
            ||| if is_lower_bound {
                amount_msat > p.tightest_msat
            } else {
                amount_msat < p.tightest_msat
            }
        },
    }
}

/// The coalescing decision: emit on the first observation for a
/// key, on a bucket change (the keep-alive against layer aging), or
/// when the observation tightens the recorded bound.  A lower bound
/// (unconstrained: the channel passed this much) tightens upward;
/// an upper bound (constrained: it could not) tightens downward.
pub fn should_emit(
    prior: Option<&InformObs>,
    bucket: u64,
    amount_msat: u64,
    is_lower_bound: bool,
) -> (r: bool)
    ensures
        r == emits(
            match prior {
                Some(p) => Some(*p),
                None => None,
            },
            bucket,
            amount_msat,
            is_lower_bound,
        ),
        prior is None ==> r,
        prior matches Some(p) ==> (r <==> bucket != p.bucket || (is_lower_bound && amount_msat
            > p.tightest_msat) || (!is_lower_bound && amount_msat < p.tightest_msat)),
{
    match prior {
        None => true,
        Some(p) => {
            if p.bucket != bucket {
                true
            } else if is_lower_bound {
                amount_msat > p.tightest_msat
            } else {
                amount_msat < p.tightest_msat
            }
        },
    }
}

/// The bucket length for an aging window: a twelfth of it, and at
/// least one second.
pub open spec fn bucket_width(aging_secs: u64) -> u64 {
    if aging_secs / WINDOW_DIVISOR >= 1 {
        aging_secs / WINDOW_DIVISOR
    } else {
        1
    }
}

/// What a coalescer holds.
pub struct CoalescerView {
    pub bucket_secs: u64,
    pub cache: Map<Seq<char>, Entry>,
    pub emits: u64,
}

impl CoalescerView {
    /// What was last recorded for `key` in buckets of the current width.
    pub open spec fn prior(self, key: Seq<char>) -> Option<InformObs> {
        if self.cache.contains_key(key) && self.cache[key].current {
            Some(self.cache[key].obs)
        } else {
            None
        }
    }

    /// The bucket an instant falls into.
    pub open spec fn bucket(self, now_secs: u64) -> u64 {
        now_secs / self.bucket_secs
    }

    /// Whether a write goes out now.
    pub open spec fn lets_through(
        self,
        key: Seq<char>,
        now_secs: u64,
        amount_msat: u64,
        is_lower_bound: bool,
    ) -> bool {
        emits(self.prior(key), self.bucket(now_secs), amount_msat, is_lower_bound)
    }

    /// The entries not idle past the kept window.
    pub open spec fn swept(self, now_bucket: u64) -> Map<Seq<char>, Entry> {
        self.cache.restrict(
            self.cache.dom().filter(
                |k: Seq<char>| self.cache[k].obs.bucket + KEEP_BUCKETS >= now_bucket,
            ),
        )
    }

    /// The coalescer after letting a write through: one more emit, and a
    /// sweep at every multiple of [`SWEEP_EMITS`].
    pub open spec fn after_emit(self, now_secs: u64) -> CoalescerView {
        CoalescerView {
            bucket_secs: self.bucket_secs,
            cache: if (self.emits + 1) % (SWEEP_EMITS as int) == 0 {
                self.swept(self.bucket(now_secs))
            } else {
                self.cache
            },
            emits: if self.emits < u64::MAX {
                (self.emits + 1) as u64
            } else {
                0
            },
        }
    }

    /// The coalescer after an accepted write.
    pub open spec fn recorded(self, key: Seq<char>, bucket: u64, amount_msat: u64) -> CoalescerView {
        CoalescerView {
            cache: self.cache.insert(
                key,
                Entry { obs: InformObs { bucket, tightest_msat: amount_msat }, current: true },
            ),
            ..self
        }
    }

    /// The coalescer under an aging window.  Where that changes the
    /// bucket length, the entries stay with their bucket numbers, and
    /// none of them counts any more.
    pub open spec fn with_aging(self, aging_secs: u64) -> CoalescerView {
        if bucket_width(aging_secs) == self.bucket_secs {
            self
        } else {
            CoalescerView {
                bucket_secs: bucket_width(aging_secs),
                cache: self.cache.map_values(|e: Entry| Entry { current: false, ..e }),
                ..self
            }
        }
    }
}

/// The coalescing cache.
pub struct Coalescer {
    bucket_secs: u64,
    pub cache: Table<Entry>,
    emits: u64,
}

impl View for Coalescer {
    type V = CoalescerView;

    closed spec fn view(&self) -> CoalescerView {
        CoalescerView { bucket_secs: self.bucket_secs, cache: self.cache@, emits: self.emits }
    }
}

impl Coalescer {
    /// Buckets are at least a second long.
    pub closed spec fn wf(&self) -> bool {
        self.bucket_secs >= 1 && self.cache.wf()
    }

    /// `aging_secs` is the constraint aging window; buckets are
    /// aging/12, floored at 1s so a pathological aging value cannot
    /// produce zero-length buckets.
    pub fn new(aging_secs: u64) -> (r: Self)
        ensures
            r.wf(),
            r@ == (CoalescerView {
                bucket_secs: bucket_width(aging_secs),
                cache: Map::empty(),
                emits: 0,
            }),
    {
        Coalescer { bucket_secs: width_of(aging_secs), cache: Table::new(), emits: 0 }
    }

    /// Track a changed aging window (dynamic option).  Existing
    /// cache entries keep bucket numbers from the old width, which say
    /// nothing of buckets of the new one; the next check does not count
    /// them and re-emits, which is the safe direction.
    pub fn set_aging(&mut self, aging_secs: u64)
        requires
            old(self).wf(),
        ensures
            final(self).wf(),
            final(self)@ == old(self)@.with_aging(aging_secs),
    {
        let width: u64 = width_of(aging_secs);
        if width != self.bucket_secs {
            self.bucket_secs = width;
            let outdated = |e: &Entry| -> (r: Entry)
                ensures
                    r == (Entry { current: false, ..*e }),
                { Entry { obs: e.obs, current: false } };
            self.cache.replace_values(outdated, Ghost(|e: Entry| Entry { current: false, ..e }));
        }
    }

    /// Decide whether a write for `key` goes out now.  Returns the
    /// current bucket, to hand to `record` once askrene accepts the
    /// write, or None to suppress.
    pub fn check(
        &mut self,
        key: &str,
        now_secs: u64,
        amount_msat: u64,
        is_lower_bound: bool,
    ) -> (r: Option<u64>)
        requires
            old(self).wf(),
        ensures
            final(self).wf(),
            old(self)@.lets_through(key@, now_secs, amount_msat, is_lower_bound) ==> r == Some(
                old(self)@.bucket(now_secs),
            ) && final(self)@ == old(self)@.after_emit(now_secs),
            !old(self)@.lets_through(key@, now_secs, amount_msat, is_lower_bound) ==> r is None
                && final(self)@ == old(self)@,
            r is None ==> old(self)@.cache.contains_key(key@) && {
                let held = old(self)@.cache[key@].obs;
                &&& held.bucket == now_secs / old(self)@.bucket_secs
                &&& is_lower_bound ==> amount_msat <= held.tightest_msat
                &&& !is_lower_bound ==> amount_msat >= held.tightest_msat
            },
    {
        let bucket: u64 = now_secs / self.bucket_secs;
        let prior = match self.cache.get(key) {
            Some(e) if e.current => Some(&e.obs),
            _ => None,
        };
        if !should_emit(prior, bucket, amount_msat, is_lower_bound) {
            return None;
        }
        self.emits = if self.emits < u64::MAX {
            self.emits + 1
        } else {
            0
        };
        if self.emits % SWEEP_EMITS == 0 {
            self.prune(bucket);
        }
        Some(bucket)
    }

    /// Record a write askrene accepted.  Recording at `check` time
    /// instead would let a rejected write leave the cache claiming
    /// the bound was written, suppressing equal-or-looser rewrites
    /// for the rest of the bucket while the layer never learned it.
    /// Two racing parts may both pass `check` and write twice;
    /// askrene folds the duplicate, which is the safe side.
    pub fn record(&mut self, key: &str, bucket: u64, amount_msat: u64)
        requires
            old(self).wf(),
        ensures
            final(self).wf(),
            final(self)@ == old(self)@.recorded(key@, bucket, amount_msat),
    {
        self.cache.insert(
            key,
            Entry { obs: InformObs { bucket, tightest_msat: amount_msat }, current: true },
        );
    }

    /// Entries held, for stats.
    pub fn len(&self) -> (r: usize)
        requires
            self.wf(),
        ensures
            self@.cache.dom().finite(),
            r == self@.cache.len(),
    {
        self.cache.len()
    }

    /// Drop entries idle past the aging window, so the cache does
    /// not grow with the set of channel-dirs seen over the process
    /// lifetime.  Amortised: swept once per 4096 emits.
    fn prune(&mut self, now_bucket: u64)
        requires
            old(self).wf(),
        ensures
            final(self).wf(),
            final(self)@ == (CoalescerView { cache: old(self)@.swept(now_bucket), ..old(self)@ }),
    {
        let ghost p = |e: Entry| e.obs.bucket + KEEP_BUCKETS >= now_bucket;
        let keep = |e: &Entry| -> (b: bool)
            ensures
                b == (e.obs.bucket + KEEP_BUCKETS >= now_bucket),
            { e.obs.bucket.saturating_add(KEEP_BUCKETS) >= now_bucket };
        let ghost before = self.cache@;
        self.cache.retain(keep, Ghost(p));
        proof {
            assert(before.dom().filter(|k: Seq<char>| p(before[k])) =~= before.dom().filter(
                |k: Seq<char>| before[k].obs.bucket + KEEP_BUCKETS >= now_bucket,
            ));
        }
    }
}

fn width_of(aging_secs: u64) -> (r: u64)
    ensures
        r == bucket_width(aging_secs),
        r >= 1,
{
    let w: u64 = aging_secs / WINDOW_DIVISOR;
    if w >= 1 {
        w
    } else {
        1
    }
}

/// The one bound two observations of a direction fold down to.
pub open spec fn folded(a_msat: u64, b_msat: u64, is_lower_bound: bool) -> u64 {
    if is_lower_bound == (a_msat >= b_msat) {
        a_msat
    } else {
        b_msat
    }
}

/// Dropping a suppressed write is lossless: folding it into the bound
/// already accepted leaves that bound as it is.
pub proof fn law_dropped_write_is_dominated(
    prior: InformObs,
    bucket: u64,
    amount_msat: u64,
    is_lower_bound: bool,
)
    requires
        !emits(Some(prior), bucket, amount_msat, is_lower_bound),
    ensures
        folded(prior.tightest_msat, amount_msat, is_lower_bound) == prior.tightest_msat,
{
}

/// Within a bucket, a recorded bound lets exactly the tighter
/// observations of its key through, and leaves every other key as it
/// was.
pub proof fn law_recorded_bound_suppresses(
    c: CoalescerView,
    key: Seq<char>,
    bucket: u64,
    recorded_msat: u64,
    other: Seq<char>,
    now_secs: u64,
    amount_msat: u64,
    is_lower_bound: bool,
)
    requires
        c.bucket(now_secs) == bucket,
    ensures
        c.recorded(key, bucket, recorded_msat).lets_through(
            key,
            now_secs,
            amount_msat,
            is_lower_bound,
        ) == if is_lower_bound {
            amount_msat > recorded_msat
        } else {
            amount_msat < recorded_msat
        },
        other != key ==> c.recorded(key, bucket, recorded_msat).lets_through(
            other,
            now_secs,
            amount_msat,
            is_lower_bound,
        ) == c.lets_through(other, now_secs, amount_msat, is_lower_bound),
{
}

/// Letting a write through changes no later decision: only `record`
/// suppresses, and a sweep drops nothing that would have suppressed.
pub proof fn law_only_record_suppresses(
    c: CoalescerView,
    now_secs: u64,
    key: Seq<char>,
    later_secs: u64,
    amount_msat: u64,
    is_lower_bound: bool,
)
    requires
        c.bucket_secs >= 1,
        later_secs >= now_secs,
    ensures
        c.after_emit(now_secs).lets_through(key, later_secs, amount_msat, is_lower_bound)
            == c.lets_through(key, later_secs, amount_msat, is_lower_bound),
{
    let d = c.bucket_secs as int;
    vstd::arithmetic::div_mod::lemma_div_is_ordered(now_secs as int, later_secs as int, d);
}

/// An observation a bucket length or more after the recorded one goes
/// out, whatever it says, and a bucket is shorter than any aging window
/// of two seconds or more: a still-observed constraint is rewritten
/// before it can age out.  From twelve seconds on, twelve bucket
/// lengths fit into the window.
pub proof fn law_keep_alive(
    aging_secs: u64,
    c: CoalescerView,
    key: Seq<char>,
    recorded_at: u64,
    recorded_msat: u64,
    now_secs: u64,
    amount_msat: u64,
    is_lower_bound: bool,
)
    requires
        c.bucket_secs == bucket_width(aging_secs),
        now_secs >= recorded_at + c.bucket_secs,
    ensures
        c.recorded(key, c.bucket(recorded_at), recorded_msat).lets_through(
            key,
            now_secs,
            amount_msat,
            is_lower_bound,
        ),
        aging_secs >= 2 ==> c.bucket_secs < aging_secs,
        aging_secs >= WINDOW_DIVISOR ==> c.bucket_secs * WINDOW_DIVISOR <= aging_secs,
{
    let d = c.bucket_secs as int;
    assert((recorded_at + d) / d == recorded_at as int / d + 1) by (nonlinear_arith)
        requires
            d >= 1,
    ;
    vstd::arithmetic::div_mod::lemma_div_is_ordered(recorded_at + d, now_secs as int, d);
}

/// A changed aging window re-emits: where it changes the bucket length,
/// no entry recorded before suppresses any observation made after,
/// whenever it is made and whatever it says, and no entry is lost.
pub proof fn law_changed_width_re_emits(
    c: CoalescerView,
    aging_secs: u64,
    key: Seq<char>,
    now_secs: u64,
    amount_msat: u64,
    is_lower_bound: bool,
)
    requires
        bucket_width(aging_secs) != c.bucket_secs,
    ensures
        c.with_aging(aging_secs).lets_through(key, now_secs, amount_msat, is_lower_bound),
        c.with_aging(aging_secs).cache.dom() == c.cache.dom(),
{
    assert(c.with_aging(aging_secs).cache.dom() =~= c.cache.dom());
}

/// A bucket is a twelfth of the aging window, rounded down, and never
/// shorter than a second.
pub proof fn law_buckets_are_a_twelfth(aging_secs: u64)
    ensures
        ({
            let w = bucket_width(aging_secs);
            &&& w >= 1
            &&& aging_secs >= 12 ==> 12 * w <= aging_secs < 12 * (w + 1)
            &&& aging_secs < 12 ==> w == 1
        }),
{
}

/// The first observation of a key goes out, whatever it says; so does one
/// in another bucket than the recorded one.  In the same bucket a lower
/// bound goes out exactly where it is higher, an upper bound exactly where
/// it is lower.
pub proof fn law_observations_go_out_where_new(
    prior: InformObs,
    bucket: u64,
    amount_msat: u64,
)
    ensures
        emits(None, bucket, amount_msat, true),
        emits(None, bucket, amount_msat, false),
        bucket != prior.bucket ==> emits(Some(prior), bucket, amount_msat, true) && emits(
            Some(prior),
            bucket,
            amount_msat,
            false,
        ),
        bucket == prior.bucket ==> {
            &&& emits(Some(prior), bucket, amount_msat, true) <==> amount_msat > prior.tightest_msat
            &&& emits(Some(prior), bucket, amount_msat, false) <==> amount_msat
                < prior.tightest_msat
        },
{
}

/// Instants fall into buckets by their width: an instant's bucket starts
/// at or before it, and the next one after it.
pub proof fn law_instants_fall_into_their_bucket(c: CoalescerView, now_secs: u64)
    requires
        c.bucket_secs >= 1,
    ensures
        c.bucket(now_secs) * c.bucket_secs <= now_secs < (c.bucket(now_secs) + 1) * c.bucket_secs,
{
    let (n, d) = (now_secs as int, c.bucket_secs as int);
    let q = n / d;
    assert(q * d <= n < (q + 1) * d) by (nonlinear_arith)
        requires
            q == n / d,
            d >= 1,
    ;
}

/// Letting a write through counts one emit and changes no width.  The
/// cache is swept at every 4096th emit and at no other; a sweep drops
/// exactly the entries that are more than 16 buckets behind, and leaves
/// the others as they are.
pub proof fn law_sweeps_drop_what_is_idle(c: CoalescerView, now_secs: u64, key: Seq<char>)
    requires
        c.emits < u64::MAX,
    ensures
        ({
            let after = c.after_emit(now_secs);
            let swept = (c.emits + 1) % 4096 == 0;
            let idle = c.cache[key].obs.bucket + 16 < c.bucket(now_secs);
            &&& after.emits == c.emits + 1
            &&& after.bucket_secs == c.bucket_secs
            &&& after.cache.contains_key(key) <==> c.cache.contains_key(key) && !(swept && idle)
            &&& after.cache.contains_key(key) ==> after.cache[key] == c.cache[key]
        }),
{
}

/// An accepted write is remembered under its key, in its bucket and with
/// its amount, and nothing else changes; what was remembered for a key is
/// what the next decision for it compares with.
pub proof fn law_accepted_writes_are_remembered(
    c: CoalescerView,
    key: Seq<char>,
    bucket: u64,
    amount_msat: u64,
    other: Seq<char>,
)
    ensures
        ({
            let after = c.recorded(key, bucket, amount_msat);
            &&& after.prior(key) == Some(InformObs { bucket, tightest_msat: amount_msat })
            &&& other != key ==> after.prior(other) == c.prior(other)
            &&& after.cache.dom() == c.cache.dom().insert(key)
            &&& after.bucket_secs == c.bucket_secs
            &&& after.emits == c.emits
            &&& !c.cache.contains_key(other) ==> c.prior(other) is None
        }),
{
}

/// An aging window that keeps the bucket length changes nothing; one that
/// changes it sets the new length and leaves the emits as they are.
pub proof fn law_aging_sets_the_width(c: CoalescerView, aging_secs: u64)
    ensures
        c.with_aging(aging_secs).bucket_secs == bucket_width(aging_secs),
        c.with_aging(aging_secs).emits == c.emits,
        bucket_width(aging_secs) == c.bucket_secs ==> c.with_aging(aging_secs) == c,
{
}

/// A key that nothing was recorded for is let through, whatever is
/// observed of it and whenever.
pub proof fn law_new_keys_are_let_through(
    c: CoalescerView,
    key: Seq<char>,
    now_secs: u64,
    amount_msat: u64,
    is_lower_bound: bool,
)
    requires
        !c.cache.contains_key(key),
    ensures
        c.lets_through(key, now_secs, amount_msat, is_lower_bound),
{
}

} // verus!
