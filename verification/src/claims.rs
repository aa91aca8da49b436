//! Claiming our own parts as they come home.
//!
//! Each part is an independent payment with its own hash and secret, so
//! a claim has exactly one job: it is consumed when its HTLC is
//! settled, and dropped when its part terminally fails.

use crate::channels;
use crate::json::Json;
use crate::outside;
use crate::outside::{hex_encode, sha256_digest};
use crate::table::Table;
use crate::text::same_text;
use vstd::prelude::*;
use vstd::string::*;

verus! {

/// Claim-table entries older than this are pruned (a part cannot
/// outlive its HTLC by this much).
pub const CLAIM_MAX_AGE_SECS: u64 = 86_400;

/// A registered self-payment part we will claim on arrival.  One
/// entry serves exactly one HTLC (parts are independent payments
/// with their own hashes), so the entry is CONSUMED when claimed,
/// and dropped when its part terminally fails.  The 24h prune is the
/// backstop for parts whose watcher was lost.
pub struct Claim {
    pub preimage: String,
    pub payment_secret: String,
    /// What the part delivers: a smaller HTLC is not settled.
    pub amount_msat: u64,
    pub created: u64,
}

/// A claim with its texts as characters.
pub struct ClaimView {
    pub preimage: Seq<char>,
    pub payment_secret: Seq<char>,
    pub amount_msat: u64,
    pub created: u64,
}

impl View for Claim {
    type V = ClaimView;

    open spec fn view(&self) -> ClaimView {
        ClaimView {
            preimage: self.preimage@,
            payment_secret: self.payment_secret@,
            amount_msat: self.amount_msat,
            created: self.created,
        }
    }
}

/// The payment hash of a preimage, both in hexadecimal.
pub open spec fn opens(preimage: Seq<char>, payment_hash: Seq<char>) -> bool {
    outside::hex_decoded(preimage) matches Some(b) && payment_hash == outside::hex_encoded(
        outside::sha256(b),
    )
}

/// The claims, by payment hash.
pub struct Claims {
    table: Table<Claim>,
}

impl View for Claims {
    type V = Map<Seq<char>, ClaimView>;

    closed spec fn view(&self) -> Map<Seq<char>, ClaimView> {
        self.table@.map_values(|c: Claim| c@)
    }
}

/// What a new part is sent with.
#[derive(Debug)]
pub struct Registered {
    pub payment_hash: String,
    pub payment_secret: String,
}

/// What to do with an HTLC.
#[derive(Debug, PartialEq, Eq)]
pub enum HtlcDecision {
    /// Settle it with this preimage.
    Resolve { payment_key: String },
    /// Pass it down the hook chain untouched.
    Continue,
}

/// The claim a preimage and a secret stand for.
pub open spec fn claim_for(
    preimage: Seq<u8>,
    secret: Seq<u8>,
    amount_msat: u64,
    now: u64,
) -> ClaimView {
    ClaimView {
        preimage: outside::hex_encoded(preimage),
        payment_secret: outside::hex_encoded(secret),
        amount_msat,
        created: now,
    }
}

/// Whether an htlc_accepted call is for one of our parts: the hash is
/// registered, the secret is its own, and the HTLC offers at least what
/// the part delivers -- releasing the preimage against a short HTLC
/// would let the last-hop peer claim the full amount upstream.
pub open spec fn is_ours(claims: Map<Seq<char>, ClaimView>, v: Json) -> bool {
    match v.at("htlc"@).at("payment_hash"@).text() {
        None => false,
        Some(hash) => claims.contains_key(hash) && v.at("onion"@).at("payment_secret"@).text()
            == Some(claims[hash].payment_secret) && channels::uint_or_zero(
            v.at("htlc"@).at("amount_msat"@),
        ) >= claims[hash].amount_msat,
    }
}

/// The claims left once an htlc_accepted call was answered.
pub open spec fn after_htlc(claims: Map<Seq<char>, ClaimView>, v: Json) -> Map<
    Seq<char>,
    ClaimView,
> {
    if is_ours(claims, v) {
        claims.remove(v.at("htlc"@).at("payment_hash"@).text()->0)
    } else {
        claims
    }
}

/// The oldest creation time that is kept.
pub open spec fn claim_cutoff(now: u64) -> int {
    if now >= CLAIM_MAX_AGE_SECS {
        now - CLAIM_MAX_AGE_SECS
    } else {
        0
    }
}

impl Claims {
    /// Every claim's preimage opens the hash it is registered under.
    pub closed spec fn wf(&self) -> bool {
        &&& self.table.wf()
        &&& forall|k: Seq<char>| #[trigger]
            self.table@.contains_key(k) ==> opens(self.table@[k].preimage@, k)
    }

    /// Every registered preimage opens the hash it is registered under.
    pub proof fn law_claims_open_their_hash(&self, hash: Seq<char>)
        requires
            self.wf(),
            self@.contains_key(hash),
        ensures
            opens(self@[hash].preimage, hash),
    {
        assert(self.table@.contains_key(hash));
    }

    /// No claims.
    pub fn new() -> (r: Self)
        ensures
            r.wf(),
            r@ == Map::<Seq<char>, ClaimView>::empty(),
    {
        let r = Claims { table: Table::new() };
        proof {
            assert(r@ =~= Map::<Seq<char>, ClaimView>::empty());
        }
        r
    }

    /// How many parts are still in flight.
    pub fn len(&self) -> (r: usize)
        requires
            self.wf(),
        ensures
            self@.dom().finite(),
            r == self@.len(),
    {
        proof {
            assert(self@.dom() =~= self.table@.dom());
        }
        self.table.len()
    }

    /// Register a part under the hash of its preimage.
    pub fn register(
        &mut self,
        preimage: &[u8; 32],
        secret: &[u8; 32],
        amount_msat: u64,
        now: u64,
    ) -> (r: Registered)
        requires
            old(self).wf(),
        ensures
            final(self).wf(),
            r.payment_hash@ == outside::hex_encoded(outside::sha256(preimage@)),
            r.payment_secret@ == outside::hex_encoded(secret@),
            final(self)@ == old(self)@.insert(
                r.payment_hash@,
                claim_for(preimage@, secret@, amount_msat, now),
            ),
    {
        let digest = sha256_digest(preimage.as_slice());
        let payment_hash = hex_encode(digest.as_slice());
        let payment_secret = hex_encode(secret.as_slice());
        let claim = Claim {
            preimage: hex_encode(preimage.as_slice()),
            payment_secret: payment_secret.clone(),
            amount_msat,
            created: now,
        };
        proof {
            outside::law_hex_round_trip(preimage@);
        }
        self.table.insert(payment_hash.as_str(), claim);
        proof {
            assert(self@ =~= old(self)@.insert(
                payment_hash@,
                claim_for(preimage@, secret@, amount_msat, now),
            ));
        }
        Registered { payment_hash, payment_secret }
    }

    /// Drop a part's claim once it can no longer arrive (terminal
    /// failure; the HTLC has fully unwound).  Successful parts consume
    /// their claim on arrival instead.
    pub fn drop_claim(&mut self, payment_hash: &str)
        requires
            old(self).wf(),
        ensures
            final(self).wf(),
            final(self)@ == old(self)@.remove(payment_hash@),
    {
        let _ = self.table.remove(payment_hash);
        proof {
            assert(self@ =~= old(self)@.remove(payment_hash@));
        }
    }

    /// Drop the claims that are too old to be of use.
    pub fn prune(&mut self, now: u64)
        requires
            old(self).wf(),
        ensures
            final(self).wf(),
            final(self)@ == old(self)@.restrict(
                old(self)@.dom().filter(
                    |k: Seq<char>| old(self)@[k].created >= claim_cutoff(now),
                ),
            ),
            forall|k: Seq<char>| #[trigger]
                final(self)@.contains_key(k) <==> old(self)@.contains_key(k) && now
                    <= old(self)@[k].created + 86_400,
    {
        let cutoff: u64 = now.saturating_sub(CLAIM_MAX_AGE_SECS);
        let fresh = |c: &Claim| -> (b: bool)
            ensures
                b == (c.created >= cutoff),
            { c.created >= cutoff };
        self.table.retain(fresh, Ghost(|c: Claim| c.created >= cutoff));
        proof {
            assert(self@ =~= old(self)@.restrict(
                old(self)@.dom().filter(
                    |k: Seq<char>| old(self)@[k].created >= claim_cutoff(now),
                ),
            ));
        }
    }

    /// Claim arriving parts of our own self-payments: resolve with the
    /// registered preimage when hash AND secret match and the HTLC is
    /// not short, otherwise pass the HTLC down the hook chain
    /// untouched.  A matching entry is consumed -- each part is an
    /// independent payment, so its claim has exactly one job, and
    /// removing it closes the replay surface once the preimage becomes
    /// public along the settled path.
    pub fn htlc_accepted(&mut self, v: &Json) -> (r: HtlcDecision)
        requires
            old(self).wf(),
        ensures
            final(self).wf(),
            final(self)@ == after_htlc(old(self)@, *v),
            match r {
                HtlcDecision::Resolve { payment_key } => {
                    let hash = v.at("htlc"@).at("payment_hash"@).text()->0;
                    &&& is_ours(old(self)@, *v)
                    &&& payment_key@ == old(self)@[hash].preimage
                    &&& opens(payment_key@, hash)
                },
                HtlcDecision::Continue => !is_ours(old(self)@, *v),
            },
            r is Resolve ==> {
                let hash = v.at("htlc"@).at("payment_hash"@).text()->0;
                let claim = old(self)@[hash];
                &&& old(self)@.contains_key(hash)
                &&& v.at("onion"@).at("payment_secret"@).text() == Some(claim.payment_secret)
                &&& claim.amount_msat > 0 ==> (v.at("htlc"@).at("amount_msat"@) matches Json::Uint(
                    offered,
                ) && offered >= claim.amount_msat)
                &&& !final(self)@.contains_key(hash)
            },
    {
        let htlc = match v.get("htlc") {
            Some(h) => h,
            None => return HtlcDecision::Continue,
        };
        let hash = match htlc.text_at("payment_hash") {
            Some(h) => h,
            None => return HtlcDecision::Continue,
        };
        let offered: u64 = match htlc.uint_at("amount_msat") {
            Some(n) => n,
            None => 0,
        };
        let given = match v.get("onion") {
            Some(o) => o.text_at("payment_secret"),
            None => None,
        };
        let ours = match (self.table.get(hash), given) {
            (Some(claim), Some(secret)) => same_text(secret, claim.payment_secret.as_str())
                && offered >= claim.amount_msat,
            _ => false,
        };
        if !ours {
            return HtlcDecision::Continue;
        }
        match self.table.remove(hash) {
            Some(claim) => {
                proof {
                    assert(self@ =~= old(self)@.remove(hash@));
                }
                HtlcDecision::Resolve { payment_key: claim.preimage }
            },
            None => HtlcDecision::Continue,
        }
    }
}

/// A registered part is claimed: an HTLC with its hash and its secret
/// that offers what the part delivers, or more, is ours -- and
/// registering a part changes nothing for an HTLC with another hash.
pub proof fn law_registered_parts_are_claimed(
    claims: Map<Seq<char>, ClaimView>,
    preimage: Seq<u8>,
    secret: Seq<u8>,
    amount_msat: u64,
    now: u64,
    v: Json,
)
    ensures
        ({
            let hash = outside::hex_encoded(outside::sha256(preimage));
            let after = claims.insert(hash, claim_for(preimage, secret, amount_msat, now));
            let given = v.at("htlc"@).at("payment_hash"@).text();
            &&& given == Some(hash) ==> is_ours(after, v) == (v.at("onion"@).at(
                "payment_secret"@,
            ).text() == Some(outside::hex_encoded(secret)) && channels::uint_or_zero(
                v.at("htlc"@).at("amount_msat"@),
            ) >= amount_msat)
            &&& given != Some(hash) ==> is_ours(after, v) == is_ours(claims, v)
        }),
{
}

/// Each claim settles one HTLC: once a hash was claimed, no further HTLC
/// with that hash is settled, and every other part's claim stands.
pub proof fn law_claims_settle_once(claims: Map<Seq<char>, ClaimView>, first: Json, second: Json)
    requires
        is_ours(claims, first),
    ensures
        second.at("htlc"@).at("payment_hash"@).text() == first.at("htlc"@).at(
            "payment_hash"@,
        ).text() ==> !is_ours(after_htlc(claims, first), second),
        second.at("htlc"@).at("payment_hash"@).text() != first.at("htlc"@).at(
            "payment_hash"@,
        ).text() ==> is_ours(after_htlc(claims, first), second) == is_ours(claims, second),
{
}

/// A short HTLC, a wrong secret or an unknown hash settles nothing and
/// costs no claim.
pub proof fn law_strangers_change_nothing(claims: Map<Seq<char>, ClaimView>, v: Json)
    requires
        ({
            let hash = v.at("htlc"@).at("payment_hash"@).text();
            ||| hash is None
            ||| !claims.contains_key(hash->0)
            ||| v.at("onion"@).at("payment_secret"@).text() != Some(
                claims[hash->0].payment_secret,
            )
            ||| channels::uint_or_zero(v.at("htlc"@).at("amount_msat"@))
                < claims[hash->0].amount_msat
        }),
    ensures
        !is_ours(claims, v),
        after_htlc(claims, v) == claims,
{
}

/// Claims are kept for a day: one that was registered up to 86400 seconds
/// ago is not too old, and an older one is.  A new claim is as old as its
/// registration, and opens the hash it is registered under.
pub proof fn law_claims_are_kept_for_a_day(
    preimage: Seq<u8>,
    secret: Seq<u8>,
    amount_msat: u64,
    at: u64,
    now: u64,
)
    ensures
        ({
            let c = claim_for(preimage, secret, amount_msat, at);
            &&& c.created >= claim_cutoff(now) <==> now <= at + 86_400
            &&& c.amount_msat == amount_msat
            &&& c.payment_secret == outside::hex_encoded(secret)
            &&& outside::hex_decoded(c.preimage) == Some(preimage)
            &&& opens(c.preimage, outside::hex_encoded(outside::sha256(preimage)))
        }),
{
    outside::law_hex_round_trip(preimage);
}

/// An HTLC is claimed exactly where its hash is registered, its secret is
/// that part's own, and it offers at least what the part delivers; its
/// claim, and no other, is then used up.
pub proof fn law_htlcs_are_claimed_by_hash_secret_and_amount(
    claims: Map<Seq<char>, ClaimView>,
    v: Json,
    hash: Seq<char>,
    offered_msat: u64,
    other: Seq<char>,
)
    requires
        v.at("htlc"@).at("payment_hash"@) matches Json::Str(s) && s@ == hash,
        v.at("htlc"@).at("amount_msat"@) == Json::Uint(offered_msat),
    ensures
        ({
            let claim = claims[hash];
            let given = v.at("onion"@).at("payment_secret"@);
            let ours = claims.contains_key(hash) && (given matches Json::Str(s) && s@
                == claim.payment_secret) && offered_msat >= claim.amount_msat;
            &&& is_ours(claims, v) <==> ours
            &&& after_htlc(claims, v).contains_key(other) <==> claims.contains_key(other) && !(ours
                && other == hash)
            &&& after_htlc(claims, v).contains_key(other) ==> after_htlc(claims, v)[other]
                == claims[other]
        }),
{
}

/// A preimage opens the hash of the bytes it stands for, and no other.
pub proof fn law_preimages_open_their_own_hash(preimage: Seq<u8>, hash: Seq<char>, s: Seq<char>)
    ensures
        opens(outside::hex_encoded(preimage), hash) <==> hash == outside::hex_encoded(
            outside::sha256(preimage),
        ),
        outside::hex_decoded(s) is None ==> !opens(s, hash),
{
    outside::law_hex_round_trip(preimage);
}

} // verus!
