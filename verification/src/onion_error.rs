//! Interpret BOLT 4 onion failures: extract the embedded BOLT 7
//! channel_update, and attribute a FEE_INSUFFICIENT to the side of
//! the erring node actually at fault.

use crate::outside;
use crate::outside::hex_decode;
use vstd::prelude::*;
use vstd::slice::*;

verus! {

/// Parsed channel_update policy fields, as extracted from the
/// payload a BOLT 4 onion failure embeds: the subset
/// askrene-update-channel accepts, plus the bLIP-18 inbound-fee
/// TLV.
#[derive(Debug, Clone, Copy)]
pub struct ChanUpdate {
    pub enabled: bool,
    pub cltv_expiry_delta: u16,
    pub htlc_minimum_msat: u64,
    pub fee_base_msat: u32,
    pub fee_proportional_millionths: u32,
    pub htlc_maximum_msat: u64,
    /// bLIP-18 inbound fees (TLV 55555): (base_msat,
    /// proportional_millionths), both signed.  None when the update
    /// carries no such TLV.
    pub inbound_fee: Option<(i32, i32)>,
}

impl ChanUpdate {
    /// Whether two updates advertise the same outbound policy.
    pub open spec fn agrees(self, other: ChanUpdate) -> bool {
        other == (ChanUpdate { inbound_fee: other.inbound_fee, ..self })
    }

    /// Whether two updates advertise the same outbound policy.  Inbound
    /// fees are not part of it: they cannot be applied to a route.
    pub fn same_policy(&self, other: &ChanUpdate) -> (r: bool)
        ensures
            r == self.agrees(*other),
    {
        self.enabled == other.enabled && self.cltv_expiry_delta == other.cltv_expiry_delta
            && self.htlc_minimum_msat == other.htlc_minimum_msat && self.fee_base_msat
            == other.fee_base_msat && self.fee_proportional_millionths
            == other.fee_proportional_millionths && self.htlc_maximum_msat
            == other.htlc_maximum_msat
    }

    /// The fee the advertised policy asks for forwarding `out_msat`.
    pub open spec fn outbound_fee(self, out_msat: u64) -> int {
        self.fee_base_msat + self.fee_proportional_millionths * out_msat / 1_000_000
    }
}

/// Which side of the erring node a FEE_INSUFFICIENT (0x100c)
/// indicts.  The required fee at the erring node is
/// outbound_fee(outgoing channel) + inbound_fee(incoming channel),
/// but the error names and carries the policy of the OUTGOING
/// channel only.
#[derive(Debug, Clone, Copy, PartialEq, Eq, Structural)]
pub enum FeeFault {
    /// The allocated fee covers the outgoing channel's advertised
    /// policy, or there is no update to compare (a plain
    /// stale-policy failure would carry one): the shortfall is the
    /// INCOMING channel's inbound fee.
    Inbound,
    /// The allocated fee falls short of the advertised outbound
    /// policy: our gossip view of the outgoing channel is stale.
    StaleOutbound,
}

/// The side a FEE_INSUFFICIENT indicts.
pub open spec fn fee_fault(alloc_msat: u64, out_msat: u64, update: Option<ChanUpdate>) -> FeeFault {
    match update {
        None => FeeFault::Inbound,
        Some(cu) => if alloc_msat >= cu.outbound_fee(out_msat) {
            FeeFault::Inbound
        } else {
            FeeFault::StaleOutbound
        },
    }
}

/// Attribute a FEE_INSUFFICIENT.  `alloc_msat` is the fee the route
/// allocated at the erring node (amount in minus amount out);
/// `out_msat` is the amount forwarded over the outgoing channel.
pub fn classify_fee_insufficient(
    alloc_msat: u64,
    out_msat: u64,
    update: Option<&ChanUpdate>,
) -> (r: FeeFault)
    ensures
        r == fee_fault(
            alloc_msat,
            out_msat,
            match update {
                Some(cu) => Some(*cu),
                None => None,
            },
        ),
        update is None ==> r == FeeFault::Inbound,
        update matches Some(cu) ==> (r == FeeFault::Inbound <==> alloc_msat >= cu.fee_base_msat
            + cu.fee_proportional_millionths * out_msat / 1_000_000),
{
    match update {
        None => FeeFault::Inbound,
        Some(cu) => {
            let prop: u128 = cu.fee_proportional_millionths as u128;
            let out: u128 = out_msat as u128;
            assert(prop * out <= 0xffff_ffff * 0xffff_ffff_ffff_ffff) by (nonlinear_arith)
                requires
                    prop <= 0xffff_ffff,
                    out <= 0xffff_ffff_ffff_ffff,
            ;
            let required: u128 = cu.fee_base_msat as u128 + prop * out / 1_000_000;
            if alloc_msat as u128 >= required {
                FeeFault::Inbound
            } else {
                FeeFault::StaleOutbound
            }
        },
    }
}

/// The number a run of bytes denotes, most significant byte first.
pub open spec fn be(s: Seq<u8>) -> nat
    decreases s.len(),
{
    if s.len() == 0 {
        0
    } else {
        be(s.drop_last()) * 256 + s.last() as nat
    }
}

/// 256 to the power `n`.
spec fn span(n: nat) -> nat
    decreases n,
{
    if n == 0 {
        1
    } else {
        256 * span((n - 1) as nat)
    }
}

proof fn lemma_be_bound(s: Seq<u8>)
    ensures
        be(s) < span(s.len()),
    decreases s.len(),
{
    if s.len() > 0 {
        lemma_be_bound(s.drop_last());
    }
}

proof fn lemma_span_values()
    ensures
        span(0) == 1,
        span(1) == 0x100,
        span(2) == 0x1_0000,
        span(3) == 0x100_0000,
        span(4) == 0x1_0000_0000,
        span(5) == 0x100_0000_0000,
        span(6) == 0x1_0000_0000_0000,
        span(7) == 0x100_0000_0000_0000,
        span(8) == 0x1_0000_0000_0000_0000,
{
    reveal_with_fuel(span, 9);
}

/// Read a big-endian unsigned integer of up to 8 bytes.  Caller
/// ensures the read is in-bounds.
pub fn read_be(data: &[u8], offset: usize, nbytes: usize) -> (r: u64)
    requires
        nbytes <= 8,
        offset + nbytes <= data@.len(),
    ensures
        r == be(data@.subrange(offset as int, offset + nbytes)),
        nbytes == 2 ==> r <= 0xffff,
        nbytes == 4 ==> r <= 0xffff_ffff,
{
    let mut v: u64 = 0;
    for i in 0..nbytes
        invariant
            nbytes <= 8,
            offset + nbytes <= data.len(),
            v == be(data@.subrange(offset as int, offset + i)),
    {
        let b = data[offset + i];
        proof {
            let s = data@.subrange(offset as int, offset + i);
            assert(data@.subrange(offset as int, offset + i + 1).drop_last() =~= s);
            lemma_be_bound(s);
            lemma_span_values();
        }
        v = v * 256 + b as u64;
    }
    proof {
        lemma_be_bound(data@.subrange(offset as int, offset + nbytes));
        lemma_span_values();
    }
    v
}

/// The bytes that follow a BigSize's first byte.
pub open spec fn bigsize_tail(first: u8) -> int {
    if first == 0xfd {
        2
    } else if first == 0xfe {
        4
    } else if first == 0xff {
        8
    } else {
        0
    }
}

/// The BOLT 1 BigSize at `pos`: its value and the position after it.
pub open spec fn bigsize_at(data: Seq<u8>, pos: int) -> Option<(nat, int)> {
    if pos < 0 || pos >= data.len() {
        None
    } else {
        let n = bigsize_tail(data[pos]);
        if n == 0 {
            Some((data[pos] as nat, pos + 1))
        } else if pos + 1 + n > data.len() {
            None
        } else {
            Some((be(data.subrange(pos + 1, pos + 1 + n)), pos + 1 + n))
        }
    }
}

/// Read a BOLT 1 BigSize at `pos`, advancing it.  None if
/// truncated.
pub fn read_bigsize(data: &[u8], pos: &mut usize) -> (r: Option<u64>)
    ensures
        match r {
            Some(v) => bigsize_at(data@, *old(pos) as int) == Some((v as nat, *final(pos) as int)),
            None => bigsize_at(data@, *old(pos) as int) is None && *final(pos) == *old(pos),
        },
{
    let at: usize = *pos;
    if at >= data.len() {
        return None;
    }
    let first = data[at];
    let nbytes: usize = match first {
        0xfd => 2,
        0xfe => 4,
        0xff => 8,
        v => {
            *pos = at + 1;
            return Some(v as u64);
        },
    };
    if nbytes > data.len() - at - 1 {
        return None;
    }
    let v: u64 = read_be(data, at + 1, nbytes);
    *pos = at + 1 + nbytes;
    Some(v)
}

/// Where the fixed-layout fields of a channel_update end.
pub const FIXED_LEN: usize = 136;

/// The bLIP-18 inbound-fee TLV type.
pub const INBOUND_FEE_TYPE: u64 = 55555;

/// A 32-bit word read as two's complement.
pub open spec fn signed32(v: nat) -> i32 {
    if v < 0x8000_0000 {
        v as i32
    } else {
        (v - 0x1_0000_0000) as i32
    }
}

/// The first inbound-fee record of eight bytes in the TLV stream that
/// starts at `pos`, where every record before it is whole.
pub open spec fn inbound_tlv(cu: Seq<u8>, pos: int) -> Option<(i32, i32)>
    decreases cu.len() - pos,
{
    if pos < 0 || pos >= cu.len() {
        None
    } else {
        match bigsize_at(cu, pos) {
            None => None,
            Some((ttype, lpos)) => match bigsize_at(cu, lpos) {
                None => None,
                Some((tlen, vpos)) => if tlen > cu.len() - vpos {
                    None
                } else if ttype == INBOUND_FEE_TYPE && tlen == 8 {
                    Some(
                        (
                            signed32(be(cu.subrange(vpos, vpos + 4))),
                            signed32(be(cu.subrange(vpos + 4, vpos + 8))),
                        ),
                    )
                } else {
                    inbound_tlv(cu, vpos + tlen)
                },
            },
        }
    }
}

fn as_signed32(v: u64) -> (r: i32)
    requires
        v <= 0xffff_ffff,
    ensures
        r == signed32(v as nat),
{
    if v < 0x8000_0000 {
        v as i32
    } else {
        (v as i64 - 0x1_0000_0000) as i32
    }
}

/// Scan the trailing TLV stream for bLIP-18 inbound fees (type
/// 55555): value is [i32 base][i32 prop], both signed.
pub fn parse_inbound_tlv(cu: &[u8]) -> (r: Option<(i32, i32)>)
    ensures
        r == inbound_tlv(cu@, FIXED_LEN as int),
{
    let mut pos: usize = FIXED_LEN;
    while pos < cu.len()
        invariant
            inbound_tlv(cu@, FIXED_LEN as int) == inbound_tlv(cu@, pos as int),
        decreases cu@.len() - pos,
    {
        let ttype: u64 = match read_bigsize(cu, &mut pos) {
            Some(v) => v,
            None => return None,
        };
        let tlen: u64 = match read_bigsize(cu, &mut pos) {
            Some(v) => v,
            None => return None,
        };
        // Overflow-safe: pos <= cu.len() (guaranteed by
        // read_bigsize) so the subtraction cannot underflow,
        // whereas pos + tlen can wrap for an attacker-supplied
        // tlen and slip past a `> cu.len()` check.
        if tlen > (cu.len() - pos) as u64 {
            return None;
        }
        if ttype == INBOUND_FEE_TYPE && tlen == 8 {
            let base: u64 = read_be(cu, pos, 4);
            let prop: u64 = read_be(cu, pos + 4, 4);
            return Some((as_signed32(base), as_signed32(prop)));
        }
        pos = pos + tlen as usize;
    }
    None
}

/// The bytes between a failcode and the length of the update it
/// carries; None for a failcode that carries none.
pub open spec fn header_len(failcode: nat) -> Option<int> {
    if failcode == 0x1007 || failcode == 0x100e {
        Some(0)
    } else if failcode == 0x100b || failcode == 0x100c {
        Some(8)
    } else if failcode == 0x100d {
        Some(4)
    } else {
        None
    }
}

/// A channel_update without its optional type prefix.
pub open spec fn without_type(cu: Seq<u8>) -> Seq<u8> {
    if cu.len() >= 2 && cu[0] == 0x01 && cu[1] == 0x02 {
        cu.skip(2)
    } else {
        cu
    }
}

/// The body of the channel_update an onion failure payload embeds.
pub open spec fn embedded_body(b: Seq<u8>) -> Option<Seq<u8>> {
    if b.len() < 4 {
        None
    } else {
        match header_len(be(b.subrange(0, 2))) {
            None => None,
            Some(h) => if b.len() < 2 + h + 2 {
                None
            } else {
                let n = be(b.subrange(2 + h, 2 + h + 2));
                if n == 0 || b.len() < 2 + h + 2 + n {
                    None
                } else {
                    Some(without_type(b.subrange(2 + h + 2, 2 + h + 2 + n)))
                }
            },
        }
    }
}

/// The policy fields of a channel_update body.
pub open spec fn body_fields(cu: Seq<u8>) -> ChanUpdate {
    ChanUpdate {
        enabled: cu[109] & 0x02 == 0,
        cltv_expiry_delta: be(cu.subrange(110, 112)) as u16,
        htlc_minimum_msat: be(cu.subrange(112, 120)) as u64,
        fee_base_msat: be(cu.subrange(120, 124)) as u32,
        fee_proportional_millionths: be(cu.subrange(124, 128)) as u32,
        htlc_maximum_msat: be(cu.subrange(128, 136)) as u64,
        inbound_fee: inbound_tlv(cu, FIXED_LEN as int),
    }
}

/// The policy a channel_update body states, unless it is too short or
/// asks a proportional fee above 100%.
pub open spec fn body_policy(cu: Seq<u8>) -> Option<ChanUpdate> {
    if cu.len() < FIXED_LEN || body_fields(cu).fee_proportional_millionths > 1_000_000 {
        None
    } else {
        Some(body_fields(cu))
    }
}

/// The channel_update an onion failure payload carries.
pub open spec fn payload_update(b: Seq<u8>) -> Option<ChanUpdate> {
    match embedded_body(b) {
        Some(cu) => body_policy(cu),
        None => None,
    }
}

/// Parse a BOLT 4 onion failure payload (the `raw_message` hex from
/// sendpay failure data) and extract the embedded channel_update.
/// None if the hex is malformed, the failcode does not carry a
/// channel_update, the payload is truncated, or the update carries
/// an absurd policy (proportional fee above 100% -- never a policy
/// we would pay).
pub fn parse_chan_update(raw_message_hex: &str) -> (r: Option<ChanUpdate>)
    ensures
        r == match outside::hex_decoded(raw_message_hex@) {
            Some(b) => payload_update(b),
            None => None,
        },
{
    match hex_decode(raw_message_hex) {
        Ok(bytes) => parse_payload(&bytes),
        Err(_) => None,
    }
}

/// Extract the channel_update from the payload's bytes.
///
/// Wire layout for the relevant failcodes:
///
///   2  failcode
///   X  variable per-failcode header:
///        0x1007 / 0x100e:                  0 bytes
///        0x100b / 0x100c (amount):         8 bytes htlc_msat
///        0x100d (cltv):                    4 bytes cltv_expiry
///   2  channel_update length (big-endian)
///   N  channel_update bytes
///
/// The channel_update's 2-byte type prefix 0x0102 is present in
/// CLN-issued channel_updates and absent in LND-pre-v0.18 ones;
/// both forms are accepted.
pub fn parse_payload(bytes: &[u8]) -> (r: Option<ChanUpdate>)
    ensures
        r == payload_update(bytes@),
{
    if bytes.len() < 4 {
        return None;
    }
    let failcode: u64 = read_be(bytes, 0, 2);
    let header: usize = match failcode {
        0x1007 | 0x100e => 0,
        0x100b | 0x100c => 8,
        0x100d => 4,
        _ => return None,
    };
    let pos: usize = 2 + header;
    if bytes.len() < pos + 2 {
        return None;
    }
    let cu_len: usize = read_be(bytes, pos, 2) as usize;
    let at: usize = pos + 2;
    if cu_len == 0 || bytes.len() - at < cu_len {
        return None;
    }
    let mut cu = slice_subrange(bytes, at, at + cu_len);
    // Skip the optional type prefix.
    if cu.len() >= 2 && cu[0] == 0x01 && cu[1] == 0x02 {
        cu = slice_subrange(cu, 2, cu.len());
        proof {
            let whole = bytes@.subrange(at as int, at + cu_len);
            assert(cu@ =~= whole.skip(2));
        }
    }
    parse_body(cu)
}

/// Read the policy fields of a channel_update body.
///
/// Fixed layout: 64 sig + 32 chain_hash + 8
/// short_channel_id + 4 timestamp + 1 message_flags + 1
/// channel_flags + 2 cltv_expiry_delta + 8 htlc_minimum_msat +
/// 4 fee_base_msat + 4 fee_proportional_millionths + 8
/// htlc_maximum_msat = 136.
fn parse_body(cu: &[u8]) -> (r: Option<ChanUpdate>)
    ensures
        r == body_policy(cu@),
        r is Some ==> cu@.len() >= 136,
        r matches Some(p) ==> p.enabled == ((cu@[109] / 2) % 2 == 0),
{
    proof {
        if cu@.len() >= 136 {
            law_the_disable_bit_decides(cu@, 0);
        }
    }
    if cu.len() < FIXED_LEN {
        return None;
    }
    let out = ChanUpdate {
        enabled: cu[109] & 0x02 == 0,
        cltv_expiry_delta: read_be(cu, 110, 2) as u16,
        htlc_minimum_msat: read_be(cu, 112, 8),
        fee_base_msat: read_be(cu, 120, 4) as u32,
        fee_proportional_millionths: read_be(cu, 124, 4) as u32,
        htlc_maximum_msat: read_be(cu, 128, 8),
        inbound_fee: parse_inbound_tlv(cu),
    };
    if out.fee_proportional_millionths > 1_000_000 {
        return None;
    }
    Some(out)
}

/// Two bytes, most significant first.
pub open spec fn be2(n: nat) -> Seq<u8> {
    seq![(n / 256) as u8, (n % 256) as u8]
}

/// An onion failure payload: failcode, header, and a channel_update
/// with its length before it.
pub open spec fn payload(failcode: u16, header: Seq<u8>, cu: Seq<u8>) -> Seq<u8> {
    be2(failcode as nat) + header + be2(cu.len()) + cu
}

proof fn lemma_be2(n: nat)
    requires
        n <= 0xffff,
    ensures
        be(be2(n)) == n,
{
    let s = be2(n);
    reveal_with_fuel(be, 3);
    assert(s.drop_last() =~= seq![(n / 256) as u8]);
    assert(s.drop_last().drop_last() =~= seq![]);
}

/// A payload is read back as the policy of the update that was put into
/// it, whatever the carrying failcode, and as nothing for any other
/// failcode.
pub proof fn law_payload_is_read_back(failcode: u16, header: Seq<u8>, cu: Seq<u8>)
    requires
        0 < cu.len() <= 0xffff,
        header_len(failcode as nat) matches Some(h) ==> header.len() == h,
    ensures
        payload_update(payload(failcode, header, cu)) == if header_len(failcode as nat) is Some {
            body_policy(without_type(cu))
        } else {
            None
        },
{
    let b = payload(failcode, header, cu);
    let h = header.len() as int;
    lemma_be2(failcode as nat);
    lemma_be2(cu.len());
    assert(b.subrange(0, 2) =~= be2(failcode as nat));
    if header_len(failcode as nat) is Some {
        assert(b.subrange(2 + h, 2 + h + 2) =~= be2(cu.len()));
        assert(b.subrange(2 + h + 2, 2 + h + 2 + cu.len()) =~= cu);
    }
}

/// The type prefix is optional: an update body reads the same with it
/// and without it.
pub proof fn law_type_prefix_is_optional(failcode: u16, header: Seq<u8>, body: Seq<u8>)
    requires
        0 < body.len() <= 0xffff - 2,
        header_len(failcode as nat) == Some(header.len() as int),
        without_type(body) == body,
    ensures
        payload_update(payload(failcode, header, seq![0x01u8, 0x02u8] + body)) == payload_update(
            payload(failcode, header, body),
        ),
{
    let prefixed = seq![0x01u8, 0x02u8] + body;
    law_payload_is_read_back(failcode, header, body);
    law_payload_is_read_back(failcode, header, prefixed);
    assert(prefixed.skip(2) =~= body);
}

/// No update that was read asks a proportional fee above 100%, so its
/// fee on any amount is at most that amount and the base fee.
pub proof fn law_read_fee_is_bounded(b: Seq<u8>, out_msat: u64)
    ensures
        match payload_update(b) {
            Some(cu) => cu.fee_proportional_millionths <= 1_000_000 && cu.outbound_fee(out_msat)
                <= cu.fee_base_msat + out_msat,
            None => true,
        },
{
    if let Some(cu) = payload_update(b) {
        let p = cu.fee_proportional_millionths as int;
        assert(p * out_msat <= 1_000_000 * out_msat) by (nonlinear_arith)
            requires
                0 <= p <= 1_000_000,
                out_msat >= 0,
        ;
    }
}

/// Four bytes, most significant first.
pub open spec fn be4(n: u32) -> Seq<u8> {
    seq![
        (n / 0x100_0000) as u8,
        (n / 0x1_0000 % 0x100) as u8,
        (n / 0x100 % 0x100) as u8,
        (n % 0x100) as u8,
    ]
}

proof fn lemma_be4(n: u32)
    ensures
        be(be4(n)) == n,
{
    let s = be4(n);
    reveal_with_fuel(be, 5);
    assert(s.drop_last() =~= s.take(3));
    assert(s.take(3).drop_last() =~= s.take(2));
    assert(s.take(2).drop_last() =~= s.take(1));
    assert(s.take(1).drop_last() =~= seq![]);
}

/// An inbound-fee record behind the fixed fields is read back, whatever
/// follows it: two 32-bit words, both signed.
pub proof fn law_inbound_fee_is_read_back(body: Seq<u8>, base: u32, prop: u32, rest: Seq<u8>)
    requires
        body.len() == FIXED_LEN,
    ensures
        inbound_tlv(
            body + seq![0xfdu8, 0xd9u8, 0x03u8, 8u8] + be4(base) + be4(prop) + rest,
            FIXED_LEN as int,
        ) == Some((signed32(base as nat), signed32(prop as nat))),
{
    let cu = body + seq![0xfdu8, 0xd9u8, 0x03u8, 8u8] + be4(base) + be4(prop) + rest;
    let kind = seq![0xd9u8, 0x03u8];
    lemma_be4(base);
    lemma_be4(prop);
    reveal_with_fuel(be, 3);
    assert(kind.drop_last() =~= seq![0xd9u8]);
    assert(kind.drop_last().drop_last() =~= seq![]);
    assert(be(kind) == INBOUND_FEE_TYPE);
    assert(cu.subrange(137, 139) =~= kind);
    assert(bigsize_at(cu, 136) == Some((INBOUND_FEE_TYPE as nat, 139int)));
    assert(bigsize_at(cu, 139) == Some((8nat, 140int)));
    assert(cu.subrange(140, 144) =~= be4(base));
    assert(cu.subrange(144, 148) =~= be4(prop));
}

/// Whether a channel is enabled is bit 1 of its flags and no other: the
/// update that is read is enabled exactly where that bit of byte 109 is
/// clear, so that flags 0 and 1 read as enabled and 2 and 3 as disabled.
pub proof fn law_the_disable_bit_decides(cu: Seq<u8>, rest: u8)
    requires
        cu.len() >= 136,
    ensures
        body_policy(cu) matches Some(p) ==> p.enabled == ((cu[109] / 2) % 2 == 0),
        body_policy(cu) matches Some(p) ==> (cu[109] == 0 || cu[109] == 1 ==> p.enabled),
        body_policy(cu) matches Some(p) ==> (cu[109] == 2 || cu[109] == 3 ==> !p.enabled),
        body_policy(cu.update(109, rest & 0xfd)) matches Some(p) ==> p.enabled,
        body_policy(cu.update(109, rest | 0x02)) matches Some(p) ==> !p.enabled,
{
    let b = cu[109];
    assert((b & 0x02 == 0) == ((b / 2) % 2 == 0)) by (bit_vector);
    assert((rest & 0xfd) & 0x02 == 0) by (bit_vector);
    assert((rest | 0x02) & 0x02 != 0) by (bit_vector);
}

/// Eight bytes, most significant first.
pub open spec fn be8(n: u64) -> Seq<u8> {
    be4((n / 0x1_0000_0000) as u32) + be4((n % 0x1_0000_0000) as u32)
}

proof fn lemma_be_joined(a: Seq<u8>, b: Seq<u8>)
    ensures
        be(a + b) == be(a) * span(b.len()) + be(b),
    decreases b.len(),
{
    if b.len() == 0 {
        assert(a + b =~= a);
        assert(be(a) * 1 == be(a)) by (nonlinear_arith);
    } else {
        let c = b.drop_last();
        lemma_be_joined(a, c);
        assert((a + b).drop_last() =~= a + c);
        assert((a + b).last() == b.last());
        assert((be(a) * span(c.len()) + be(c)) * 256 == be(a) * span(b.len()) + be(c) * 256)
            by (nonlinear_arith)
            requires
                span(b.len()) == 256 * span(c.len()),
        ;
    }
}

proof fn lemma_be8(n: u64)
    ensures
        be(be8(n)) == n,
{
    let (high, low) = (be4((n / 0x1_0000_0000) as u32), be4((n % 0x1_0000_0000) as u32));
    lemma_be4((n / 0x1_0000_0000) as u32);
    lemma_be4((n % 0x1_0000_0000) as u32);
    lemma_be_joined(high, low);
    lemma_span_values();
    assert(be(high) * span(4) == be(high) * 0x1_0000_0000) by (nonlinear_arith)
        requires
            span(4) == 0x1_0000_0000,
    ;
}

/// Numbers are read most significant byte first: one more byte at the end
/// makes the number 256 times as large and adds the byte.
pub proof fn law_bytes_are_positional(s: Seq<u8>, b: u8)
    ensures
        be(seq![]) == 0,
        be(s.push(b)) == be(s) * 256 + b,
{
    assert(s.push(b).drop_last() =~= s);
}

/// A body with fields written in the order of the wire -- 109 bytes of
/// signature, chain, channel, time and message flags, then the flags, the
/// cltv delta, the minimum, the base fee, the proportional fee and the
/// maximum -- is read back with those fields, whatever follows it.  One
/// that asks a proportional fee above 100% is not read.
pub proof fn law_policies_are_read_back(
    head: Seq<u8>,
    flags: u8,
    cltv: u16,
    min_msat: u64,
    base_msat: u32,
    ppm: u32,
    max_msat: u64,
    tail: Seq<u8>,
)
    requires
        head.len() == 109,
    ensures
        ({
            let cu = head + seq![flags] + be2(cltv as nat) + be8(min_msat) + be4(base_msat) + be4(
                ppm,
            ) + be8(max_msat) + tail;
            match body_policy(cu) {
                Some(p) => {
                    &&& ppm <= 1_000_000
                    &&& p.enabled == ((flags / 2) % 2 == 0)
                    &&& p.cltv_expiry_delta == cltv
                    &&& p.htlc_minimum_msat == min_msat
                    &&& p.fee_base_msat == base_msat
                    &&& p.fee_proportional_millionths == ppm
                    &&& p.htlc_maximum_msat == max_msat
                    &&& p.inbound_fee == inbound_tlv(cu, 136)
                },
                None => ppm > 1_000_000,
            }
        }),
{
    let cu = head + seq![flags] + be2(cltv as nat) + be8(min_msat) + be4(base_msat) + be4(ppm)
        + be8(max_msat) + tail;
    lemma_be2(cltv as nat);
    lemma_be8(min_msat);
    lemma_be4(base_msat);
    lemma_be4(ppm);
    lemma_be8(max_msat);
    assert(cu[109] == flags);
    assert(cu.subrange(110, 112) =~= be2(cltv as nat));
    assert(cu.subrange(112, 120) =~= be8(min_msat));
    assert(cu.subrange(120, 124) =~= be4(base_msat));
    assert(cu.subrange(124, 128) =~= be4(ppm));
    assert(cu.subrange(128, 136) =~= be8(max_msat));
    law_the_disable_bit_decides(cu, 0);
}

/// A body shorter than its fixed fields states nothing.
pub proof fn law_short_bodies_state_nothing(cu: Seq<u8>)
    ensures
        cu.len() < 136 ==> body_policy(cu) is None,
        cu.len() >= 136 ==> (body_policy(cu) is None <==> be(cu.subrange(124, 128)) > 1_000_000),
{
    if cu.len() >= 136 {
        lemma_be_bound(cu.subrange(124, 128));
        lemma_span_values();
    }
}

/// Five failures carry an update, each behind a header of its own length:
/// temporary_channel_failure and expiry_too_soon behind none,
/// amount_below_minimum and fee_insufficient behind eight bytes,
/// incorrect_cltv_expiry behind four.  No other failure carries one.
pub proof fn law_updates_stand_behind_their_header(failcode: u16, header: Seq<u8>, cu: Seq<u8>)
    requires
        0 < cu.len() <= 0xffff,
        cu.len() < 2 || cu[0] != 1 || cu[1] != 2,
    ensures
        ({
            let read = payload_update(payload(failcode, header, cu));
            &&& failcode == 0x1007 && header.len() == 0 ==> read == body_policy(cu)
            &&& failcode == 0x100e && header.len() == 0 ==> read == body_policy(cu)
            &&& failcode == 0x100b && header.len() == 8 ==> read == body_policy(cu)
            &&& failcode == 0x100c && header.len() == 8 ==> read == body_policy(cu)
            &&& failcode == 0x100d && header.len() == 4 ==> read == body_policy(cu)
            &&& failcode != 0x1007 && failcode != 0x100e && failcode != 0x100b && failcode != 0x100c
                && failcode != 0x100d ==> read is None
        }),
{
    let fits = match header_len(failcode as nat) {
        Some(h) => header.len() == h,
        None => true,
    };
    if fits {
        law_payload_is_read_back(failcode, header, cu);
    }
}

/// An update with the type prefix reads as what follows the prefix, even
/// where that looks like another prefix.
pub proof fn law_one_type_prefix_is_taken_off(failcode: u16, header: Seq<u8>, body: Seq<u8>)
    requires
        body.len() <= 0xffff - 2,
        (failcode == 0x1007 || failcode == 0x100e) && header.len() == 0 || (failcode == 0x100b
            || failcode == 0x100c) && header.len() == 8 || failcode == 0x100d && header.len() == 4,
    ensures
        payload_update(payload(failcode, header, seq![1u8, 2u8] + body)) == body_policy(body),
{
    law_payload_is_read_back(failcode, header, seq![1u8, 2u8] + body);
    assert((seq![1u8, 2u8] + body).skip(2) =~= body);
}

/// A payload that ends before its update does carries none, and neither
/// does one whose update is empty.
pub proof fn law_truncated_payloads_carry_nothing(
    failcode: u16,
    header: Seq<u8>,
    announced: u16,
    cu: Seq<u8>,
)
    requires
        cu.len() < announced || announced == 0,
        header_len(failcode as nat) matches Some(h) ==> header.len() == h,
    ensures
        payload_update(be2(failcode as nat) + header + be2(announced as nat) + cu) is None,
{
    let b = be2(failcode as nat) + header + be2(announced as nat) + cu;
    let h = header.len() as int;
    lemma_be2(failcode as nat);
    lemma_be2(announced as nat);
    assert(b.subrange(0, 2) =~= be2(failcode as nat));
    if header_len(failcode as nat) is Some {
        assert(b.subrange(2 + h, 2 + h + 2) =~= be2(announced as nat));
    }
}

/// A BigSize below 253 is one byte; 253, 254 and 255 announce two, four
/// and eight bytes.  Where they are not all there, there is none.
pub proof fn law_bigsizes_are_read_back(before: Seq<u8>, first: u8, n: u64, rest: Seq<u8>)
    ensures
        ({
            let at = before.len() as int;
            let read = |v: Seq<u8>| bigsize_at(before + seq![first] + v + rest, at);
            &&& first < 0xfd ==> read(seq![]) == Some((first as nat, at + 1))
            &&& first == 0xfd && n < 0x1_0000 ==> read(be2(n as nat)) == Some((n as nat, at + 3))
            &&& first == 0xfe && n < 0x1_0000_0000 ==> read(be4(n as u32)) == Some(
                (n as nat, at + 5),
            )
            &&& first == 0xff ==> read(be8(n)) == Some((n as nat, at + 9))
            &&& first == 0xfd && rest.len() < 2 ==> read(seq![]) is None
            &&& first == 0xfe && rest.len() < 4 ==> read(seq![]) is None
            &&& first == 0xff && rest.len() < 8 ==> read(seq![]) is None
            &&& bigsize_at(before, at) is None
        }),
{
    let at = before.len() as int;
    if first == 0xfd && n < 0x1_0000 {
        lemma_be2(n as nat);
        let s = before + seq![first] + be2(n as nat) + rest;
        assert(s[at] == first);
        assert(s.subrange(at + 1, at + 3) =~= be2(n as nat));
    }
    if first == 0xfe && n < 0x1_0000_0000 {
        lemma_be4(n as u32);
        let s = before + seq![first] + be4(n as u32) + rest;
        assert(s[at] == first);
        assert(s.subrange(at + 1, at + 5) =~= be4(n as u32));
    }
    if first == 0xff {
        lemma_be8(n);
        let s = before + seq![first] + be8(n) + rest;
        assert(s[at] == first);
        assert(s.subrange(at + 1, at + 9) =~= be8(n));
    }
    let s = before + seq![first] + Seq::<u8>::empty() + rest;
    assert(s[at] == first);
}

/// A 32-bit word is read as two's complement: the words below 2^31 as
/// they are, the others 2^32 less.
pub proof fn law_words_are_signed(v: u32)
    ensures
        v < 0x8000_0000 ==> signed32(v as nat) == v,
        v >= 0x8000_0000 ==> signed32(v as nat) == v - 0x1_0000_0000,
{
}

/// A record of another type or of another length is skipped: what stands
/// behind it is read as if it were not there.  A record that is not whole
/// ends the reading.
pub proof fn law_other_records_are_skipped(cu: Seq<u8>, pos: int, kind: u8, value: Seq<u8>)
    requires
        0 <= pos < cu.len(),
        kind < 0xfd,
        value.len() < 0xfd,
        cu[pos] == kind,
        pos + 1 < cu.len() ==> cu[pos + 1] == value.len(),
        pos + 2 + value.len() <= cu.len() ==> cu.subrange(pos + 2, pos + 2 + value.len()) == value,
    ensures
        pos + 2 + value.len() <= cu.len() ==> inbound_tlv(cu, pos) == inbound_tlv(
            cu,
            pos + 2 + value.len(),
        ),
        pos + 2 + value.len() > cu.len() ==> inbound_tlv(cu, pos) is None,
        inbound_tlv(cu, cu.len() as int) is None,
{
    assert(bigsize_at(cu, pos) == Some((kind as nat, pos + 1)));
    if pos + 1 < cu.len() {
        assert(bigsize_at(cu, pos + 1) == Some((value.len(), pos + 2)));
    }
}

/// A fee_insufficient is the outgoing channel's exactly where what the
/// route allocated is short of the base fee and the proportional fee,
/// rounded down, of the update it carries; the incoming channel's
/// everywhere else, and where there is no update.
pub proof fn law_a_short_fee_is_stale(alloc_msat: u64, out_msat: u64, cu: ChanUpdate)
    ensures
        fee_fault(alloc_msat, out_msat, None) == FeeFault::Inbound,
        ({
            let fault = fee_fault(alloc_msat, out_msat, Some(cu));
            let over = alloc_msat - cu.fee_base_msat;
            &&& fault == FeeFault::Inbound || fault == FeeFault::StaleOutbound
            &&& fault == FeeFault::Inbound <==> over >= 0 && (over + 1) * 1_000_000
                > cu.fee_proportional_millionths * out_msat
        }),
{
    let prop = cu.fee_proportional_millionths * out_msat;
    assert(0 <= prop) by (nonlinear_arith)
        requires
            prop == cu.fee_proportional_millionths * out_msat,
            0 <= cu.fee_proportional_millionths,
            0 <= out_msat,
    ;
}

/// Two updates agree exactly where they say the same of everything that
/// can be applied to a route, whatever they say of inbound fees.
pub proof fn law_policies_agree_in_what_is_applied(a: ChanUpdate, b: ChanUpdate)
    ensures
        a.agrees(b) <==> {
            &&& a.enabled == b.enabled
            &&& a.cltv_expiry_delta == b.cltv_expiry_delta
            &&& a.htlc_minimum_msat == b.htlc_minimum_msat
            &&& a.fee_base_msat == b.fee_base_msat
            &&& a.fee_proportional_millionths == b.fee_proportional_millionths
            &&& a.htlc_maximum_msat == b.htlc_maximum_msat
        },
        a.agrees(b) == b.agrees(a),
{
}

/// Every record that is whole and is not an inbound fee of eight bytes is
/// skipped, whatever its type and length: the reading goes on behind it.
/// A record that is not whole ends it.
pub proof fn law_any_other_record_is_skipped(
    cu: Seq<u8>,
    pos: int,
    kind: nat,
    lpos: int,
    len: nat,
    vpos: int,
)
    requires
        0 <= pos < cu.len(),
        bigsize_at(cu, pos) == Some((kind, lpos)),
        bigsize_at(cu, lpos) == Some((len, vpos)),
    ensures
        kind != 55_555 || len != 8 ==> (vpos + len <= cu.len() ==> inbound_tlv(cu, pos)
            == inbound_tlv(cu, vpos + len)),
        vpos + len > cu.len() ==> inbound_tlv(cu, pos) is None,
        kind == 55_555 && len == 8 && vpos + 8 <= cu.len() ==> (inbound_tlv(cu, pos) matches Some(
            (base, prop),
        ) && base == signed32(be(cu.subrange(vpos, vpos + 4))) && prop == signed32(
            be(cu.subrange(vpos + 4, vpos + 8)),
        )),
{
}

} // verus!
