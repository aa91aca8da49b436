//! Our own channels, as listpeerchannels reports them.

use crate::json::Json;
use crate::table::Table;
use crate::text;
use crate::text::{push_dec, same_text, text_less};
use vstd::prelude::*;
use vstd::string::*;

verus! {

/// One usable channel from listpeerchannels.
#[derive(Debug)]
pub struct Chan<'a> {
    pub peer_id: String,
    pub spendable_msat: u64,
    pub receivable_msat: u64,
    /// The peer's advertised policy toward us, if known.
    pub remote_update: Option<&'a Json>,
    /// The alias the peer assigned for onions naming this channel
    /// (present and required for unannounced channels).
    pub onion_scid: Option<String>,
}

/// A usable channel with its texts as characters.
pub struct ChanView {
    pub peer_id: Seq<char>,
    pub spendable_msat: u64,
    pub receivable_msat: u64,
    pub remote_update: Option<Json>,
    pub onion_scid: Option<Seq<char>>,
}

impl<'a> View for Chan<'a> {
    type V = ChanView;

    open spec fn view(&self) -> ChanView {
        ChanView {
            peer_id: self.peer_id@,
            spendable_msat: self.spendable_msat,
            receivable_msat: self.receivable_msat,
            remote_update: match self.remote_update {
                Some(v) => Some(*v),
                None => None,
            },
            onion_scid: match self.onion_scid {
                Some(s) => Some(s@),
                None => None,
            },
        }
    }
}

/// The non-negative integer a value holds; 0 for anything else.
pub open spec fn uint_or_zero(v: Json) -> u64 {
    match v.uint() {
        Some(n) => n,
        None => 0,
    }
}

/// What a listpeerchannels entry describes, if the channel is usable:
/// CHANNELD_NORMAL, with a scid and a peer.
pub open spec fn usable(ch: Json) -> Option<(Seq<char>, ChanView)> {
    if ch.at("state"@).text() != Some("CHANNELD_NORMAL"@) {
        None
    } else {
        match (ch.at("short_channel_id"@).text(), ch.at("peer_id"@).text()) {
            (Some(scid), Some(peer_id)) => Some(
                (
                    scid,
                    ChanView {
                        peer_id,
                        spendable_msat: uint_or_zero(ch.at("spendable_msat"@)),
                        receivable_msat: uint_or_zero(ch.at("receivable_msat"@)),
                        remote_update: match ch.at("updates"@).at("remote"@) {
                            Json::Object(m) => Some(Json::Object(m)),
                            _ => None,
                        },
                        onion_scid: if ch.at("private"@) == Json::Bool(true) {
                            ch.at("alias"@).at("remote"@).text()
                        } else {
                            None
                        },
                    },
                ),
            ),
            _ => None,
        }
    }
}

/// The usable channels among `entries`, by scid.  A later entry
/// replaces an earlier one of the same scid.
pub open spec fn usable_map(entries: Seq<Json>) -> Map<Seq<char>, ChanView>
    decreases entries.len(),
{
    if entries.len() == 0 {
        Map::empty()
    } else {
        let before = usable_map(entries.drop_last());
        match usable(entries.last()) {
            Some((scid, chan)) => before.insert(scid, chan),
            None => before,
        }
    }
}

/// What a table of channels holds.
pub open spec fn chan_map<'a>(t: Map<Seq<char>, Chan<'a>>) -> Map<Seq<char>, ChanView> {
    t.map_values(|c: Chan<'a>| c@)
}

fn uint_at_or_zero(v: &Json, key: &str) -> (r: u64)
    ensures
        r == uint_or_zero(v.at(key@)),
{
    match v.uint_at(key) {
        Some(n) => n,
        None => 0,
    }
}

fn usable_channel<'a>(ch: &'a Json) -> (r: Option<(&'a str, Chan<'a>)>)
    ensures
        match r {
            Some((scid, chan)) => usable(*ch) == Some((scid@, chan@)),
            None => usable(*ch) is None,
        },
{
    match ch.text_at("state") {
        Some(s) => if !same_text(s, "CHANNELD_NORMAL") {
            return None;
        },
        None => return None,
    }
    let scid = match ch.text_at("short_channel_id") {
        Some(s) => s,
        None => return None,
    };
    let peer_id = match ch.text_at("peer_id") {
        Some(s) => s.to_owned(),
        None => return None,
    };
    let remote_update = match ch.get("updates") {
        Some(u) => u.object_at("remote"),
        None => None,
    };
    let onion_scid = if ch.flag_at("private") {
        match ch.get("alias") {
            Some(a) => match a.text_at("remote") {
                Some(s) => Some(s.to_owned()),
                None => None,
            },
            None => None,
        }
    } else {
        None
    };
    Some(
        (
            scid,
            Chan {
                peer_id,
                spendable_msat: uint_at_or_zero(ch, "spendable_msat"),
                receivable_msat: uint_at_or_zero(ch, "receivable_msat"),
                remote_update,
                onion_scid,
            },
        ),
    )
}

/// Channels we can use, keyed by scid: ours, CHANNELD_NORMAL.  `lpc` is
/// the reply of listpeerchannels.
pub fn usable_channels<'a>(lpc: &'a Json) -> (r: Table<Chan<'a>>)
    ensures
        r.wf(),
        chan_map(r@) == usable_map(lpc.at("channels"@).elements()),
{
    let mut out: Table<Chan<'a>> = Table::new();
    proof {
        assert(chan_map(out@) =~= Map::<Seq<char>, ChanView>::empty());
    }
    if let Some(entries) = lpc.items_at("channels") {
        proof {
            assert(entries@.take(0) =~= seq![]);
        }
        for i in 0..entries.len()
            invariant
                out.wf(),
                chan_map(out@) == usable_map(entries@.take(i as int)),
        {
            let ghost before = out@;
            proof {
                assert(entries@.take(i + 1).drop_last() =~= entries@.take(i as int));
            }
            if let Some((scid, chan)) = usable_channel(&entries[i]) {
                let ghost view = chan@;
                out.insert(scid, chan);
                proof {
                    assert(chan_map(out@) =~= chan_map(before).insert(scid@, view));
                }
            }
        }
        proof {
            assert(entries@.take(entries@.len() as int) =~= entries@);
        }
    }
    out
}

/// BOLT 7 direction: 0 if `from` is the lexicographically lesser id.
pub open spec fn direction(from: Seq<char>, to: Seq<char>) -> u64 {
    if text::lex_less(from, to) {
        0
    } else {
        1
    }
}

/// A channel and a direction through it.
pub open spec fn scidd(scid: Seq<char>, dir: u64) -> Seq<char> {
    scid + "/"@ + text::dec(dir as nat)
}

/// BOLT 7 direction: 0 if `from` is the lexicographically lesser id.
pub fn dir(from: &str, to: &str) -> (r: u64)
    ensures
        r == direction(from@, to@),
        r <= 1,
        r == 0 <==> text::lex_less(from@, to@),
{
    if text_less(from, to) {
        0
    } else {
        1
    }
}

/// The name of a channel and a direction through it.
pub fn scidd_of(scid: &str, dir: u64) -> (r: String)
    ensures
        r@ == scidd(scid@, dir),
{
    let mut out = scid.to_owned();
    out.append("/");
    push_dec(&mut out, dir);
    out
}

/// The two directions of a channel differ, so that closing one never
/// closes the other.
pub proof fn law_directions_differ(a: Seq<char>, b: Seq<char>)
    requires
        a != b,
    ensures
        direction(a, b) != direction(b, a),
    decreases a.len(),
{
    if a.len() > 0 && b.len() > 0 && a[0] == b[0] {
        assert(a =~= seq![a[0]] + a.skip(1));
        assert(b =~= seq![b[0]] + b.skip(1));
        law_directions_differ(a.skip(1), b.skip(1));
    } else if a.len() == 0 && b.len() == 0 {
        assert(a =~= b);
    }
}

/// A direction's name: the channel, a '/' and 0 where it leads from the
/// lesser id to the greater, else 1.
pub proof fn law_directions_are_written(scid: Seq<char>, from: Seq<char>, to: Seq<char>)
    ensures
        direction(from, to) == if text::lex_less(from, to) {
            0u64
        } else {
            1u64
        },
        scidd(scid, direction(from, to)) == scid + if text::lex_less(from, to) {
            "/0"@
        } else {
            "/1"@
        },
{
    reveal_strlit("/");
    reveal_strlit("/0");
    reveal_strlit("/1");
    assert(text::dec(0) =~= seq!['0'] && text::dec(1) =~= seq!['1']);
    if text::lex_less(from, to) {
        assert(scidd(scid, 0) =~= scid + "/0"@);
    } else {
        assert(scidd(scid, 1) =~= scid + "/1"@);
    }
}

/// Names tell channels and directions apart.
pub proof fn law_names_tell_channels_apart(a: Seq<char>, x: u64, b: Seq<char>, y: u64)
    ensures
        x < 10 && y < 10 && scidd(a, x) == scidd(b, y) ==> a == b && x == y,
{
    reveal_strlit("/");
    if x < 10 && y < 10 && scidd(a, x) == scidd(b, y) {
        let s = scidd(a, x);
        let t = scidd(b, y);
        assert(s.len() == a.len() + 2 && t.len() == b.len() + 2);
        assert(a =~= s.take(a.len() as int));
        assert(b =~= t.take(b.len() as int));
        assert(s.last() == text::digit(x as int));
        assert(t.last() == text::digit(y as int));
    }
}

/// A missing number, or anything that is none, counts as zero.
pub proof fn law_missing_numbers_are_zero(v: Json)
    ensures
        v matches Json::Uint(n) ==> uint_or_zero(v) == n,
        !(v is Uint) ==> uint_or_zero(v) == 0,
{
}

/// A channel can be used exactly where it is in its normal state and has
/// a channel id and a peer.  It is then described by the members of its
/// entry: what it can send and receive, the peer's update where there is
/// one, and, for a private channel only, the alias the peer assigned.
pub proof fn law_usable_channels_are_described(ch: Json)
    ensures
        ({
            let normal = ch.at("state"@) matches Json::Str(s) && s@ == "CHANNELD_NORMAL"@;
            usable(ch) is Some <==> normal && ch.at("short_channel_id"@) is Str && ch.at(
                "peer_id"@,
            ) is Str
        }),
        usable(ch) matches Some((scid, chan)) ==> {
            let private = ch.at("private"@) == Json::Bool(true);
            &&& ch.at("short_channel_id"@) matches Json::Str(s) && s@ == scid
            &&& ch.at("peer_id"@) matches Json::Str(s) && s@ == chan.peer_id
            &&& ch.at("spendable_msat"@) matches Json::Uint(n) ==> chan.spendable_msat == n
            &&& ch.at("receivable_msat"@) matches Json::Uint(n) ==> chan.receivable_msat == n
            &&& !(ch.at("spendable_msat"@) is Uint) ==> chan.spendable_msat == 0
            &&& !(ch.at("receivable_msat"@) is Uint) ==> chan.receivable_msat == 0
            &&& chan.remote_update is Some <==> ch.at("updates"@).at("remote"@) is Object
            &&& chan.remote_update matches Some(u) ==> u == ch.at("updates"@).at("remote"@)
            &&& !private ==> chan.onion_scid is None
            &&& private && !(ch.at("alias"@).at("remote"@) is Str) ==> chan.onion_scid is None
            &&& private ==> (ch.at("alias"@).at("remote"@) matches Json::Str(s) ==> chan.onion_scid
                == Some(s@))
        },
{
}

/// Every usable entry is listed under its channel, and nothing else is;
/// of several for one channel the last counts.
pub proof fn law_usable_entries_are_listed(entries: Seq<Json>, scid: Seq<char>)
    ensures
        ({
            let m = usable_map(entries);
            &&& m.contains_key(scid) <==> exists|i: int|
                0 <= i < entries.len() && (#[trigger] usable(entries[i]) matches Some((s, _)) && s
                    == scid)
            &&& m.contains_key(scid) ==> exists|i: int|
                0 <= i < entries.len() && #[trigger] usable(entries[i]) == Some((scid, m[scid]))
                    && forall|j: int|
                    i < j < entries.len() ==> !(#[trigger] usable(entries[j]) matches Some((s, _))
                        && s == scid)
        }),
    decreases entries.len(),
{
    if entries.len() > 0 {
        let rest = entries.drop_last();
        let last = entries.len() - 1;
        law_usable_entries_are_listed(rest, scid);
        assert forall|i: int| 0 <= i < rest.len() implies #[trigger] rest[i] == entries[i] by {}
        let here = usable(entries.last()) matches Some((s, _)) && s == scid;
        if here {
            assert(usable(entries[last]) is Some);
        } else if usable_map(rest).contains_key(scid) {
            let v = usable_map(rest)[scid];
            let i = choose|i: int|
                0 <= i < rest.len() && #[trigger] usable(rest[i]) == Some((scid, v)) && forall|
                    j: int,
                |
                    i < j < rest.len() ==> !(#[trigger] usable(rest[j]) matches Some((s, _)) && s
                        == scid);
            assert(usable(entries[i]) == Some((scid, v)));
            assert forall|j: int| i < j < entries.len() implies !(
            #[trigger] usable(entries[j]) matches Some((s, _)) && s == scid) by {
                if j < last {
                    assert(usable(rest[j]) == usable(entries[j]));
                }
            }
        } else {
            assert forall|i: int| 0 <= i < entries.len() implies !(
            #[trigger] usable(entries[i]) matches Some((s, _)) && s == scid) by {
                if i < last {
                    assert(usable(rest[i]) == usable(entries[i]));
                }
            }
        }
    }
}

} // verus!
