//! The wire form of a link-state advertisement: a fixed binary layout of
//! the originator, sequence number, TTL, timestamp and neighbor list, with
//! a proved encode/decode round trip, so that advertisements can ride the
//! data plane as frame payloads.

use vstd::prelude::*;

use crate::bytes_be::lemma_u16_be_round_trip;
use crate::bytes_be::lemma_u32_be_round_trip;
use crate::bytes_be::lemma_u64_be_round_trip;
use crate::bytes_be::spec_u16_be;
use crate::bytes_be::spec_u16_from_be;
use crate::bytes_be::spec_u32_be;
use crate::bytes_be::spec_u32_from_be;
use crate::bytes_be::spec_u64_be;
use crate::bytes_be::spec_u64_from_be;
use crate::bytes_be::u16_from_be_bytes;
use crate::bytes_be::u16_to_be_bytes;
use crate::bytes_be::u32_from_be_bytes;
use crate::bytes_be::u32_to_be_bytes;
use crate::bytes_be::u64_from_be_bytes;
use crate::bytes_be::u64_to_be_bytes;
use crate::config::bytes_to_string;
use crate::errors::CodecError;
use crate::meta::append_bytes;
use crate::meta::copy_range;
use crate::topo_msg::NeighborInfo;
use crate::topo_msg::TopologyUpdate;
use vstd::string::StrSliceExecFns;
use vstd::string::StringSliceAdditionalSpecFns;
use vstd::utf8::decode_utf8;
use vstd::utf8::encode_utf8;
use vstd::utf8::valid_utf8;

verus! {

/// What the wire carries of one neighbor: its address as the characters
/// it spells.
pub ghost struct NeighborView {
    /// Node ID of the neighbor.
    pub node_id: u64,
    /// Cost to reach it.
    pub cost: u32,
    /// The address characters, when one is announced.
    pub addr: Option<Seq<char>>,
}

/// What the wire carries of one advertisement.
pub ghost struct TopologyUpdateView {
    /// The node whose neighbor set this is.
    pub originator_node: u64,
    /// Freshness, compared modularly.
    pub sequence_number: u64,
    /// The originator's neighbors.
    pub neighbors: Seq<NeighborView>,
    /// Flooding time-to-live.
    pub ttl: u8,
    /// Creation time, seconds since the Unix epoch.
    pub timestamp: u64,
}

/// The wire view of a neighbor record.
pub open spec fn spec_neighbor_view(n: NeighborInfo) -> NeighborView {
    NeighborView {
        node_id: n.node_id,
        cost: n.cost,
        addr: match n.addr {
            Some(a) => Some(a@),
            None => None,
        },
    }
}

/// The wire view of an advertisement.
pub open spec fn spec_update_view(u: TopologyUpdate) -> TopologyUpdateView {
    TopologyUpdateView {
        originator_node: u.originator_node,
        sequence_number: u.sequence_number,
        neighbors: u.neighbors@.map_values(|n: NeighborInfo| spec_neighbor_view(n)),
        ttl: u.ttl,
        timestamp: u.timestamp,
    }
}

/// One neighbor on the wire: node ID, cost, then a presence byte followed
/// by the UTF-8 address under a two-byte length when one is announced.
pub open spec fn spec_encode_neighbor(n: NeighborView) -> Seq<u8> {
    spec_u64_be(n.node_id) + spec_u32_be(n.cost) + (match n.addr {
        Some(a) => seq![1u8] + spec_u16_be(encode_utf8(a).len() as u16) + encode_utf8(a),
        None => seq![0u8],
    })
}

/// A neighbor fits the wire exactly when its address, if any, encodes to
/// at most the two-byte length bound.
pub open spec fn spec_neighbor_encodable(n: NeighborView) -> bool {
    match n.addr {
        Some(a) => encode_utf8(a).len() <= u16::MAX,
        None => true,
    }
}

/// The neighbors in order.
pub open spec fn spec_encode_neighbors(ns: Seq<NeighborView>) -> Seq<u8>
    decreases ns.len(),
{
    if ns.len() == 0 {
        Seq::<u8>::empty()
    } else {
        spec_encode_neighbor(ns[0]) + spec_encode_neighbors(ns.drop_first())
    }
}

/// An advertisement fits the wire exactly when its neighbor count fits
/// four bytes and each neighbor fits.
pub open spec fn spec_update_encodable(u: TopologyUpdateView) -> bool {
    &&& u.neighbors.len() <= u32::MAX
    &&& forall|i: int|
        0 <= i < u.neighbors.len() ==> spec_neighbor_encodable(#[trigger] u.neighbors[i])
}

/// The whole advertisement on the wire: originator, sequence number, TTL
/// byte, timestamp, four-byte neighbor count, then the neighbors.
pub open spec fn spec_encode_update(u: TopologyUpdateView) -> Seq<u8> {
    spec_u64_be(u.originator_node) + spec_u64_be(u.sequence_number) + seq![u.ttl] + spec_u64_be(
        u.timestamp,
    ) + spec_u32_be(u.neighbors.len() as u32) + spec_encode_neighbors(u.neighbors)
}

/// What decoding one neighbor at `pos` yields, and where it ends.
pub open spec fn spec_dec_neighbor(s: Seq<u8>, pos: int) -> Option<(NeighborView, int)> {
    if pos < 0 || pos + 13 > s.len() {
        None
    } else {
        let node_id = spec_u64_from_be(s.subrange(pos, pos + 8));
        let cost = spec_u32_from_be(s.subrange(pos + 8, pos + 12));
        let flag = s[pos + 12];
        if flag == 0 {
            Some((NeighborView { node_id, cost, addr: None }, pos + 13))
        } else if flag == 1 {
            if pos + 15 > s.len() {
                None
            } else {
                let alen = spec_u16_from_be(s.subrange(pos + 13, pos + 15)) as int;
                if pos + 15 + alen > s.len() {
                    None
                } else {
                    let ab = s.subrange(pos + 15, pos + 15 + alen);
                    if valid_utf8(ab) {
                        Some(
                            (
                                NeighborView { node_id, cost, addr: Some(decode_utf8(ab)) },
                                pos + 15 + alen,
                            ),
                        )
                    } else {
                        None
                    }
                }
            }
        } else {
            None
        }
    }
}

/// What decoding `count` neighbors in a row at `pos` yields.
pub open spec fn spec_dec_neighbors(s: Seq<u8>, pos: int, count: nat) -> Option<
    (Seq<NeighborView>, int),
>
    decreases count,
{
    if count == 0 {
        Some((Seq::<NeighborView>::empty(), pos))
    } else {
        match spec_dec_neighbor(s, pos) {
            None => None,
            Some((n, p2)) => match spec_dec_neighbors(s, p2, (count - 1) as nat) {
                None => None,
                Some((ns, p3)) => Some((seq![n] + ns, p3)),
            },
        }
    }
}

/// What a whole payload decodes to: the fixed header, then exactly the
/// announced number of neighbors, with nothing left over.
pub open spec fn spec_decode_update(s: Seq<u8>) -> Option<TopologyUpdateView> {
    if s.len() < 29 {
        None
    } else {
        let orig = spec_u64_from_be(s.subrange(0, 8));
        let seqn = spec_u64_from_be(s.subrange(8, 16));
        let ttl = s[16];
        let ts = spec_u64_from_be(s.subrange(17, 25));
        let cnt = spec_u32_from_be(s.subrange(25, 29));
        match spec_dec_neighbors(s, 29, cnt as nat) {
            None => None,
            Some((ns, end)) => {
                if end == s.len() {
                    Some(
                        TopologyUpdateView {
                            originator_node: orig,
                            sequence_number: seqn,
                            neighbors: ns,
                            ttl,
                            timestamp: ts,
                        },
                    )
                } else {
                    None
                }
            },
        }
    }
}

/// Encoding one more neighbor appends its bytes.
pub proof fn lemma_encode_neighbors_snoc(ns: Seq<NeighborView>, i: int)
    requires
        0 <= i < ns.len(),
    ensures
        spec_encode_neighbors(ns.subrange(0, i + 1)) == spec_encode_neighbors(ns.subrange(0, i))
            + spec_encode_neighbor(ns[i]),
    decreases i,
{
    if i == 0 {
        let a = ns.subrange(0, 1);
        assert(a[0] == ns[0]);
        assert(a.drop_first() =~= Seq::<NeighborView>::empty());
        assert(ns.subrange(0, 0) =~= Seq::<NeighborView>::empty());
        assert(spec_encode_neighbors(a) == spec_encode_neighbor(ns[0]) + spec_encode_neighbors(
            a.drop_first(),
        ));
        assert(spec_encode_neighbor(ns[0]) + Seq::<u8>::empty() =~= spec_encode_neighbor(ns[0]));
        assert(Seq::<u8>::empty() + spec_encode_neighbor(ns[0]) =~= spec_encode_neighbor(ns[0]));
    } else {
        let t = ns.drop_first();
        assert(t.subrange(0, i) =~= ns.subrange(1, i + 1));
        assert(t.subrange(0, i - 1) =~= ns.subrange(1, i));
        assert(t[i - 1] == ns[i]);
        lemma_encode_neighbors_snoc(t, i - 1);
        let a = ns.subrange(0, i + 1);
        let b = ns.subrange(0, i);
        assert(a[0] == ns[0] && b[0] == ns[0]);
        assert(a.drop_first() =~= t.subrange(0, i));
        assert(b.drop_first() =~= t.subrange(0, i - 1));
        assert(spec_encode_neighbors(a) == spec_encode_neighbor(ns[0]) + (spec_encode_neighbors(
            t.subrange(0, i - 1),
        ) + spec_encode_neighbor(ns[i])));
        assert(spec_encode_neighbor(ns[0]) + (spec_encode_neighbors(t.subrange(0, i - 1))
            + spec_encode_neighbor(ns[i])) =~= (spec_encode_neighbor(ns[0])
            + spec_encode_neighbors(t.subrange(0, i - 1))) + spec_encode_neighbor(ns[i]));
    }
}

/// Where a neighbor's encoding sits in a larger buffer, decoding at that
/// spot yields that neighbor and ends right after it.
pub proof fn lemma_dec_neighbor_at(s: Seq<u8>, pos: int, n: NeighborView)
    requires
        spec_neighbor_encodable(n),
        0 <= pos,
        pos + spec_encode_neighbor(n).len() <= s.len(),
        s.subrange(pos, pos + spec_encode_neighbor(n).len() as int) == spec_encode_neighbor(n),
    ensures
        spec_dec_neighbor(s, pos) == Some((n, pos + spec_encode_neighbor(n).len())),
{
    lemma_u64_be_round_trip();
    lemma_u32_be_round_trip();
    lemma_u16_be_round_trip();
    let e = spec_encode_neighbor(n);
    let elen = e.len() as int;
    let ea = spec_u64_be(n.node_id);
    let eb = spec_u32_be(n.cost);
    let ec = (match n.addr {
        Some(a) => seq![1u8] + spec_u16_be(encode_utf8(a).len() as u16) + encode_utf8(a),
        None => seq![0u8],
    });
    assert(e == (ea + eb) + ec);
    assert(ea.len() == 8 && eb.len() == 4);
    assert forall|k: int| 0 <= k < elen implies #[trigger] e[k] == s[pos + k] by {
        assert(s.subrange(pos, pos + elen)[k] == s[pos + k]);
    }
    assert forall|j: int| 0 <= j < 8 implies #[trigger] ea[j] == e[j] by {
        assert((ea + eb)[j] == ea[j]);
        assert(((ea + eb) + ec)[j] == (ea + eb)[j]);
    }
    assert forall|j: int| 0 <= j < 4 implies #[trigger] eb[j] == e[8 + j] by {
        assert((ea + eb)[8 + j] == eb[j]);
        assert(((ea + eb) + ec)[8 + j] == (ea + eb)[8 + j]);
    }
    assert forall|j: int| 0 <= j < ec.len() implies #[trigger] ec[j] == e[12 + j] by {
        assert(((ea + eb) + ec)[12 + j] == ec[j]);
    }
    assert(s.subrange(pos, pos + 8) =~= ea);
    assert(spec_u64_from_be(s.subrange(pos, pos + 8)) == n.node_id);
    assert(s.subrange(pos + 8, pos + 12) =~= eb);
    assert(spec_u32_from_be(s.subrange(pos + 8, pos + 12)) == n.cost);
    match n.addr {
        None => {
            assert(elen == 13);
            assert(ec =~= seq![0u8]);
            assert(s[pos + 12] == ec[0] && ec[0] == 0u8);
        },
        Some(a) => {
            let ab = encode_utf8(a);
            let alen = ab.len() as int;
            let el = spec_u16_be(alen as u16);
            assert(el.len() == 2);
            assert(ec == (seq![1u8] + el) + ab);
            assert(ec.len() == 3 + alen && elen == 15 + alen);
            assert(ec[0] == 1u8);
            assert(s[pos + 12] == ec[0]);
            assert forall|j: int| 0 <= j < 2 implies #[trigger] el[j] == ec[1 + j] by {
                assert((seq![1u8] + el)[1 + j] == el[j]);
                assert(((seq![1u8] + el) + ab)[1 + j] == (seq![1u8] + el)[1 + j]);
            }
            assert forall|j: int| 0 <= j < alen implies #[trigger] ab[j] == ec[3 + j] by {
                assert(((seq![1u8] + el) + ab)[3 + j] == ab[j]);
            }
            assert(s.subrange(pos + 13, pos + 15) =~= el);
            assert(spec_u16_from_be(s.subrange(pos + 13, pos + 15)) == alen as u16);
            assert(s.subrange(pos + 15, pos + 15 + alen) =~= ab);
            vstd::utf8::encode_utf8_valid_utf8(a);
            vstd::utf8::encode_utf8_decode_utf8(a);
            assert(decode_utf8(ab) == a);
        },
    }
}

/// Where a run of neighbor encodings sits in a larger buffer, decoding
/// that many neighbors there yields exactly them.
pub proof fn lemma_dec_neighbors_at(s: Seq<u8>, pos: int, ns: Seq<NeighborView>)
    requires
        forall|i: int| 0 <= i < ns.len() ==> spec_neighbor_encodable(#[trigger] ns[i]),
        0 <= pos,
        pos + spec_encode_neighbors(ns).len() <= s.len(),
        s.subrange(pos, pos + spec_encode_neighbors(ns).len() as int) == spec_encode_neighbors(ns),
    ensures
        spec_dec_neighbors(s, pos, ns.len()) == Some(
            (ns, pos + spec_encode_neighbors(ns).len()),
        ),
    decreases ns.len(),
{
    if ns.len() == 0 {
        assert(ns =~= Seq::<NeighborView>::empty());
    } else {
        let e0 = spec_encode_neighbor(ns[0]);
        let er = spec_encode_neighbors(ns.drop_first());
        let whole = spec_encode_neighbors(ns);
        assert(whole == e0 + er);
        assert forall|k: int| 0 <= k < whole.len() implies #[trigger] whole[k] == s[pos + k] by {
            assert(s.subrange(pos, pos + whole.len() as int)[k] == s[pos + k]);
        }
        assert(s.subrange(pos, pos + e0.len() as int) =~= e0);
        lemma_dec_neighbor_at(s, pos, ns[0]);
        let p2 = pos + e0.len() as int;
        assert(s.subrange(p2, p2 + er.len() as int) =~= er) by {
            assert forall|k: int| 0 <= k < er.len() implies #[trigger] er[k] == whole[e0.len()
                + k] by {
                assert((e0 + er)[e0.len() + k] == er[k]);
            }
        }
        assert(forall|i: int|
            0 <= i < ns.drop_first().len() ==> spec_neighbor_encodable(
                #[trigger] ns.drop_first()[i],
            )) by {
            assert(forall|i: int|
                0 <= i < ns.drop_first().len() ==> ns.drop_first()[i] == ns[i + 1]);
        }
        lemma_dec_neighbors_at(s, p2, ns.drop_first());
        assert(seq![ns[0]] + ns.drop_first() =~= ns);
    }
}

/// Decoding an encodable advertisement's encoding yields it back.
pub proof fn lemma_topology_update_round_trip(u: TopologyUpdateView)
    requires
        spec_update_encodable(u),
    ensures
        spec_decode_update(spec_encode_update(u)) == Some(u),
{
    lemma_u64_be_round_trip();
    lemma_u32_be_round_trip();
    let s = spec_encode_update(u);
    let enc_ns = spec_encode_neighbors(u.neighbors);
    assert(s.len() == 29 + enc_ns.len());
    assert(s.subrange(0, 8) =~= spec_u64_be(u.originator_node));
    assert(s.subrange(8, 16) =~= spec_u64_be(u.sequence_number));
    assert(s[16] == u.ttl);
    assert(s.subrange(17, 25) =~= spec_u64_be(u.timestamp));
    assert(s.subrange(25, 29) =~= spec_u32_be(u.neighbors.len() as u32));
    assert(spec_u32_from_be(s.subrange(25, 29)) as nat == u.neighbors.len());
    assert(s.subrange(29, 29 + enc_ns.len() as int) =~= enc_ns);
    lemma_dec_neighbors_at(s, 29, u.neighbors);
}

/// Put an advertisement on the wire. Fails, with `MetaEncode`, exactly
/// when it does not fit the layout: more neighbors than the four-byte
/// count can say, or an address longer than the two-byte length bound.
pub fn encode_topology_update(u: &TopologyUpdate) -> (r: Result<Vec<u8>, CodecError>)
    ensures
        r matches Ok(bytes) ==> (spec_update_encodable(spec_update_view(*u)) && bytes@
            == spec_encode_update(spec_update_view(*u))),
        r is Err <==> !spec_update_encodable(spec_update_view(*u)),
        r is Err ==> r == Err::<Vec<u8>, CodecError>(CodecError::MetaEncode),
{
    let ghost view = spec_update_view(*u);
    proof {
        assert(view.neighbors.len() == u.neighbors@.len());
    }
    if u.neighbors.len() as u64 > u32::MAX as u64 {
        return Err(CodecError::MetaEncode);
    }
    let mut out: Vec<u8> = Vec::new();
    u64_to_be_bytes(u.originator_node, &mut out);
    u64_to_be_bytes(u.sequence_number, &mut out);
    out.push(u.ttl);
    u64_to_be_bytes(u.timestamp, &mut out);
    u32_to_be_bytes(u.neighbors.len() as u32, &mut out);
    let ghost header = out@;
    proof {
        assert(header =~= spec_u64_be(view.originator_node) + spec_u64_be(view.sequence_number)
            + seq![view.ttl] + spec_u64_be(view.timestamp) + spec_u32_be(
            view.neighbors.len() as u32,
        ));
    }
    let count = u.neighbors.len();
    let mut i: usize = 0;
    while i < count
        invariant
            i <= count,
            count == u.neighbors@.len(),
            count == view.neighbors.len(),
            view == spec_update_view(*u),
            view.neighbors.len() <= u32::MAX,
            forall|j: int| 0 <= j < count ==> view.neighbors[j] == spec_neighbor_view(u.neighbors@[j]),
            out@ == header + spec_encode_neighbors(view.neighbors.subrange(0, i as int)),
            forall|j: int| 0 <= j < i ==> spec_neighbor_encodable(#[trigger] view.neighbors[j]),
        decreases count - i,
    {
        let ghost before = out@;
        let n = &u.neighbors[i];
        u64_to_be_bytes(n.node_id, &mut out);
        u32_to_be_bytes(n.cost, &mut out);
        match &n.addr {
            Some(a) => {
                let ab = a.as_str().as_bytes();
                if ab.len() as u64 > u16::MAX as u64 {
                    proof {
                        assert(view.neighbors[i as int].addr == Some(a@));
                        assert(!spec_neighbor_encodable(view.neighbors[i as int]));
                    }
                    return Err(CodecError::MetaEncode);
                }
                out.push(1u8);
                u16_to_be_bytes(ab.len() as u16, &mut out);
                append_bytes(&mut out, ab);
                proof {
                    assert(out@ =~= before + spec_encode_neighbor(view.neighbors[i as int]));
                }
            },
            None => {
                out.push(0u8);
                proof {
                    assert(out@ =~= before + spec_encode_neighbor(view.neighbors[i as int]));
                }
            },
        }
        i = i + 1;
        proof {
            lemma_encode_neighbors_snoc(view.neighbors, i - 1);
            assert(out@ =~= header + spec_encode_neighbors(
                view.neighbors.subrange(0, i as int),
            ));
        }
    }
    proof {
        assert(view.neighbors.subrange(0, count as int) =~= view.neighbors);
        assert(out@ =~= spec_encode_update(view));
    }
    Ok(out)
}

/// Read an advertisement back off the wire: exactly what
/// `spec_decode_update` says the bytes hold, or nothing when they hold no
/// advertisement.
pub fn decode_topology_update(bytes: &[u8]) -> (r: Option<TopologyUpdate>)
    ensures
        match r {
            Some(u) => spec_decode_update(bytes@) == Some(spec_update_view(u)),
            None => spec_decode_update(bytes@) is None,
        },
{
    let ghost s = bytes@;
    if bytes.len() < 29 {
        return None;
    }
    let originator_node = u64_from_be_bytes(bytes, 0);
    let sequence_number = u64_from_be_bytes(bytes, 8);
    let ttl = bytes[16];
    let timestamp = u64_from_be_bytes(bytes, 17);
    let count = u32_from_be_bytes(bytes, 25);
    let mut neighbors: Vec<NeighborInfo> = Vec::new();
    let mut pos: usize = 29;
    let mut remaining = count;
    while remaining > 0
        invariant
            s == bytes@,
            s.len() >= 29,
            count == spec_u32_from_be(s.subrange(25, 29)),
            pos <= s.len(),
            remaining <= count,
            neighbors@.len() + remaining == count,
            spec_dec_neighbors(s, 29, count as nat) == (match spec_dec_neighbors(
                s,
                pos as int,
                remaining as nat,
            ) {
                None => None::<(Seq<NeighborView>, int)>,
                Some((rest, end)) => Some(
                    (
                        neighbors@.map_values(|n: NeighborInfo| spec_neighbor_view(n)) + rest,
                        end,
                    ),
                ),
            }),
        decreases remaining,
    {
        let ghost views_old = neighbors@.map_values(|n: NeighborInfo| spec_neighbor_view(n));
        if pos >= bytes.len() || bytes.len() - pos < 13 {
            proof {
                assert(spec_dec_neighbor(s, pos as int) is None);
            }
            return None;
        }
        let node_id = u64_from_be_bytes(bytes, pos);
        let cost = u32_from_be_bytes(bytes, pos + 8);
        let flag = bytes[pos + 12];
        let (addr, next_pos): (Option<String>, usize) = if flag == 0 {
            (None, pos + 13)
        } else if flag == 1 {
            if bytes.len() - pos < 15 {
                proof {
                    assert(spec_dec_neighbor(s, pos as int) is None);
                }
                return None;
            }
            let alen = u16_from_be_bytes(bytes, pos + 13) as usize;
            if bytes.len() - (pos + 15) < alen {
                proof {
                    assert(spec_dec_neighbor(s, pos as int) is None);
                }
                return None;
            }
            let ab = copy_range(bytes, pos + 15, alen);
            match bytes_to_string(ab.as_slice()) {
                Some(a) => (Some(a), pos + 15 + alen),
                None => {
                    proof {
                        assert(!valid_utf8(s.subrange(pos + 15, pos + 15 + alen as int)));
                        assert(spec_dec_neighbor(s, pos as int) is None);
                    }
                    return None;
                },
            }
        } else {
            proof {
                assert(spec_dec_neighbor(s, pos as int) is None);
            }
            return None;
        };
        let ghost decoded = spec_dec_neighbor(s, pos as int);
        let built = NeighborInfo { node_id, cost, addr };
        proof {
            assert(decoded matches Some((nv, np)) && nv == spec_neighbor_view(built) && np
                == next_pos as int) by {
                if built.addr is Some {
                    let a = built.addr.unwrap();
                    let ab2 = s.subrange(pos + 15, pos + (15 + (next_pos - pos - 15)) as int);
                    assert(encode_utf8(a@) == ab2);
                    vstd::utf8::encode_utf8_valid_utf8(a@);
                    vstd::utf8::encode_utf8_decode_utf8(a@);
                }
            }
        }
        neighbors.push(built);
        proof {
            let views_new = neighbors@.map_values(|n: NeighborInfo| spec_neighbor_view(n));
            assert(views_new =~= views_old.push(spec_neighbor_view(built)));
            let r_next = spec_dec_neighbors(s, next_pos as int, (remaining - 1) as nat);
            match r_next {
                None => {},
                Some((rest, end)) => {
                    assert(spec_dec_neighbors(s, pos as int, remaining as nat) == Some(
                        (seq![spec_neighbor_view(built)] + rest, end),
                    ));
                    assert(views_old + (seq![spec_neighbor_view(built)] + rest) =~= views_new
                        + rest);
                },
            }
        }
        pos = next_pos;
        remaining = remaining - 1;
    }
    proof {
        assert(spec_dec_neighbors(s, pos as int, 0) == Some(
            (Seq::<NeighborView>::empty(), pos as int),
        ));
        assert(neighbors@.map_values(|n: NeighborInfo| spec_neighbor_view(n))
            + Seq::<NeighborView>::empty() =~= neighbors@.map_values(
            |n: NeighborInfo| spec_neighbor_view(n),
        ));
    }
    if pos != bytes.len() {
        return None;
    }
    let built = TopologyUpdate { originator_node, sequence_number, neighbors, ttl, timestamp };
    proof {
        assert(spec_decode_update(s) == Some(spec_update_view(built)));
    }
    Some(built)
}

} // verus!
