use vstd::prelude::*;

verus! {

use crate::UNICLIP_DATA_LIMIT;
use crate::datatype::PayloadView;
use crate::datatype::RemoteClipboard;
use crate::datatype::UniclipBig;
use crate::datatype::UniclipPayload;
use crate::datatype::nonce_succ;
use crate::crypto::fresh_nonce;
use crate::crypto::hash;
use crate::crypto::sha256_hex_of;
use vstd::string::StrSliceExecFns;
use vstd::utf8::encode_utf8;

// ---------------------------------------------------------------------------
// The requesting side: building requests with fresh nonces, holding the
// answers to the nonce rule — a response counts only if it carries the
// request's nonce plus one — and planning how an update travels.
// ---------------------------------------------------------------------------

/// A fresh listener-port query: the nonce to remember, and the payload to
/// send.
pub fn new_port_request() -> (r: (u32, UniclipPayload))
    ensures
        r.1@ == PayloadView::Port(r.0),
{
    let a = fresh_nonce();
    (a, UniclipPayload::Port(a))
}

/// A fresh membership query: the nonce to remember, and the payload to
/// send.
pub fn new_peer_request() -> (r: (u32, UniclipPayload))
    ensures
        r.1@ == PayloadView::Peer(r.0),
{
    let a = fresh_nonce();
    (a, UniclipPayload::Peer(a))
}

/// How a port answer relates to the request it is held against.
#[derive(Clone, Copy, PartialEq, Eq, Structural, Debug)]
pub enum PortOutcome {
    /// A port answer carrying the request's nonce plus one: valid.
    Port(u16),
    /// A port answer with any other nonce: rejected as stale.
    NonceMismatch,
    /// Not a port answer at all: a protocol violation.
    WrongShape,
}

/// Hold a payload against a port request that was sent with nonce
/// `rand_a`: it is accepted exactly when it is a `PortRes` carrying
/// `rand_a`'s successor.
pub fn check_port_response(rand_a: u32, data: &UniclipPayload) -> (r: PortOutcome)
    ensures
        match data@ {
            PayloadView::PortRes(b, port) => if b == nonce_succ(rand_a) {
                r == PortOutcome::Port(port)
            } else {
                r == PortOutcome::NonceMismatch
            },
            _ => r == PortOutcome::WrongShape,
        },
{
    match data {
        UniclipPayload::PortRes(b, port) => {
            if *b == crate::datatype::nonce_next(rand_a) {
                PortOutcome::Port(*port)
            } else {
                PortOutcome::NonceMismatch
            }
        },
        _ => PortOutcome::WrongShape,
    }
}

/// How a membership answer relates to the request it is held against.
pub enum PeerListOutcome {
    /// A peer list carrying the request's nonce plus one: valid.
    List(Vec<RemoteClipboard>),
    /// A peer list with any other nonce: rejected as stale.
    NonceMismatch,
    /// Not a peer list at all: a protocol violation.
    WrongShape,
}

/// Hold a payload against a membership request that was sent with nonce
/// `rand_a`: the list is accepted exactly when it arrives under
/// `rand_a`'s successor.
pub fn check_peer_list_response(rand_a: u32, data: UniclipPayload) -> (r: PeerListOutcome)
    ensures
        match data@ {
            PayloadView::PeerList(b, list) => if b == nonce_succ(rand_a) {
                &&& r matches PeerListOutcome::List(v)
                &&& v@.map_values(|p: RemoteClipboard| p@) == list
            } else {
                r is NonceMismatch
            },
            _ => r is WrongShape,
        },
{
    match data {
        UniclipPayload::PeerList(b, list) => {
            if b == crate::datatype::nonce_next(rand_a) {
                PeerListOutcome::List(list)
            } else {
                PeerListOutcome::NonceMismatch
            }
        },
        _ => PeerListOutcome::WrongShape,
    }
}

/// Whether a payload is the go-ahead for the announced transfer: an
/// `UpdateBigAck` echoing the announced digest and size.
pub fn check_big_ack(hash: &str, size: u32, data: &UniclipPayload) -> (r: bool)
    ensures
        r == (data@ matches PayloadView::UpdateBigAck(h, s2) && h == hash@ && s2 == size),
{
    match data {
        UniclipPayload::UpdateBigAck(h, s2) => {
            let owned = hash.to_owned();
            h.eq(&owned) && *s2 == size
        },
        _ => false,
    }
}

/// Whether a payload closes the transfer correctly: an `UpdateBigFinish`
/// reporting exactly the sent byte length.
pub fn check_big_finish(expected: usize, data: &UniclipPayload) -> (r: bool)
    ensures
        r == (data@ matches PayloadView::UpdateBigFinish(n) && n == expected),
{
    match data {
        UniclipPayload::UpdateBigFinish(n) => *n == expected,
        _ => false,
    }
}

/// The inline clipboard push for a text: its digest, then the text.
pub fn make_update(text: String) -> (p: UniclipPayload)
    ensures
        p@ == PayloadView::Update(sha256_hex_of(text@), text@),
{
    let h = hash(text.as_str());
    UniclipPayload::Update(h, text)
}

/// The chunks a byte sequence travels in: full chunks of the inline
/// limit, then whatever remains.
pub open spec fn chunks_of(bytes: Seq<u8>) -> Seq<Seq<u8>>
    decreases bytes.len(),
{
    if bytes.len() == 0 {
        Seq::empty()
    } else if bytes.len() <= UNICLIP_DATA_LIMIT {
        seq![bytes]
    } else {
        seq![bytes.take(UNICLIP_DATA_LIMIT as int)] + chunks_of(
            bytes.skip(UNICLIP_DATA_LIMIT as int),
        )
    }
}

/// The chunks of a byte sequence, stitched back together, are that
/// sequence; and no chunk is empty or over the inline limit.
pub proof fn lemma_chunks_of_cover(bytes: Seq<u8>)
    ensures
        chunks_of(bytes).flatten() == bytes,
        forall|i: int| 0 <= i < chunks_of(bytes).len() ==> 0 < (#[trigger] chunks_of(bytes)[
            i
        ]).len() <= UNICLIP_DATA_LIMIT,
    decreases bytes.len(),
{
    if bytes.len() == 0 {
        assert(Seq::<Seq<u8>>::empty().flatten() =~= Seq::<u8>::empty());
        assert(chunks_of(bytes).flatten() =~= bytes);
    } else if bytes.len() <= UNICLIP_DATA_LIMIT {
        assert(chunks_of(bytes) =~= seq![bytes]);
        assert(seq![bytes].drop_first() =~= Seq::<Seq<u8>>::empty());
        assert(Seq::<Seq<u8>>::empty().flatten() =~= Seq::<u8>::empty());
        assert(seq![bytes].flatten() =~= bytes + Seq::<u8>::empty());
        assert(bytes + Seq::<u8>::empty() =~= bytes);
        assert(chunks_of(bytes).flatten() =~= bytes);
    } else {
        let head = bytes.take(UNICLIP_DATA_LIMIT as int);
        let tail = bytes.skip(UNICLIP_DATA_LIMIT as int);
        lemma_chunks_of_cover(tail);
        assert(chunks_of(bytes).drop_first() =~= chunks_of(tail));
        assert(chunks_of(bytes).flatten() =~= head + chunks_of(tail).flatten());
        assert(head + tail =~= bytes);
        assert forall|i: int| 0 <= i < chunks_of(bytes).len() implies 0 < (
        #[trigger] chunks_of(bytes)[i]).len() <= UNICLIP_DATA_LIMIT by {
            if i > 0 {
                assert(chunks_of(bytes)[i] == chunks_of(tail)[i - 1]);
            }
        }
    }
}

/// How one local clipboard text goes out on the wire.
pub enum UpdatePlan {
    /// Small enough for the inline path: one `Update`.
    Inline(UniclipPayload),
    /// Over the inline limit: the announcement, then the chunks; the
    /// caller sends the chunks once the announcement is acknowledged.
    Big { announce: UniclipPayload, chunks: Vec<UniclipPayload> },
}

fn copy_range(v: &Vec<u8>, from: usize, to: usize) -> (r: Vec<u8>)
    requires
        from <= to <= v@.len(),
    ensures
        r@ == v@.subrange(from as int, to as int),
{
    let mut out: Vec<u8> = Vec::new();
    let mut i = from;
    while i < to
        invariant
            from <= i <= to <= v@.len(),
            out@ =~= v@.subrange(from as int, i as int),
        decreases to - i,
    {
        out.push(v[i]);
        proof {
            assert(out@ =~= v@.subrange(from as int, i + 1 as int));
        }
        i = i + 1;
    }
    out
}

/// Decide how a clipboard text travels: inline exactly when its UTF-8
/// form fits the inline limit, and as an announced, chunked big transfer
/// of kind text otherwise.
pub fn plan_update(text: String) -> (r: UpdatePlan)
    requires
        encode_utf8(text@).len() < 0x1_0000_0000,
    ensures
        ({
            let bytes = encode_utf8(text@);
            match r {
                UpdatePlan::Inline(p) => bytes.len() <= UNICLIP_DATA_LIMIT && p@
                    == PayloadView::Update(sha256_hex_of(text@), text@),
                UpdatePlan::Big { announce, chunks } => {
                    &&& bytes.len() > UNICLIP_DATA_LIMIT
                    &&& announce@ == PayloadView::UpdateBig(
                        sha256_hex_of(text@),
                        UniclipBig::Text,
                        bytes.len() as u32,
                    )
                    &&& chunks@.len() == chunks_of(bytes).len()
                    &&& forall|i: int| 0 <= i < chunks@.len() ==> (#[trigger] chunks@[i])@
                        == PayloadView::UpdateBigData(chunks_of(bytes)[i])
                },
            }
        }),
{
    let n = text.as_str().len();
    if n <= UNICLIP_DATA_LIMIT {
        UpdatePlan::Inline(make_update(text))
    } else {
        let h = hash(text.as_str());
        let bytes = text.as_str().as_bytes_vec();
        let announce = UniclipPayload::UpdateBig(h, UniclipBig::Text, n as u32);
        let ghost bv = encode_utf8(text@);
        let mut chunks: Vec<UniclipPayload> = Vec::new();
        let mut pos: usize = 0;
        proof {
            assert(bv.skip(0) =~= bv);
        }
        while pos < n
            invariant
                n == bv.len(),
                bytes@ == bv,
                pos <= n,
                chunks@.len() + chunks_of(bv.skip(pos as int)).len() == chunks_of(bv).len(),
                forall|i: int| 0 <= i < chunks@.len() ==> (#[trigger] chunks@[i])@
                    == PayloadView::UpdateBigData(chunks_of(bv)[i]),
                forall|j: int| 0 <= j < chunks_of(bv.skip(pos as int)).len() ==> #[trigger]
                    chunks_of(bv.skip(pos as int))[j] == chunks_of(bv)[chunks@.len() + j],
            decreases n - pos,
        {
            let k = if n - pos > UNICLIP_DATA_LIMIT {
                UNICLIP_DATA_LIMIT
            } else {
                n - pos
            };
            let ghost rest = bv.skip(pos as int);
            let piece = copy_range(&bytes, pos, pos + k);
            proof {
                if rest.len() > UNICLIP_DATA_LIMIT {
                    assert(rest.take(UNICLIP_DATA_LIMIT as int) =~= bv.subrange(
                        pos as int,
                        pos + k as int,
                    ));
                    assert(rest.skip(UNICLIP_DATA_LIMIT as int) =~= bv.skip(pos + k as int));
                    assert(chunks_of(rest) == seq![rest.take(UNICLIP_DATA_LIMIT as int)]
                        + chunks_of(bv.skip(pos + k as int)));
                } else {
                    assert(rest =~= bv.subrange(pos as int, pos + k as int));
                    assert(chunks_of(rest) =~= seq![rest]);
                    assert(bv.skip(pos + k as int) =~= Seq::<u8>::empty());
                }
                assert(chunks_of(rest)[0] == bv.subrange(pos as int, pos + k as int));
            }
            let ghost oldlen = chunks@.len() as int;
            chunks.push(UniclipPayload::UpdateBigData(piece));
            pos = pos + k;
            proof {
                let rest2 = bv.skip(pos as int);
                assert(chunks_of(rest) == seq![chunks_of(rest)[0]] + chunks_of(rest2));
                assert forall|j: int| 0 <= j < chunks_of(rest2).len() implies #[trigger]
                    chunks_of(rest2)[j] == chunks_of(bv)[chunks@.len() + j] by {
                    assert(chunks_of(rest2)[j] == chunks_of(rest)[j + 1]);
                    assert(chunks_of(rest)[j + 1] == chunks_of(bv)[oldlen + j + 1]);
                }
                assert(chunks@[oldlen]@ == PayloadView::UpdateBigData(chunks_of(bv)[oldlen]));
            }
        }
        proof {
            assert(bv.skip(pos as int) =~= Seq::<u8>::empty());
        }
        UpdatePlan::Big { announce, chunks }
    }
}

} // verus!
