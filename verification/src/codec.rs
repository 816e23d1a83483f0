use vstd::prelude::*;

verus! {

use crate::datatype::FrameView;
use crate::datatype::PayloadView;
use crate::datatype::PeerView;
use crate::datatype::UniclipBig;
use crate::datatype::payload_wf;
use crate::datatype::peer_view_wf;
use crate::datatype::str_wf;
use crate::datatype::frame_wf;
use vstd::utf8::is_scalar;

// ---------------------------------------------------------------------------
// The wire form of a frame, as a mathematical function on byte sequences.
//
// Integers travel little-endian. A string travels as its character count in
// four bytes followed by each character's scalar value in four bytes. A peer
// list and a chunk travel as a four-byte count followed by the elements.
// ---------------------------------------------------------------------------

pub open spec fn u16_le(x: u16) -> Seq<u8> {
    seq![(x % 256) as u8, (x / 256) as u8]
}

pub open spec fn u32_le(x: u32) -> Seq<u8> {
    seq![
        (x % 256) as u8,
        ((x / 256) % 256) as u8,
        ((x / 65536) % 256) as u8,
        ((x / 16777216) % 256) as u8,
    ]
}

pub open spec fn u64_le(x: u64) -> Seq<u8> {
    seq![
        (x % 256) as u8,
        ((x / 256) % 256) as u8,
        ((x / 65536) % 256) as u8,
        ((x / 16777216) % 256) as u8,
        ((x / 0x1_0000_0000) % 256) as u8,
        ((x / 0x100_0000_0000) % 256) as u8,
        ((x / 0x1_0000_0000_0000) % 256) as u8,
        ((x / 0x100_0000_0000_0000) % 256) as u8,
    ]
}

pub open spec fn chars_bytes(s: Seq<char>) -> Seq<u8>
    decreases s.len(),
{
    if s.len() == 0 {
        Seq::empty()
    } else {
        u32_le(s[0] as u32) + chars_bytes(s.drop_first())
    }
}

pub open spec fn str_bytes(s: Seq<char>) -> Seq<u8> {
    u32_le(s.len() as u32) + chars_bytes(s)
}

pub open spec fn peer_bytes(p: PeerView) -> Seq<u8> {
    str_bytes(p.host) + u16_le(p.port)
}

pub open spec fn peers_bytes(ps: Seq<PeerView>) -> Seq<u8>
    decreases ps.len(),
{
    if ps.len() == 0 {
        Seq::empty()
    } else {
        peer_bytes(ps[0]) + peers_bytes(ps.drop_first())
    }
}

pub open spec fn big_kind_byte(k: UniclipBig) -> u8 {
    match k {
        UniclipBig::Text => 1u8,
        UniclipBig::Picture => 2u8,
        UniclipBig::File => 3u8,
    }
}

pub open spec fn payload_bytes(p: PayloadView) -> Seq<u8> {
    match p {
        PayloadView::Echo(a) => seq![1u8] + u32_le(a),
        PayloadView::EchoRes(a) => seq![2u8] + u32_le(a),
        PayloadView::Peer(a) => seq![3u8] + u32_le(a),
        PayloadView::PeerList(a, ps) => seq![4u8] + u32_le(a) + u32_le(ps.len() as u32)
            + peers_bytes(ps),
        PayloadView::Port(a) => seq![5u8] + u32_le(a),
        PayloadView::PortRes(a, port) => seq![6u8] + u32_le(a) + u16_le(port),
        PayloadView::Update(hash, data) => seq![7u8] + str_bytes(hash) + str_bytes(data),
        PayloadView::UpdateRes(n) => seq![8u8] + u64_le(n as u64),
        PayloadView::UpdateBig(hash, kind, size) => seq![9u8] + str_bytes(hash)
            + seq![big_kind_byte(kind)] + u32_le(size),
        PayloadView::UpdateBigAck(hash, size) => seq![10u8] + str_bytes(hash) + u32_le(size),
        PayloadView::UpdateBigData(bytes) => seq![11u8] + u32_le(bytes.len() as u32) + bytes,
        PayloadView::UpdateBigFinish(n) => seq![12u8] + u64_le(n as u64),
        PayloadView::Quit(a) => seq![13u8] + u32_le(a),
        PayloadView::QuitRes(a) => seq![14u8] + u32_le(a),
        PayloadView::ShutDown => seq![15u8],
        PayloadView::Error(msg) => seq![16u8] + str_bytes(msg),
    }
}

pub open spec fn frame_bytes(f: FrameView) -> Seq<u8> {
    u16_le(f.magic) + seq![f.version] + payload_bytes(f.payload)
}

// ---------------------------------------------------------------------------
// The parser, as a mathematical function. Each piece reads a prefix of the
// given bytes and yields the value together with how many bytes it took;
// a whole frame must account for every byte.
// ---------------------------------------------------------------------------

pub open spec fn le_u16(b0: u8, b1: u8) -> u16 {
    (b0 + 256 * b1) as u16
}

pub open spec fn le_u32(b0: u8, b1: u8, b2: u8, b3: u8) -> u32 {
    (b0 + 256 * b1 + 65536 * b2 + 16777216 * b3) as u32
}

pub open spec fn le_u64(b: Seq<u8>) -> u64
    recommends
        b.len() == 8,
{
    (b[0] + 256 * b[1] + 65536 * b[2] + 16777216 * b[3] + 0x1_0000_0000 * b[4] + 0x100_0000_0000
        * b[5] + 0x1_0000_0000_0000 * b[6] + 0x100_0000_0000_0000 * b[7]) as u64
}

pub open spec fn parse_u8(b: Seq<u8>) -> Option<(u8, int)> {
    if b.len() >= 1 {
        Some((b[0], 1int))
    } else {
        None
    }
}

pub open spec fn parse_u16(b: Seq<u8>) -> Option<(u16, int)> {
    if b.len() >= 2 {
        Some((le_u16(b[0], b[1]), 2int))
    } else {
        None
    }
}

pub open spec fn parse_u32(b: Seq<u8>) -> Option<(u32, int)> {
    if b.len() >= 4 {
        Some((le_u32(b[0], b[1], b[2], b[3]), 4int))
    } else {
        None
    }
}

pub open spec fn parse_u64(b: Seq<u8>) -> Option<(u64, int)> {
    if b.len() >= 8 {
        Some((le_u64(b.subrange(0, 8)), 8int))
    } else {
        None
    }
}

pub open spec fn parse_usize(b: Seq<u8>) -> Option<(usize, int)> {
    match parse_u64(b) {
        Some((v, n)) => if v <= usize::MAX {
            Some((v as usize, n))
        } else {
            None
        },
        None => None,
    }
}

pub open spec fn parse_chars(b: Seq<u8>, count: nat) -> Option<(Seq<char>, int)>
    decreases count,
{
    if count == 0 {
        Some((Seq::empty(), 0int))
    } else {
        match parse_u32(b) {
            Some((v, _)) => if is_scalar(v) {
                match parse_chars(b.skip(4), (count - 1) as nat) {
                    Some((s, m)) => Some((seq![v as char] + s, 4 + m)),
                    None => None,
                }
            } else {
                None
            },
            None => None,
        }
    }
}

pub open spec fn parse_str(b: Seq<u8>) -> Option<(Seq<char>, int)> {
    match parse_u32(b) {
        Some((count, _)) => match parse_chars(b.skip(4), count as nat) {
            Some((s, m)) => Some((s, 4 + m)),
            None => None,
        },
        None => None,
    }
}

pub open spec fn parse_peer(b: Seq<u8>) -> Option<(PeerView, int)> {
    match parse_str(b) {
        Some((host, n)) => match parse_u16(b.skip(n)) {
            Some((port, _)) => Some((PeerView { host, port }, n + 2)),
            None => None,
        },
        None => None,
    }
}

pub open spec fn parse_peers(b: Seq<u8>, count: nat) -> Option<(Seq<PeerView>, int)>
    decreases count,
{
    if count == 0 {
        Some((Seq::empty(), 0int))
    } else {
        match parse_peer(b) {
            Some((p, n)) => match parse_peers(b.skip(n), (count - 1) as nat) {
                Some((ps, m)) => Some((seq![p] + ps, n + m)),
                None => None,
            },
            None => None,
        }
    }
}

pub open spec fn parse_bytes(b: Seq<u8>, count: nat) -> Option<(Seq<u8>, int)> {
    if b.len() >= count {
        Some((b.subrange(0, count as int), count as int))
    } else {
        None
    }
}

pub open spec fn parse_big_kind(t: u8) -> Option<UniclipBig> {
    if t == 1 {
        Some(UniclipBig::Text)
    } else if t == 2 {
        Some(UniclipBig::Picture)
    } else if t == 3 {
        Some(UniclipBig::File)
    } else {
        None
    }
}

pub open spec fn parse_nonce_payload(tag: u8, b: Seq<u8>) -> Option<(PayloadView, int)>
    recommends
        tag == 1 || tag == 2 || tag == 3 || tag == 5 || tag == 13 || tag == 14,
{
    match parse_u32(b) {
        Some((a, _)) => {
            let p = if tag == 1 {
                PayloadView::Echo(a)
            } else if tag == 2 {
                PayloadView::EchoRes(a)
            } else if tag == 3 {
                PayloadView::Peer(a)
            } else if tag == 5 {
                PayloadView::Port(a)
            } else if tag == 13 {
                PayloadView::Quit(a)
            } else {
                PayloadView::QuitRes(a)
            };
            Some((p, 4int))
        },
        None => None,
    }
}

pub open spec fn parse_payload(b: Seq<u8>) -> Option<(PayloadView, int)> {
    if b.len() < 1 {
        None
    } else {
        let tag = b[0];
        let r = b.skip(1);
        let body: Option<(PayloadView, int)> = if tag == 1 || tag == 2 || tag == 3 || tag == 5
            || tag == 13 || tag == 14 {
            parse_nonce_payload(tag, r)
        } else if tag == 4 {
            match parse_u32(r) {
                Some((a, _)) => match parse_u32(r.skip(4)) {
                    Some((count, _)) => match parse_peers(r.skip(8), count as nat) {
                        Some((ps, m)) => Some((PayloadView::PeerList(a, ps), 8 + m)),
                        None => None,
                    },
                    None => None,
                },
                None => None,
            }
        } else if tag == 6 {
            match parse_u32(r) {
                Some((a, _)) => match parse_u16(r.skip(4)) {
                    Some((port, _)) => Some((PayloadView::PortRes(a, port), 6int)),
                    None => None,
                },
                None => None,
            }
        } else if tag == 7 {
            match parse_str(r) {
                Some((hash, n)) => match parse_str(r.skip(n)) {
                    Some((data, m)) => Some((PayloadView::Update(hash, data), n + m)),
                    None => None,
                },
                None => None,
            }
        } else if tag == 8 {
            match parse_usize(r) {
                Some((n, _)) => Some((PayloadView::UpdateRes(n), 8int)),
                None => None,
            }
        } else if tag == 9 {
            match parse_str(r) {
                Some((hash, n)) => match parse_u8(r.skip(n)) {
                    Some((kb, _)) => match parse_big_kind(kb) {
                        Some(kind) => match parse_u32(r.skip(n + 1)) {
                            Some((size, _)) => Some((
                                PayloadView::UpdateBig(hash, kind, size),
                                n + 5,
                            )),
                            None => None,
                        },
                        None => None,
                    },
                    None => None,
                },
                None => None,
            }
        } else if tag == 10 {
            match parse_str(r) {
                Some((hash, n)) => match parse_u32(r.skip(n)) {
                    Some((size, _)) => Some((PayloadView::UpdateBigAck(hash, size), n + 4)),
                    None => None,
                },
                None => None,
            }
        } else if tag == 11 {
            match parse_u32(r) {
                Some((count, _)) => match parse_bytes(r.skip(4), count as nat) {
                    Some((bytes, m)) => Some((PayloadView::UpdateBigData(bytes), 4 + m)),
                    None => None,
                },
                None => None,
            }
        } else if tag == 12 {
            match parse_usize(r) {
                Some((n, _)) => Some((PayloadView::UpdateBigFinish(n), 8int)),
                None => None,
            }
        } else if tag == 15 {
            Some((PayloadView::ShutDown, 0int))
        } else if tag == 16 {
            match parse_str(r) {
                Some((msg, n)) => Some((PayloadView::Error(msg), n)),
                None => None,
            }
        } else {
            None
        };
        match body {
            Some((p, n)) => Some((p, 1 + n)),
            None => None,
        }
    }
}

/// What an incoming plaintext means: a frame, when every byte of it is
/// accounted for by the envelope and one payload; nothing otherwise.
pub open spec fn parse_frame(b: Seq<u8>) -> Option<FrameView> {
    match parse_u16(b) {
        Some((magic, _)) => match parse_u8(b.skip(2)) {
            Some((version, _)) => match parse_payload(b.skip(3)) {
                Some((p, n)) => if 3 + n == b.len() {
                    Some(FrameView { magic, version, payload: p })
                } else {
                    None
                },
                None => None,
            },
            None => None,
        },
        None => None,
    }
}


use vstd::utf8::char_is_scalar;
use vstd::utf8::char_u32_cast;

// ---------------------------------------------------------------------------
// Every encoder meets its parser: parsing an encoding, with anything behind
// it, yields the encoded value and consumes exactly the encoding.
// ---------------------------------------------------------------------------

pub proof fn lemma_parse_u16_of_encode(x: u16, rest: Seq<u8>)
    ensures
        parse_u16(u16_le(x) + rest) == Some((x, 2int)),
{
    let b = u16_le(x) + rest;
    assert(b[0] == (x % 256) as u8 && b[1] == (x / 256) as u8);
    assert(x % 256 + 256 * (x / 256) == x) by (bit_vector);
    assert(le_u16(b[0], b[1]) == x);
}

pub proof fn lemma_parse_u32_of_encode(x: u32, rest: Seq<u8>)
    ensures
        parse_u32(u32_le(x) + rest) == Some((x, 4int)),
{
    let b = u32_le(x) + rest;
    assert(b[0] == (x % 256) as u8);
    assert(b[1] == ((x / 256) % 256) as u8);
    assert(b[2] == ((x / 65536) % 256) as u8);
    assert(b[3] == ((x / 16777216) % 256) as u8);
    assert(x % 256 + 256 * ((x / 256) % 256) + 65536 * ((x / 65536) % 256) + 16777216 * ((x
        / 16777216) % 256) == x) by (bit_vector);
    assert(le_u32(b[0], b[1], b[2], b[3]) == x);
}

pub proof fn lemma_parse_u64_of_encode(x: u64, rest: Seq<u8>)
    ensures
        parse_u64(u64_le(x) + rest) == Some((x, 8int)),
{
    let b = u64_le(x) + rest;
    assert(b.subrange(0, 8) =~= u64_le(x));
    assert(x % 256 + 256 * ((x / 256) % 256) + 65536 * ((x / 65536) % 256) + 16777216 * ((x
        / 16777216) % 256) + 0x1_0000_0000 * ((x / 0x1_0000_0000) % 256) + 0x100_0000_0000 * ((x
        / 0x100_0000_0000) % 256) + 0x1_0000_0000_0000 * ((x / 0x1_0000_0000_0000) % 256)
        + 0x100_0000_0000_0000 * ((x / 0x100_0000_0000_0000) % 256) == x) by (bit_vector);
    assert(le_u64(b.subrange(0, 8)) == x);
}

pub proof fn lemma_parse_usize_of_encode(n: usize, rest: Seq<u8>)
    ensures
        parse_usize(u64_le(n as u64) + rest) == Some((n, 8int)),
{
    lemma_parse_u64_of_encode(n as u64, rest);
}

pub proof fn lemma_parse_chars_of_encode(s: Seq<char>, rest: Seq<u8>)
    ensures
        parse_chars(chars_bytes(s) + rest, s.len()) == Some((s, chars_bytes(s).len() as int)),
    decreases s.len(),
{
    if s.len() == 0 {
        assert(chars_bytes(s) + rest =~= rest);
        assert(s =~= Seq::<char>::empty());
    } else {
        let c = s[0];
        let tail = s.drop_first();
        let b = chars_bytes(s) + rest;
        assert(b =~= u32_le(c as u32) + (chars_bytes(tail) + rest));
        lemma_parse_u32_of_encode(c as u32, chars_bytes(tail) + rest);
        char_is_scalar(c);
        char_u32_cast(c, c as u32);
        assert(b.skip(4) =~= chars_bytes(tail) + rest);
        lemma_parse_chars_of_encode(tail, rest);
        assert(seq![(c as u32) as char] + tail =~= s);
    }
}

pub proof fn lemma_parse_str_of_encode(s: Seq<char>, rest: Seq<u8>)
    requires
        str_wf(s),
    ensures
        parse_str(str_bytes(s) + rest) == Some((s, str_bytes(s).len() as int)),
{
    let b = str_bytes(s) + rest;
    let count = s.len() as u32;
    assert(b =~= u32_le(count) + (chars_bytes(s) + rest));
    lemma_parse_u32_of_encode(count, chars_bytes(s) + rest);
    assert(b.skip(4) =~= chars_bytes(s) + rest);
    lemma_parse_chars_of_encode(s, rest);
    assert(count as nat == s.len());
}

pub proof fn lemma_parse_peer_of_encode(p: PeerView, rest: Seq<u8>)
    requires
        peer_view_wf(p),
    ensures
        parse_peer(peer_bytes(p) + rest) == Some((p, peer_bytes(p).len() as int)),
{
    let b = peer_bytes(p) + rest;
    assert(b =~= str_bytes(p.host) + (u16_le(p.port) + rest));
    lemma_parse_str_of_encode(p.host, u16_le(p.port) + rest);
    let n = str_bytes(p.host).len() as int;
    assert(b.skip(n) =~= u16_le(p.port) + rest);
    lemma_parse_u16_of_encode(p.port, rest);
}

pub proof fn lemma_parse_peers_of_encode(ps: Seq<PeerView>, rest: Seq<u8>)
    requires
        forall|i: int| 0 <= i < ps.len() ==> peer_view_wf(#[trigger] ps[i]),
    ensures
        parse_peers(peers_bytes(ps) + rest, ps.len()) == Some(
            (ps, peers_bytes(ps).len() as int),
        ),
    decreases ps.len(),
{
    if ps.len() == 0 {
        assert(peers_bytes(ps) + rest =~= rest);
        assert(ps =~= Seq::<PeerView>::empty());
    } else {
        let p = ps[0];
        let tail = ps.drop_first();
        let b = peers_bytes(ps) + rest;
        assert(b =~= peer_bytes(p) + (peers_bytes(tail) + rest));
        lemma_parse_peer_of_encode(p, peers_bytes(tail) + rest);
        let n = peer_bytes(p).len() as int;
        assert(b.skip(n) =~= peers_bytes(tail) + rest);
        assert(forall|i: int| 0 <= i < tail.len() ==> peer_view_wf(#[trigger] tail[i]));
        lemma_parse_peers_of_encode(tail, rest);
        assert(seq![p] + tail =~= ps);
    }
}


#[verifier::rlimit(100)]
proof fn lemma_parse_nonce_payload_of_encode(tag: u8, a: u32, p: PayloadView, rest: Seq<u8>)
    requires
        payload_bytes(p) == seq![tag] + u32_le(a),
        tag == 1 ==> p == PayloadView::Echo(a),
        tag == 2 ==> p == PayloadView::EchoRes(a),
        tag == 3 ==> p == PayloadView::Peer(a),
        tag == 5 ==> p == PayloadView::Port(a),
        tag == 13 ==> p == PayloadView::Quit(a),
        tag == 14 ==> p == PayloadView::QuitRes(a),
        tag == 1 || tag == 2 || tag == 3 || tag == 5 || tag == 13 || tag == 14,
    ensures
        parse_payload(payload_bytes(p) + rest) == Some((p, payload_bytes(p).len() as int)),
{
    let b = payload_bytes(p) + rest;
    assert(b[0] == tag);
    assert(b.skip(1) =~= u32_le(a) + rest);
    lemma_parse_u32_of_encode(a, rest);
}

#[verifier::rlimit(100)]
proof fn lemma_pp_peerlist(a: u32, ps: Seq<PeerView>, rest: Seq<u8>)
    requires
        payload_wf(PayloadView::PeerList(a, ps)),
    ensures
        parse_payload(payload_bytes(PayloadView::PeerList(a, ps)) + rest) == Some(
            (
                PayloadView::PeerList(a, ps),
                payload_bytes(PayloadView::PeerList(a, ps)).len() as int,
            ),
        ),
{
    let p = PayloadView::PeerList(a, ps);
    let b = payload_bytes(p) + rest;
    let r = b.skip(1);
    assert(b[0] == 4u8);
    assert(r =~= u32_le(a) + (u32_le(ps.len() as u32) + peers_bytes(ps) + rest));
    lemma_parse_u32_of_encode(a, u32_le(ps.len() as u32) + peers_bytes(ps) + rest);
    assert(r.skip(4) =~= u32_le(ps.len() as u32) + (peers_bytes(ps) + rest));
    lemma_parse_u32_of_encode(ps.len() as u32, peers_bytes(ps) + rest);
    assert(r.skip(8) =~= peers_bytes(ps) + rest);
    lemma_parse_peers_of_encode(ps, rest);
    assert((ps.len() as u32) as nat == ps.len());
}

#[verifier::rlimit(100)]
proof fn lemma_pp_update(hash: Seq<char>, data: Seq<char>, rest: Seq<u8>)
    requires
        str_wf(hash),
        str_wf(data),
    ensures
        parse_payload(payload_bytes(PayloadView::Update(hash, data)) + rest) == Some(
            (
                PayloadView::Update(hash, data),
                payload_bytes(PayloadView::Update(hash, data)).len() as int,
            ),
        ),
{
    let p = PayloadView::Update(hash, data);
    let b = payload_bytes(p) + rest;
    let r = b.skip(1);
    assert(b[0] == 7u8);
    assert(r =~= str_bytes(hash) + (str_bytes(data) + rest));
    lemma_parse_str_of_encode(hash, str_bytes(data) + rest);
    let n = str_bytes(hash).len() as int;
    assert(r.skip(n) =~= str_bytes(data) + rest);
    lemma_parse_str_of_encode(data, rest);
}

#[verifier::rlimit(100)]
proof fn lemma_pp_update_big(hash: Seq<char>, kind: UniclipBig, size: u32, rest: Seq<u8>)
    requires
        str_wf(hash),
    ensures
        parse_payload(payload_bytes(PayloadView::UpdateBig(hash, kind, size)) + rest) == Some(
            (
                PayloadView::UpdateBig(hash, kind, size),
                payload_bytes(PayloadView::UpdateBig(hash, kind, size)).len() as int,
            ),
        ),
{
    let p = PayloadView::UpdateBig(hash, kind, size);
    let b = payload_bytes(p) + rest;
    let r = b.skip(1);
    assert(b[0] == 9u8);
    assert(r =~= str_bytes(hash) + (seq![big_kind_byte(kind)] + u32_le(size) + rest));
    lemma_parse_str_of_encode(hash, seq![big_kind_byte(kind)] + u32_le(size) + rest);
    let n = str_bytes(hash).len() as int;
    assert(r.skip(n) =~= seq![big_kind_byte(kind)] + (u32_le(size) + rest));
    assert(r.skip(n)[0] == big_kind_byte(kind));
    assert(r.skip(n + 1) =~= u32_le(size) + rest);
    lemma_parse_u32_of_encode(size, rest);
    assert(parse_big_kind(big_kind_byte(kind)) == Some(kind));
}

#[verifier::rlimit(100)]
proof fn lemma_pp_update_big_ack(hash: Seq<char>, size: u32, rest: Seq<u8>)
    requires
        str_wf(hash),
    ensures
        parse_payload(payload_bytes(PayloadView::UpdateBigAck(hash, size)) + rest) == Some(
            (
                PayloadView::UpdateBigAck(hash, size),
                payload_bytes(PayloadView::UpdateBigAck(hash, size)).len() as int,
            ),
        ),
{
    let p = PayloadView::UpdateBigAck(hash, size);
    let b = payload_bytes(p) + rest;
    let r = b.skip(1);
    assert(b[0] == 10u8);
    assert(r =~= str_bytes(hash) + (u32_le(size) + rest));
    lemma_parse_str_of_encode(hash, u32_le(size) + rest);
    let n = str_bytes(hash).len() as int;
    assert(r.skip(n) =~= u32_le(size) + rest);
    lemma_parse_u32_of_encode(size, rest);
}

#[verifier::rlimit(100)]
proof fn lemma_pp_update_big_data(bytes: Seq<u8>, rest: Seq<u8>)
    requires
        bytes.len() < 0x1_0000_0000,
    ensures
        parse_payload(payload_bytes(PayloadView::UpdateBigData(bytes)) + rest) == Some(
            (
                PayloadView::UpdateBigData(bytes),
                payload_bytes(PayloadView::UpdateBigData(bytes)).len() as int,
            ),
        ),
{
    let p = PayloadView::UpdateBigData(bytes);
    let b = payload_bytes(p) + rest;
    let r = b.skip(1);
    assert(b[0] == 11u8);
    assert(r =~= u32_le(bytes.len() as u32) + (bytes + rest));
    lemma_parse_u32_of_encode(bytes.len() as u32, bytes + rest);
    assert(r.skip(4) =~= bytes + rest);
    assert((bytes + rest).subrange(0, bytes.len() as int) =~= bytes);
}

#[verifier::rlimit(100)]
proof fn lemma_pp_error(msg: Seq<char>, rest: Seq<u8>)
    requires
        str_wf(msg),
    ensures
        parse_payload(payload_bytes(PayloadView::Error(msg)) + rest) == Some(
            (PayloadView::Error(msg), payload_bytes(PayloadView::Error(msg)).len() as int),
        ),
{
    let p = PayloadView::Error(msg);
    let b = payload_bytes(p) + rest;
    let r = b.skip(1);
    assert(b[0] == 16u8);
    assert(r =~= str_bytes(msg) + rest);
    lemma_parse_str_of_encode(msg, rest);
}

#[verifier::rlimit(100)]
pub proof fn lemma_parse_payload_of_encode(p: PayloadView, rest: Seq<u8>)
    requires
        payload_wf(p),
    ensures
        parse_payload(payload_bytes(p) + rest) == Some((p, payload_bytes(p).len() as int)),
{
    let b = payload_bytes(p) + rest;
    let r = b.skip(1);
    match p {
        PayloadView::Echo(a) => {
            lemma_parse_nonce_payload_of_encode(1u8, a, p, rest);
        },
        PayloadView::EchoRes(a) => {
            lemma_parse_nonce_payload_of_encode(2u8, a, p, rest);
        },
        PayloadView::Peer(a) => {
            lemma_parse_nonce_payload_of_encode(3u8, a, p, rest);
        },
        PayloadView::PeerList(a, ps) => {
            lemma_pp_peerlist(a, ps, rest);
        },
        PayloadView::Port(a) => {
            lemma_parse_nonce_payload_of_encode(5u8, a, p, rest);
        },
        PayloadView::PortRes(a, port) => {
            assert(b[0] == 6u8);
            assert(r =~= u32_le(a) + (u16_le(port) + rest));
            lemma_parse_u32_of_encode(a, u16_le(port) + rest);
            assert(r.skip(4) =~= u16_le(port) + rest);
            lemma_parse_u16_of_encode(port, rest);
        },
        PayloadView::Update(hash, data) => {
            lemma_pp_update(hash, data, rest);
        },
        PayloadView::UpdateRes(n) => {
            assert(b[0] == 8u8);
            assert(r =~= u64_le(n as u64) + rest);
            lemma_parse_usize_of_encode(n, rest);
        },
        PayloadView::UpdateBig(hash, kind, size) => {
            lemma_pp_update_big(hash, kind, size, rest);
        },
        PayloadView::UpdateBigAck(hash, size) => {
            lemma_pp_update_big_ack(hash, size, rest);
        },
        PayloadView::UpdateBigData(bytes) => {
            lemma_pp_update_big_data(bytes, rest);
        },
        PayloadView::UpdateBigFinish(n) => {
            assert(b[0] == 12u8);
            assert(r =~= u64_le(n as u64) + rest);
            lemma_parse_usize_of_encode(n, rest);
        },
        PayloadView::Quit(a) => {
            lemma_parse_nonce_payload_of_encode(13u8, a, p, rest);
        },
        PayloadView::QuitRes(a) => {
            lemma_parse_nonce_payload_of_encode(14u8, a, p, rest);
        },
        PayloadView::ShutDown => {
            assert(b[0] == 15u8);
        },
        PayloadView::Error(msg) => {
            lemma_pp_error(msg, rest);
        },
    }
}

/// The codec's round trip: a well-formed frame's encoding parses back to
/// exactly that frame.
pub proof fn lemma_parse_frame_of_encode(f: FrameView)
    requires
        frame_wf(f),
    ensures
        parse_frame(frame_bytes(f)) == Some(f),
{
    let b = frame_bytes(f);
    assert(b =~= u16_le(f.magic) + (seq![f.version] + payload_bytes(f.payload)));
    lemma_parse_u16_of_encode(f.magic, seq![f.version] + payload_bytes(f.payload));
    assert(b.skip(2) =~= seq![f.version] + payload_bytes(f.payload));
    assert(b.skip(3) =~= payload_bytes(f.payload) + Seq::<u8>::empty());
    lemma_parse_payload_of_encode(f.payload, Seq::empty());
    assert(b.len() == 3 + payload_bytes(f.payload).len());
}


use crate::datatype::UniclipDataFrame;
use crate::datatype::UniclipPayload;
use crate::datatype::RemoteClipboard;
use vstd::string::StrSliceExecFns;

// ---------------------------------------------------------------------------
// The executable encoder. Each piece appends exactly the bytes that the
// spec encoder assigns to its value.
// ---------------------------------------------------------------------------

proof fn lemma_chars_bytes_push(s: Seq<char>, c: char)
    ensures
        chars_bytes(s.push(c)) == chars_bytes(s) + u32_le(c as u32),
    decreases s.len(),
{
    let t = s.push(c);
    if s.len() == 0 {
        assert(t[0] == c);
        assert(t.drop_first() =~= Seq::<char>::empty());
        assert(chars_bytes(t.drop_first()) =~= Seq::<u8>::empty());
        assert(chars_bytes(t) =~= u32_le(c as u32));
        assert(chars_bytes(s) + u32_le(c as u32) =~= u32_le(c as u32));
    } else {
        assert(t[0] == s[0]);
        assert(t.drop_first() =~= s.drop_first().push(c));
        lemma_chars_bytes_push(s.drop_first(), c);
        assert(chars_bytes(t) =~= chars_bytes(s) + u32_le(c as u32));
    }
}

proof fn lemma_peers_bytes_push(ps: Seq<PeerView>, p: PeerView)
    ensures
        peers_bytes(ps.push(p)) == peers_bytes(ps) + peer_bytes(p),
    decreases ps.len(),
{
    let t = ps.push(p);
    if ps.len() == 0 {
        assert(t[0] == p);
        assert(t.drop_first() =~= Seq::<PeerView>::empty());
        assert(peers_bytes(t.drop_first()) =~= Seq::<u8>::empty());
        assert(peers_bytes(t) =~= peer_bytes(p));
        assert(peers_bytes(ps) + peer_bytes(p) =~= peer_bytes(p));
    } else {
        assert(t[0] == ps[0]);
        assert(t.drop_first() =~= ps.drop_first().push(p));
        lemma_peers_bytes_push(ps.drop_first(), p);
        assert(peers_bytes(t) =~= peers_bytes(ps) + peer_bytes(p));
    }
}

fn push_u16(out: &mut Vec<u8>, x: u16)
    ensures
        final(out)@ == old(out)@ + u16_le(x),
{
    out.push((x % 256) as u8);
    out.push((x / 256) as u8);
    proof {
        assert(out@ =~= old(out)@ + u16_le(x));
    }
}

fn push_u32(out: &mut Vec<u8>, x: u32)
    ensures
        final(out)@ == old(out)@ + u32_le(x),
{
    out.push((x % 256) as u8);
    out.push(((x / 256) % 256) as u8);
    out.push(((x / 65536) % 256) as u8);
    out.push(((x / 16777216) % 256) as u8);
    proof {
        assert(out@ =~= old(out)@ + u32_le(x));
    }
}

fn push_u64(out: &mut Vec<u8>, x: u64)
    ensures
        final(out)@ == old(out)@ + u64_le(x),
{
    out.push((x % 256) as u8);
    out.push(((x / 256) % 256) as u8);
    out.push(((x / 65536) % 256) as u8);
    out.push(((x / 16777216) % 256) as u8);
    out.push(((x / 0x1_0000_0000) % 256) as u8);
    out.push(((x / 0x100_0000_0000) % 256) as u8);
    out.push(((x / 0x1_0000_0000_0000) % 256) as u8);
    out.push(((x / 0x100_0000_0000_0000) % 256) as u8);
    proof {
        assert(out@ =~= old(out)@ + u64_le(x));
    }
}

fn push_str_field(out: &mut Vec<u8>, s: &str)
    requires
        str_wf(s@),
    ensures
        final(out)@ == old(out)@ + str_bytes(s@),
{
    let n = s.unicode_len();
    push_u32(out, n as u32);
    let mut i: usize = 0;
    while i < n
        invariant
            n == s@.len(),
            i <= n,
            out@ == old(out)@ + u32_le(n as u32) + chars_bytes(s@.take(i as int)),
        decreases n - i,
    {
        let c = s.get_char(i);
        push_u32(out, c as u32);
        proof {
            assert(s@.take(i + 1 as int) =~= s@.take(i as int).push(s@[i as int]));
            lemma_chars_bytes_push(s@.take(i as int), s@[i as int]);
            assert(old(out)@ + u32_le(n as u32) + chars_bytes(s@.take(i as int)) + u32_le(
                c as u32,
            ) =~= old(out)@ + u32_le(n as u32) + (chars_bytes(s@.take(i as int)) + u32_le(
                c as u32,
            )));
        }
        i = i + 1;
    }
    proof {
        assert(s@.take(n as int) =~= s@);
        assert(old(out)@ + u32_le(n as u32) + chars_bytes(s@) =~= old(out)@ + str_bytes(s@));
    }
}

fn push_peer(out: &mut Vec<u8>, p: &RemoteClipboard)
    requires
        peer_view_wf(p@),
    ensures
        final(out)@ == old(out)@ + peer_bytes(p@),
{
    push_str_field(out, p.host.as_str());
    push_u16(out, p.port);
    proof {
        assert(old(out)@ + str_bytes(p@.host) + u16_le(p@.port) =~= old(out)@ + peer_bytes(p@));
    }
}

pub(crate) fn push_raw(out: &mut Vec<u8>, bytes: &Vec<u8>)
    ensures
        final(out)@ == old(out)@ + bytes@,
{
    let n = bytes.len();
    let mut i: usize = 0;
    while i < n
        invariant
            n == bytes@.len(),
            i <= n,
            out@ == old(out)@ + bytes@.take(i as int),
        decreases n - i,
    {
        out.push(bytes[i]);
        proof {
            assert(bytes@.take(i + 1 as int) =~= bytes@.take(i as int).push(bytes@[i as int]));
            assert((old(out)@ + bytes@.take(i as int)).push(bytes@[i as int]) =~= old(out)@
                + bytes@.take(i + 1 as int));
        }
        i = i + 1;
    }
    proof {
        assert(bytes@.take(n as int) =~= bytes@);
    }
}

fn big_kind_code(k: &UniclipBig) -> (r: u8)
    ensures
        r == big_kind_byte(*k),
{
    match k {
        UniclipBig::Text => 1u8,
        UniclipBig::Picture => 2u8,
        UniclipBig::File => 3u8,
    }
}


#[verifier::rlimit(60)]
fn encode_payload(out: &mut Vec<u8>, p: &UniclipPayload)
    requires
        payload_wf(p@),
    ensures
        final(out)@ == old(out)@ + payload_bytes(p@),
{
    match p {
        UniclipPayload::Echo(a) => {
            out.push(1u8);
            push_u32(out, *a);
            proof {
                assert(old(out)@.push(1u8) + u32_le(*a) =~= old(out)@ + payload_bytes(p@));
            }
        },
        UniclipPayload::EchoRes(a) => {
            out.push(2u8);
            push_u32(out, *a);
            proof {
                assert(old(out)@.push(2u8) + u32_le(*a) =~= old(out)@ + payload_bytes(p@));
            }
        },
        UniclipPayload::Peer(a) => {
            out.push(3u8);
            push_u32(out, *a);
            proof {
                assert(old(out)@.push(3u8) + u32_le(*a) =~= old(out)@ + payload_bytes(p@));
            }
        },
        UniclipPayload::PeerList(a, peers) => {
            out.push(4u8);
            push_u32(out, *a);
            push_u32(out, peers.len() as u32);
            let ghost pvs = peers@.map_values(|q: RemoteClipboard| q@);
            let ghost prefix = old(out)@.push(4u8) + u32_le(*a) + u32_le(peers.len() as u32);
            let n = peers.len();
            let mut i: usize = 0;
            while i < n
                invariant
                    n == peers@.len(),
                    i <= n,
                    pvs == peers@.map_values(|q: RemoteClipboard| q@),
                    forall|j: int| 0 <= j < n ==> peer_view_wf(#[trigger] pvs[j]),
                    out@ == prefix + peers_bytes(pvs.take(i as int)),
                decreases n - i,
            {
                proof {
                    assert(peers@[i as int]@ == pvs[i as int]);
                    assert(peer_view_wf(pvs[i as int]));
                }
                push_peer(out, &peers[i]);
                proof {
                    assert(pvs.take(i + 1 as int) =~= pvs.take(i as int).push(pvs[i as int]));
                    lemma_peers_bytes_push(pvs.take(i as int), pvs[i as int]);
                    assert(prefix + peers_bytes(pvs.take(i as int)) + peer_bytes(pvs[i as int])
                        =~= prefix + peers_bytes(pvs.take(i + 1 as int)));
                }
                i = i + 1;
            }
            proof {
                assert(pvs.take(n as int) =~= pvs);
                assert(prefix + peers_bytes(pvs) =~= old(out)@ + payload_bytes(p@));
            }
        },
        UniclipPayload::Port(a) => {
            out.push(5u8);
            push_u32(out, *a);
            proof {
                assert(old(out)@.push(5u8) + u32_le(*a) =~= old(out)@ + payload_bytes(p@));
            }
        },
        UniclipPayload::PortRes(a, port) => {
            out.push(6u8);
            push_u32(out, *a);
            push_u16(out, *port);
            proof {
                assert(old(out)@.push(6u8) + u32_le(*a) + u16_le(*port) =~= old(out)@
                    + payload_bytes(p@));
            }
        },
        UniclipPayload::Update(hash, data) => {
            out.push(7u8);
            push_str_field(out, hash.as_str());
            push_str_field(out, data.as_str());
            proof {
                assert(old(out)@.push(7u8) + str_bytes(hash@) + str_bytes(data@) =~= old(out)@
                    + payload_bytes(p@));
            }
        },
        UniclipPayload::UpdateRes(n) => {
            out.push(8u8);
            push_u64(out, *n as u64);
            proof {
                assert(old(out)@.push(8u8) + u64_le(*n as u64) =~= old(out)@ + payload_bytes(p@));
            }
        },
        UniclipPayload::UpdateBig(hash, kind, size) => {
            out.push(9u8);
            push_str_field(out, hash.as_str());
            out.push(big_kind_code(kind));
            push_u32(out, *size);
            proof {
                assert((old(out)@.push(9u8) + str_bytes(hash@)).push(big_kind_byte(*kind))
                    + u32_le(*size) =~= old(out)@ + payload_bytes(p@));
            }
        },
        UniclipPayload::UpdateBigAck(hash, size) => {
            out.push(10u8);
            push_str_field(out, hash.as_str());
            push_u32(out, *size);
            proof {
                assert(old(out)@.push(10u8) + str_bytes(hash@) + u32_le(*size) =~= old(out)@
                    + payload_bytes(p@));
            }
        },
        UniclipPayload::UpdateBigData(bytes) => {
            out.push(11u8);
            push_u32(out, bytes.len() as u32);
            push_raw(out, bytes);
            proof {
                assert(old(out)@.push(11u8) + u32_le(bytes.len() as u32) + bytes@ =~= old(out)@
                    + payload_bytes(p@));
            }
        },
        UniclipPayload::UpdateBigFinish(n) => {
            out.push(12u8);
            push_u64(out, *n as u64);
            proof {
                assert(old(out)@.push(12u8) + u64_le(*n as u64) =~= old(out)@ + payload_bytes(p@));
            }
        },
        UniclipPayload::Quit(a) => {
            out.push(13u8);
            push_u32(out, *a);
            proof {
                assert(old(out)@.push(13u8) + u32_le(*a) =~= old(out)@ + payload_bytes(p@));
            }
        },
        UniclipPayload::QuitRes(a) => {
            out.push(14u8);
            push_u32(out, *a);
            proof {
                assert(old(out)@.push(14u8) + u32_le(*a) =~= old(out)@ + payload_bytes(p@));
            }
        },
        UniclipPayload::ShutDown => {
            out.push(15u8);
            proof {
                assert(old(out)@.push(15u8) =~= old(out)@ + payload_bytes(p@));
            }
        },
        UniclipPayload::Error(msg) => {
            out.push(16u8);
            push_str_field(out, msg.as_str());
            proof {
                assert(old(out)@.push(16u8) + str_bytes(msg@) =~= old(out)@ + payload_bytes(p@));
            }
        },
    }
}

/// Lay a frame out as bytes, exactly as the spec encoder describes it.
pub fn encode_frame(f: &UniclipDataFrame) -> (r: Vec<u8>)
    requires
        frame_wf(f@),
    ensures
        r@ == frame_bytes(f@),
{
    let mut out: Vec<u8> = Vec::new();
    push_u16(&mut out, f.magic);
    out.push(f.version);
    encode_payload(&mut out, &f.payload);
    proof {
        assert((Seq::<u8>::empty() + u16_le(f@.magic)).push(f@.version) + payload_bytes(
            f@.payload,
        ) =~= frame_bytes(f@));
    }
    out
}


// ---------------------------------------------------------------------------
// The executable decoder. A cursor walks the buffer; every reader agrees
// with the spec parser on the bytes from the cursor on, succeeding and
// failing with it alike.
// ---------------------------------------------------------------------------

/// Relies on char::from_u32: it yields the character of a Unicode scalar
/// value and rejects exactly the surrogates and out-of-range values.
#[verifier::external_body]
fn char_from_u32(v: u32) -> (r: Option<char>)
    ensures
        r is Some <==> is_scalar(v),
        r is Some ==> (r->0 as u32) == v,
{
    char::from_u32(v)
}

/// Relies on String::push: it appends the one character to the end.
#[verifier::external_body]
fn push_char(s: &mut String, c: char)
    ensures
        final(s)@ == old(s)@.push(c),
{
    s.push(c);
}

fn read_u8(b: &Vec<u8>, pos: usize) -> (r: Option<(u8, usize)>)
    requires
        pos <= b@.len(),
    ensures
        match r {
            Some((v, newpos)) => {
                &&& pos <= newpos <= b@.len()
                &&& parse_u8(b@.skip(pos as int)) == Some((v, (newpos - pos) as int))
            },
            None => parse_u8(b@.skip(pos as int)) is None,
        },
{
    if b.len() - pos >= 1 {
        Some((b[pos], pos + 1))
    } else {
        None
    }
}

fn read_u16(b: &Vec<u8>, pos: usize) -> (r: Option<(u16, usize)>)
    requires
        pos <= b@.len(),
    ensures
        match r {
            Some((v, newpos)) => {
                &&& pos <= newpos <= b@.len()
                &&& parse_u16(b@.skip(pos as int)) == Some((v, (newpos - pos) as int))
            },
            None => parse_u16(b@.skip(pos as int)) is None,
        },
{
    if b.len() - pos >= 2 {
        let v: u16 = b[pos] as u16 + 256 * (b[pos + 1] as u16);
        Some((v, pos + 2))
    } else {
        None
    }
}

fn read_u32(b: &Vec<u8>, pos: usize) -> (r: Option<(u32, usize)>)
    requires
        pos <= b@.len(),
    ensures
        match r {
            Some((v, newpos)) => {
                &&& pos <= newpos <= b@.len()
                &&& parse_u32(b@.skip(pos as int)) == Some((v, (newpos - pos) as int))
            },
            None => parse_u32(b@.skip(pos as int)) is None,
        },
{
    if b.len() - pos >= 4 {
        let v: u32 = b[pos] as u32 + 256 * (b[pos + 1] as u32) + 65536 * (b[pos + 2] as u32)
            + 16777216 * (b[pos + 3] as u32);
        Some((v, pos + 4))
    } else {
        None
    }
}

fn read_u64(b: &Vec<u8>, pos: usize) -> (r: Option<(u64, usize)>)
    requires
        pos <= b@.len(),
    ensures
        match r {
            Some((v, newpos)) => {
                &&& pos <= newpos <= b@.len()
                &&& parse_u64(b@.skip(pos as int)) == Some((v, (newpos - pos) as int))
            },
            None => parse_u64(b@.skip(pos as int)) is None,
        },
{
    if b.len() - pos >= 8 {
        let v: u64 = b[pos] as u64 + 256 * (b[pos + 1] as u64) + 65536 * (b[pos + 2] as u64)
            + 16777216 * (b[pos + 3] as u64) + 0x1_0000_0000 * (b[pos + 4] as u64)
            + 0x100_0000_0000 * (b[pos + 5] as u64) + 0x1_0000_0000_0000 * (b[pos + 6] as u64)
            + 0x100_0000_0000_0000 * (b[pos + 7] as u64);
        proof {
            let sk = b@.skip(pos as int);
            assert(sk.subrange(0, 8)[0] == b@[pos as int]);
            assert(sk.subrange(0, 8)[1] == b@[pos as int + 1]);
            assert(sk.subrange(0, 8)[2] == b@[pos as int + 2]);
            assert(sk.subrange(0, 8)[3] == b@[pos as int + 3]);
            assert(sk.subrange(0, 8)[4] == b@[pos as int + 4]);
            assert(sk.subrange(0, 8)[5] == b@[pos as int + 5]);
            assert(sk.subrange(0, 8)[6] == b@[pos as int + 6]);
            assert(sk.subrange(0, 8)[7] == b@[pos as int + 7]);
        }
        Some((v, pos + 8))
    } else {
        None
    }
}

fn read_usize(b: &Vec<u8>, pos: usize) -> (r: Option<(usize, usize)>)
    requires
        pos <= b@.len(),
    ensures
        match r {
            Some((v, newpos)) => {
                &&& pos <= newpos <= b@.len()
                &&& parse_usize(b@.skip(pos as int)) == Some((v, (newpos - pos) as int))
            },
            None => parse_usize(b@.skip(pos as int)) is None,
        },
{
    match read_u64(b, pos) {
        Some((v, newpos)) => if v <= usize::MAX as u64 {
            Some((v as usize, newpos))
        } else {
            None
        },
        None => None,
    }
}


fn read_chars(b: &Vec<u8>, pos: usize, count: u32) -> (r: Option<(String, usize)>)
    requires
        pos <= b@.len(),
    ensures
        match r {
            Some((v, newpos)) => {
                &&& pos <= newpos <= b@.len()
                &&& parse_chars(b@.skip(pos as int), count as nat) == Some(
                    (v@, (newpos - pos) as int),
                )
            },
            None => parse_chars(b@.skip(pos as int), count as nat) is None,
        },
{
    let mut acc = String::new();
    let mut cur = pos;
    let mut left = count;
    loop
        invariant
            pos <= cur <= b@.len(),
            left <= count,
            (match parse_chars(b@.skip(cur as int), left as nat) {
                Some((s2, m)) => parse_chars(b@.skip(pos as int), count as nat) == Some(
                    (acc@ + s2, (cur - pos) + m),
                ),
                None => parse_chars(b@.skip(pos as int), count as nat) is None,
            }),
        decreases left,
    {
        if left == 0 {
            proof {
                assert(acc@ + Seq::<char>::empty() =~= acc@);
            }
            return Some((acc, cur));
        }
        match read_u32(b, cur) {
            Some((v, next)) => {
                match char_from_u32(v) {
                    Some(c) => {
                        proof {
                            char_u32_cast(c, v);
                            assert(b@.skip(cur as int).skip(4) =~= b@.skip(cur as int + 4));
                            let tailres = parse_chars(b@.skip(next as int), (left - 1) as nat);
                            if tailres is Some {
                                let (s2, m) = tailres->0;
                                assert(parse_chars(b@.skip(cur as int), left as nat) == Some(
                                    (seq![c] + s2, 4 + m),
                                ));
                                assert(acc@ + (seq![c] + s2) =~= acc@.push(c) + s2);
                            } else {
                                assert(parse_chars(b@.skip(cur as int), left as nat) is None);
                            }
                        }
                        push_char(&mut acc, c);
                        cur = next;
                        left = left - 1;
                    },
                    None => {
                        return None;
                    },
                }
            },
            None => {
                return None;
            },
        }
    }
}

fn read_str(b: &Vec<u8>, pos: usize) -> (r: Option<(String, usize)>)
    requires
        pos <= b@.len(),
    ensures
        match r {
            Some((v, newpos)) => {
                &&& pos <= newpos <= b@.len()
                &&& parse_str(b@.skip(pos as int)) == Some((v@, (newpos - pos) as int))
                &&& str_wf(v@)
            },
            None => parse_str(b@.skip(pos as int)) is None,
        },
{
    match read_u32(b, pos) {
        Some((count, next)) => {
            proof {
                assert(b@.skip(pos as int).skip(4) =~= b@.skip(pos as int + 4));
            }
            match read_chars(b, next, count) {
                Some((v, newpos)) => {
                    proof {
                        let res = parse_chars(b@.skip(next as int), count as nat);
                        assert(res == Some((v@, (newpos - next) as int)));
                        lemma_parse_chars_len(b@.skip(next as int), count as nat);
                    }
                    Some((v, newpos))
                },
                None => None,
            }
        },
        None => None,
    }
}

/// A parsed character sequence has exactly the announced count.
proof fn lemma_parse_chars_len(b: Seq<u8>, count: nat)
    ensures
        parse_chars(b, count) is Some ==> (parse_chars(b, count)->0).0.len() == count,
    decreases count,
{
    if count > 0 && parse_chars(b, count) is Some {
        lemma_parse_chars_len(b.skip(4), (count - 1) as nat);
    }
}

fn read_peer(b: &Vec<u8>, pos: usize) -> (r: Option<(RemoteClipboard, usize)>)
    requires
        pos <= b@.len(),
    ensures
        match r {
            Some((v, newpos)) => {
                &&& pos <= newpos <= b@.len()
                &&& parse_peer(b@.skip(pos as int)) == Some((v@, (newpos - pos) as int))
                &&& peer_view_wf(v@)
            },
            None => parse_peer(b@.skip(pos as int)) is None,
        },
{
    match read_str(b, pos) {
        Some((host, next)) => {
            proof {
                assert(b@.skip(pos as int).skip((next - pos) as int) =~= b@.skip(next as int));
            }
            match read_u16(b, next) {
                Some((port, newpos)) => Some((RemoteClipboard { host, port }, newpos)),
                None => None,
            }
        },
        None => None,
    }
}

fn read_peers(b: &Vec<u8>, pos: usize, count: u32) -> (r: Option<(Vec<RemoteClipboard>, usize)>)
    requires
        pos <= b@.len(),
    ensures
        match r {
            Some((v, newpos)) => {
                &&& pos <= newpos <= b@.len()
                &&& parse_peers(b@.skip(pos as int), count as nat) == Some(
                    (v@.map_values(|q: RemoteClipboard| q@), (newpos - pos) as int),
                )
            },
            None => parse_peers(b@.skip(pos as int), count as nat) is None,
        },
{
    let mut acc: Vec<RemoteClipboard> = Vec::new();
    let mut cur = pos;
    let mut left = count;
    loop
        invariant
            pos <= cur <= b@.len(),
            left <= count,
            (match parse_peers(b@.skip(cur as int), left as nat) {
                Some((ps2, m)) => parse_peers(b@.skip(pos as int), count as nat) == Some(
                    (acc@.map_values(|q: RemoteClipboard| q@) + ps2, (cur - pos) + m),
                ),
                None => parse_peers(b@.skip(pos as int), count as nat) is None,
            }),
        decreases left,
    {
        if left == 0 {
            proof {
                assert(acc@.map_values(|q: RemoteClipboard| q@) + Seq::<PeerView>::empty()
                    =~= acc@.map_values(|q: RemoteClipboard| q@));
            }
            return Some((acc, cur));
        }
        match read_peer(b, cur) {
            Some((p, next)) => {
                proof {
                    let n = (next - cur) as int;
                    assert(b@.skip(cur as int).skip(n) =~= b@.skip(next as int));
                    let tailres = parse_peers(b@.skip(next as int), (left - 1) as nat);
                    if tailres is Some {
                        let (ps2, m) = tailres->0;
                        assert(parse_peers(b@.skip(cur as int), left as nat) == Some(
                            (seq![p@] + ps2, n + m),
                        ));
                        assert(acc@.map_values(|q: RemoteClipboard| q@) + (seq![p@] + ps2)
                            =~= acc@.push(p).map_values(|q: RemoteClipboard| q@) + ps2);
                    } else {
                        assert(parse_peers(b@.skip(cur as int), left as nat) is None);
                    }
                }
                acc.push(p);
                cur = next;
                left = left - 1;
            },
            None => {
                return None;
            },
        }
    }
}

fn read_bytes(b: &Vec<u8>, pos: usize, count: u32) -> (r: Option<(Vec<u8>, usize)>)
    requires
        pos <= b@.len(),
    ensures
        match r {
            Some((v, newpos)) => {
                &&& pos <= newpos <= b@.len()
                &&& parse_bytes(b@.skip(pos as int), count as nat) == Some(
                    (v@, (newpos - pos) as int),
                )
            },
            None => parse_bytes(b@.skip(pos as int), count as nat) is None,
        },
{
    let count_us = count as usize;
    let blen = b.len();
    if blen - pos >= count_us {
        let mut acc: Vec<u8> = Vec::new();
        let mut i: usize = 0;
        while i < count_us
            invariant
                blen == b@.len(),
                pos + count_us <= blen,
                i <= count_us,
                acc@ =~= b@.subrange(pos as int, pos as int + i),
            decreases count_us - i,
        {
            acc.push(b[pos + i]);
            proof {
                assert(acc@ =~= b@.subrange(pos as int, pos as int + i + 1));
            }
            i = i + 1;
        }
        proof {
            assert(b@.skip(pos as int).subrange(0, count as int) =~= b@.subrange(
                pos as int,
                pos as int + count as int,
            ));
        }
        Some((acc, pos + count_us))
    } else {
        None
    }
}


fn big_kind_from(t: u8) -> (r: Option<UniclipBig>)
    ensures
        r == parse_big_kind(t),
{
    if t == 1 {
        Some(UniclipBig::Text)
    } else if t == 2 {
        Some(UniclipBig::Picture)
    } else if t == 3 {
        Some(UniclipBig::File)
    } else {
        None
    }
}

#[verifier::rlimit(80)]
fn read_payload_low(b: &Vec<u8>, pos: usize) -> (r: Option<(UniclipPayload, usize)>)
    requires
        pos < b@.len(),
        b@[pos as int] <= 8,
    ensures
        match r {
            Some((p, newpos)) => {
                &&& pos <= newpos <= b@.len()
                &&& parse_payload(b@.skip(pos as int)) == Some((p@, (newpos - pos) as int))
            },
            None => parse_payload(b@.skip(pos as int)) is None,
        },
{
    let _blen = b.len();
    let tag = b[pos];
    let body = pos + 1;
    proof {
        assert(b@.skip(pos as int)[0] == tag);
        assert(b@.skip(pos as int).skip(1) =~= b@.skip(body as int));
    }
    if tag == 1 || tag == 2 || tag == 3 || tag == 5 {
        match read_u32(b, body) {
            Some((a, newpos)) => {
                let p = if tag == 1 {
                    UniclipPayload::Echo(a)
                } else if tag == 2 {
                    UniclipPayload::EchoRes(a)
                } else if tag == 3 {
                    UniclipPayload::Peer(a)
                } else {
                    UniclipPayload::Port(a)
                };
                Some((p, newpos))
            },
            None => None,
        }
    } else if tag == 4 {
        match read_u32(b, body) {
            Some((a, p1)) => {
                proof {
                    assert(b@.skip(body as int).skip(4) =~= b@.skip(p1 as int));
                }
                match read_u32(b, p1) {
                    Some((count, p2)) => {
                        proof {
                            assert(b@.skip(body as int).skip(8) =~= b@.skip(p2 as int));
                        }
                        match read_peers(b, p2, count) {
                            Some((peers, newpos)) => Some(
                                (UniclipPayload::PeerList(a, peers), newpos),
                            ),
                            None => None,
                        }
                    },
                    None => None,
                }
            },
            None => None,
        }
    } else if tag == 6 {
        match read_u32(b, body) {
            Some((a, p1)) => {
                proof {
                    assert(b@.skip(body as int).skip(4) =~= b@.skip(p1 as int));
                }
                match read_u16(b, p1) {
                    Some((port, newpos)) => Some((UniclipPayload::PortRes(a, port), newpos)),
                    None => None,
                }
            },
            None => None,
        }
    } else if tag == 7 {
        match read_str(b, body) {
            Some((hash, p1)) => {
                proof {
                    assert(b@.skip(body as int).skip((p1 - body) as int) =~= b@.skip(p1 as int));
                }
                match read_str(b, p1) {
                    Some((data, newpos)) => Some((UniclipPayload::Update(hash, data), newpos)),
                    None => None,
                }
            },
            None => None,
        }
    } else if tag == 8 {
        match read_usize(b, body) {
            Some((n, newpos)) => Some((UniclipPayload::UpdateRes(n), newpos)),
            None => None,
        }
    } else {
        None
    }
}

#[verifier::rlimit(80)]
fn read_payload_high(b: &Vec<u8>, pos: usize) -> (r: Option<(UniclipPayload, usize)>)
    requires
        pos < b@.len(),
        b@[pos as int] >= 9,
    ensures
        match r {
            Some((p, newpos)) => {
                &&& pos <= newpos <= b@.len()
                &&& parse_payload(b@.skip(pos as int)) == Some((p@, (newpos - pos) as int))
            },
            None => parse_payload(b@.skip(pos as int)) is None,
        },
{
    let _blen = b.len();
    let tag = b[pos];
    let body = pos + 1;
    proof {
        assert(b@.skip(pos as int)[0] == tag);
        assert(b@.skip(pos as int).skip(1) =~= b@.skip(body as int));
    }
    if tag == 13 || tag == 14 {
        match read_u32(b, body) {
            Some((a, newpos)) => {
                let p = if tag == 13 {
                    UniclipPayload::Quit(a)
                } else {
                    UniclipPayload::QuitRes(a)
                };
                Some((p, newpos))
            },
            None => None,
        }
    } else if tag == 9 {
        match read_str(b, body) {
            Some((hash, p1)) => {
                proof {
                    assert(b@.skip(body as int).skip((p1 - body) as int) =~= b@.skip(p1 as int));
                }
                match read_u8(b, p1) {
                    Some((kb, p2)) => {
                        match big_kind_from(kb) {
                            Some(kind) => {
                                proof {
                                    assert(b@.skip(body as int).skip((p2 - body) as int) =~= b@
                                        .skip(p2 as int));
                                }
                                match read_u32(b, p2) {
                                    Some((size, newpos)) => Some(
                                        (UniclipPayload::UpdateBig(hash, kind, size), newpos),
                                    ),
                                    None => None,
                                }
                            },
                            None => None,
                        }
                    },
                    None => None,
                }
            },
            None => None,
        }
    } else if tag == 10 {
        match read_str(b, body) {
            Some((hash, p1)) => {
                proof {
                    assert(b@.skip(body as int).skip((p1 - body) as int) =~= b@.skip(p1 as int));
                }
                match read_u32(b, p1) {
                    Some((size, newpos)) => Some(
                        (UniclipPayload::UpdateBigAck(hash, size), newpos),
                    ),
                    None => None,
                }
            },
            None => None,
        }
    } else if tag == 11 {
        match read_u32(b, body) {
            Some((count, p1)) => {
                proof {
                    assert(b@.skip(body as int).skip(4) =~= b@.skip(p1 as int));
                }
                match read_bytes(b, p1, count) {
                    Some((bytes, newpos)) => Some(
                        (UniclipPayload::UpdateBigData(bytes), newpos),
                    ),
                    None => None,
                }
            },
            None => None,
        }
    } else if tag == 12 {
        match read_usize(b, body) {
            Some((n, newpos)) => Some((UniclipPayload::UpdateBigFinish(n), newpos)),
            None => None,
        }
    } else if tag == 15 {
        Some((UniclipPayload::ShutDown, body))
    } else if tag == 16 {
        match read_str(b, body) {
            Some((msg, newpos)) => Some((UniclipPayload::Error(msg), newpos)),
            None => None,
        }
    } else {
        None
    }
}

fn read_payload(b: &Vec<u8>, pos: usize) -> (r: Option<(UniclipPayload, usize)>)
    requires
        pos <= b@.len(),
    ensures
        match r {
            Some((p, newpos)) => {
                &&& pos <= newpos <= b@.len()
                &&& parse_payload(b@.skip(pos as int)) == Some((p@, (newpos - pos) as int))
            },
            None => parse_payload(b@.skip(pos as int)) is None,
        },
{
    if b.len() - pos < 1 {
        return None;
    }
    if b[pos] <= 8 {
        read_payload_low(b, pos)
    } else {
        read_payload_high(b, pos)
    }
}

/// Read a frame back out of bytes. This succeeds exactly on the byte
/// sequences that the spec parser accepts, and returns the frame the
/// spec parser assigns to them.
pub fn decode_frame(b: &Vec<u8>) -> (r: Option<UniclipDataFrame>)
    ensures
        match r {
            Some(f) => parse_frame(b@) == Some(f@),
            None => parse_frame(b@) is None,
        },
{
    proof {
        assert(b@.skip(0) =~= b@);
    }
    let magic = match read_u16(b, 0) {
        Some((m, _)) => m,
        None => {
            return None;
        },
    };
    let version = match read_u8(b, 2) {
        Some((v, _)) => v,
        None => {
            return None;
        },
    };
    match read_payload(b, 3) {
        Some((payload, newpos)) => {
            if newpos == b.len() {
                Some(UniclipDataFrame { magic, version, payload })
            } else {
                None
            }
        },
        None => None,
    }
}


// ---------------------------------------------------------------------------
// Whatever the parser accepts is well-formed: every length it read came
// out of a 32-bit field, so the value can be encoded again.
// ---------------------------------------------------------------------------

proof fn lemma_parse_str_wf(b: Seq<u8>)
    ensures
        parse_str(b) is Some ==> str_wf((parse_str(b)->0).0),
{
    if parse_str(b) is Some {
        let count = (parse_u32(b)->0).0;
        lemma_parse_chars_len(b.skip(4), count as nat);
    }
}

proof fn lemma_parse_peers_wf(b: Seq<u8>, count: nat)
    ensures
        parse_peers(b, count) is Some ==> {
            let ps = (parse_peers(b, count)->0).0;
            &&& ps.len() == count
            &&& forall|i: int| 0 <= i < ps.len() ==> peer_view_wf(#[trigger] ps[i])
        },
    decreases count,
{
    if count > 0 && parse_peers(b, count) is Some {
        let (p, n) = parse_peer(b)->0;
        lemma_parse_str_wf(b);
        lemma_parse_peers_wf(b.skip(n), (count - 1) as nat);
        let ps = (parse_peers(b, count)->0).0;
        let tail = (parse_peers(b.skip(n), (count - 1) as nat)->0).0;
        assert forall|i: int| 0 <= i < ps.len() implies peer_view_wf(#[trigger] ps[i]) by {
            if i > 0 {
                assert(ps[i] == tail[i - 1]);
            }
        }
    }
}

pub proof fn lemma_parse_payload_wf(b: Seq<u8>)
    ensures
        parse_payload(b) is Some ==> payload_wf((parse_payload(b)->0).0),
{
    if parse_payload(b) is Some {
        let tag = b[0];
        let r = b.skip(1);
        if tag == 4 {
            let count = (parse_u32(r.skip(4))->0).0;
            lemma_parse_peers_wf(r.skip(8), count as nat);
        } else if tag == 7 {
            lemma_parse_str_wf(r);
            let n = (parse_str(r)->0).1;
            lemma_parse_str_wf(r.skip(n));
        } else if tag == 9 || tag == 10 || tag == 16 {
            lemma_parse_str_wf(r);
        }
    }
}

/// A parsed frame is well-formed, and so can be encoded again.
pub proof fn lemma_parse_frame_wf(b: Seq<u8>)
    ensures
        parse_frame(b) is Some ==> frame_wf(parse_frame(b)->0),
{
    if parse_frame(b) is Some {
        lemma_parse_payload_wf(b.skip(3));
    }
}

} // verus!
