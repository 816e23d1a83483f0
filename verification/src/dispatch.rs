use vstd::prelude::*;

verus! {

use crate::datatype::PayloadTag;
use crate::datatype::PayloadView;
use crate::datatype::PeerView;
use crate::datatype::UniclipBig;
use crate::datatype::UniclipPayload;
use crate::datatype::dup_peers;
use crate::datatype::nonce_succ;
use crate::datatype::nonce_next;
use crate::datatype::tag_of;
use crate::mesh::EntryView;
use crate::mesh::MeshState;
use crate::crypto::hash;
use crate::crypto::sha256_hex_of;
use crate::codec::push_raw;
use vstd::utf8::decode_utf8;
use vstd::utf8::encode_utf8;
use vstd::utf8::valid_utf8;

// ---------------------------------------------------------------------------
// The dispatcher: one inbound payload at a time, classified as a request
// (answer now), a response (file with the correlator), a step of a big
// transfer (feed the connection's transfer state), or a protocol violation
// (fail fast: the process is the unit of failure containment).
// ---------------------------------------------------------------------------

/// The big-transfer state of one connection's receiving side.
#[derive(Debug)]
pub enum BigProgress {
    /// No transfer underway.
    Idle,
    /// A transfer was announced and its chunks are being collected.
    Receiving { hash: String, kind: UniclipBig, total: u32, buf: Vec<u8> },
}

/// Abstract value of a connection's transfer state.
pub enum BigView {
    Idle,
    Receiving { hash: Seq<char>, kind: UniclipBig, total: u32, buf: Seq<u8> },
}

impl View for BigProgress {
    type V = BigView;

    open spec fn view(&self) -> BigView {
        match self {
            BigProgress::Idle => BigView::Idle,
            BigProgress::Receiving { hash, kind, total, buf } => BigView::Receiving {
                hash: hash@,
                kind: *kind,
                total: *total,
                buf: buf@,
            },
        }
    }
}

/// The collected chunks never outgrow the announced size.
pub open spec fn big_wf(c: BigView) -> bool {
    match c {
        BigView::Idle => true,
        BigView::Receiving { total, buf, .. } => buf.len() <= total,
    }
}

/// What the connection's loop must do with one inbound payload.
#[derive(Debug, PartialEq)]
pub enum DispatchAction {
    /// Send this payload back on the same connection.
    Reply(UniclipPayload),
    /// The payload answered a request; it now waits in the correlator.
    Enqueued,
    /// Write the text to the local clipboard, then send the payload back.
    Apply(String, UniclipPayload),
    /// A chunk was collected; nothing to send yet.
    NoReply,
    /// A payload no dispatcher arm recognizes: fatal, fail fast.
    FatalProtocol,
}

/// Abstract value of a dispatch action.
pub enum ActionView {
    Reply(PayloadView),
    Enqueued,
    Apply(Seq<char>, PayloadView),
    NoReply,
    FatalProtocol,
}

impl View for DispatchAction {
    type V = ActionView;

    open spec fn view(&self) -> ActionView {
        match self {
            DispatchAction::Reply(p) => ActionView::Reply(p@),
            DispatchAction::Enqueued => ActionView::Enqueued,
            DispatchAction::Apply(text, p) => ActionView::Apply(text@, p@),
            DispatchAction::NoReply => ActionView::NoReply,
            DispatchAction::FatalProtocol => ActionView::FatalProtocol,
        }
    }
}

pub open spec fn is_enqueued_tag(t: PayloadTag) -> bool {
    ||| t == PayloadTag::EchoRes
    ||| t == PayloadTag::PeerList
    ||| t == PayloadTag::PortRes
    ||| t == PayloadTag::UpdateRes
    ||| t == PayloadTag::UpdateBigAck
    ||| t == PayloadTag::UpdateBigFinish
    ||| t == PayloadTag::QuitRes
}

/// Everything the dispatcher does with one payload, as a function of the
/// mesh state, the connection's transfer state, and the payload: the
/// action, the correlator table afterwards, and the transfer state
/// afterwards.
pub open spec fn dispatch_spec(
    mq: Seq<EntryView>,
    peers: Seq<PeerView>,
    port: u16,
    conn: BigView,
    index: usize,
    p: PayloadView,
) -> (ActionView, Seq<EntryView>, BigView) {
    if is_enqueued_tag(tag_of(p)) {
        (ActionView::Enqueued, mq.push(EntryView { index, tag: tag_of(p), data: p }), conn)
    } else {
        match p {
            PayloadView::Echo(a) => (
                ActionView::Reply(PayloadView::EchoRes(nonce_succ(a))),
                mq,
                conn,
            ),
            PayloadView::Peer(a) => (
                ActionView::Reply(PayloadView::PeerList(nonce_succ(a), peers)),
                mq,
                conn,
            ),
            PayloadView::Port(a) => (
                ActionView::Reply(PayloadView::PortRes(nonce_succ(a), port)),
                mq,
                conn,
            ),
            PayloadView::Update(h, d) => if h == sha256_hex_of(d) {
                (
                    ActionView::Apply(
                        d,
                        PayloadView::UpdateRes(encode_utf8(d).len() as usize),
                    ),
                    mq,
                    conn,
                )
            } else {
                (ActionView::Reply(PayloadView::Error("Update text hash error"@)), mq, conn)
            },
            PayloadView::UpdateBig(h, kind, size) => if conn is Idle && kind
                == UniclipBig::Text {
                (
                    ActionView::Reply(PayloadView::UpdateBigAck(h, size)),
                    mq,
                    BigView::Receiving { hash: h, kind, total: size, buf: Seq::empty() },
                )
            } else {
                (ActionView::FatalProtocol, mq, conn)
            },
            PayloadView::UpdateBigData(b) => match conn {
                BigView::Receiving { hash, kind, total, buf } => if buf.len() + b.len()
                    > total {
                    (ActionView::FatalProtocol, mq, conn)
                } else {
                    let nb = buf + b;
                    if nb.len() < total {
                        (
                            ActionView::NoReply,
                            mq,
                            BigView::Receiving { hash, kind, total, buf: nb },
                        )
                    } else if valid_utf8(nb) && sha256_hex_of(decode_utf8(nb)) == hash {
                        (
                            ActionView::Apply(
                                decode_utf8(nb),
                                PayloadView::UpdateBigFinish(total as usize),
                            ),
                            mq,
                            BigView::Idle,
                        )
                    } else {
                        (
                            ActionView::Reply(PayloadView::Error("Update text hash error"@)),
                            mq,
                            BigView::Idle,
                        )
                    }
                },
                BigView::Idle => (ActionView::FatalProtocol, mq, conn),
            },
            _ => (ActionView::FatalProtocol, mq, conn),
        }
    }
}

/// Relies on String::from_utf8: it succeeds exactly on valid UTF-8, and
/// returns the text those bytes spell.
#[verifier::external_body]
fn string_from_utf8(bytes: Vec<u8>) -> (r: Option<String>)
    ensures
        r is Some <==> valid_utf8(bytes@),
        r is Some ==> r->0@ == decode_utf8(bytes@),
{
    String::from_utf8(bytes).ok()
}

/// Handle one inbound payload for the connection with handle `index`.
/// Requests are answered from current state, responses are filed with the
/// correlator, big-transfer steps feed `conn`, and anything else is a
/// fatal protocol violation — exactly as `dispatch_spec` lays down.
pub fn dispatch(state: &mut MeshState, conn: BigProgress, index: usize, data: UniclipPayload) -> (r:
    (BigProgress, DispatchAction))
    requires
        big_wf(conn@),
    ensures
        ({
            let (a, mq2, c2) = dispatch_spec(
                old(state).mq_view(),
                old(state).peers_view(),
                old(state).local_port,
                conn@,
                index,
                data@,
            );
            &&& r.1@ == a
            &&& final(state).mq_view() == mq2
            &&& r.0@ == c2
        }),
        big_wf(r.0@),
        final(state).peers_view() == old(state).peers_view(),
        final(state).local_port == old(state).local_port,
        final(state).next_handle == old(state).next_handle,
{
    match data {
        UniclipPayload::Echo(a) => (
            conn,
            DispatchAction::Reply(UniclipPayload::EchoRes(nonce_next(a))),
        ),
        UniclipPayload::Peer(a) => {
            let snapshot = dup_peers(&state.peers);
            (
                conn,
                DispatchAction::Reply(UniclipPayload::PeerList(nonce_next(a), snapshot)),
            )
        },
        UniclipPayload::Port(a) => (
            conn,
            DispatchAction::Reply(UniclipPayload::PortRes(nonce_next(a), state.local_port)),
        ),
        UniclipPayload::Update(h, d) => {
            let digest = hash(d.as_str());
            if h == digest {
                let len = d.as_str().len();
                (conn, DispatchAction::Apply(d, UniclipPayload::UpdateRes(len)))
            } else {
                (
                    conn,
                    DispatchAction::Reply(
                        UniclipPayload::Error(String::from_str("Update text hash error")),
                    ),
                )
            }
        },
        UniclipPayload::UpdateBig(h, kind, size) => {
            let idle = match &conn {
                BigProgress::Idle => true,
                BigProgress::Receiving { .. } => false,
            };
            let is_text = match kind {
                UniclipBig::Text => true,
                _ => false,
            };
            if idle && is_text {
                let ack = DispatchAction::Reply(UniclipPayload::UpdateBigAck(h.clone(), size));
                (BigProgress::Receiving { hash: h, kind, total: size, buf: Vec::new() }, ack)
            } else {
                (conn, DispatchAction::FatalProtocol)
            }
        },
        UniclipPayload::UpdateBigData(b) => {
            match conn {
                BigProgress::Receiving { hash: h, kind, total, mut buf } => {
                    if b.len() > (total as usize) - buf.len() {
                        (
                            BigProgress::Receiving { hash: h, kind, total, buf },
                            DispatchAction::FatalProtocol,
                        )
                    } else {
                        push_raw(&mut buf, &b);
                        if buf.len() < total as usize {
                            (
                                BigProgress::Receiving { hash: h, kind, total, buf },
                                DispatchAction::NoReply,
                            )
                        } else {
                            match string_from_utf8(buf) {
                                Some(text) => {
                                    let digest = hash(text.as_str());
                                    if digest == h {
                                        (
                                            BigProgress::Idle,
                                            DispatchAction::Apply(
                                                text,
                                                UniclipPayload::UpdateBigFinish(total as usize),
                                            ),
                                        )
                                    } else {
                                        (
                                            BigProgress::Idle,
                                            DispatchAction::Reply(
                                                UniclipPayload::Error(
                                                    String::from_str("Update text hash error"),
                                                ),
                                            ),
                                        )
                                    }
                                },
                                None => (
                                    BigProgress::Idle,
                                    DispatchAction::Reply(
                                        UniclipPayload::Error(
                                            String::from_str("Update text hash error"),
                                        ),
                                    ),
                                ),
                            }
                        }
                    }
                },
                BigProgress::Idle => (BigProgress::Idle, DispatchAction::FatalProtocol),
            }
        },
        UniclipPayload::EchoRes(..) | UniclipPayload::PeerList(..) | UniclipPayload::PortRes(..)
            | UniclipPayload::UpdateRes(..) | UniclipPayload::UpdateBigAck(..)
            | UniclipPayload::UpdateBigFinish(..) | UniclipPayload::QuitRes(..) => {
            let tag = data.tag();
            state.insert(index, tag, data);
            (conn, DispatchAction::Enqueued)
        },
        UniclipPayload::Quit(..) | UniclipPayload::ShutDown | UniclipPayload::Error(..) => (
            conn,
            DispatchAction::FatalProtocol,
        ),
    }
}

} // verus!
