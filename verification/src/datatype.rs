use vstd::prelude::*;

verus! {

use crate::UNICLIP_MAGIC;
use crate::UNICLIP_PROTO_VERSION;

/// Abstract value of a peer address, as the contracts speak of it.
pub struct PeerView {
    pub host: Seq<char>,
    pub port: u16,
}

/// A reachable endpoint of the mesh: host name and listener port.
/// Two values denote the same peer exactly when both fields agree.
#[derive(Debug)]
pub struct RemoteClipboard {
    pub host: String,
    pub port: u16,
}

impl View for RemoteClipboard {
    type V = PeerView;

    open spec fn view(&self) -> PeerView {
        PeerView { host: self.host@, port: self.port }
    }
}

impl RemoteClipboard {
    /// A value-preserving copy.
    pub fn dup(&self) -> (r: RemoteClipboard)
        ensures
            r@ == self@,
    {
        RemoteClipboard { host: self.host.clone(), port: self.port }
    }
}

impl PartialEq for RemoteClipboard {
    fn eq(&self, other: &Self) -> (r: bool) {
        self.host == other.host && self.port == other.port
    }
}

impl vstd::std_specs::cmp::PartialEqSpecImpl for RemoteClipboard {
    open spec fn obeys_eq_spec() -> bool {
        true
    }

    open spec fn eq_spec(&self, other: &RemoteClipboard) -> bool {
        self@ == other@
    }
}

/// The local node's configuration: where it listens, the shared secret,
/// and the one seed peer (a zero port means no seed was configured).
pub struct LocalClipboard {
    pub port: u16,
    pub password: String,
    pub peer: RemoteClipboard,
}

impl LocalClipboard {
    /// Whether a seed peer was configured, and discovery should run.
    pub fn has_seed(&self) -> (r: bool)
        ensures
            r == (self.peer.port != 0),
    {
        self.peer.port != 0
    }
}

/// What a big transfer carries.
#[derive(Clone, Copy, PartialEq, Eq, Structural, Debug)]
pub enum UniclipBig {
    Text,
    Picture,
    File,
}

/// Abstract value of a payload.
pub enum PayloadView {
    Echo(u32),
    EchoRes(u32),
    Peer(u32),
    PeerList(u32, Seq<PeerView>),
    Port(u32),
    PortRes(u32, u16),
    Update(Seq<char>, Seq<char>),
    UpdateRes(usize),
    UpdateBig(Seq<char>, UniclipBig, u32),
    UpdateBigAck(Seq<char>, u32),
    UpdateBigData(Seq<u8>),
    UpdateBigFinish(usize),
    Quit(u32),
    QuitRes(u32),
    ShutDown,
    Error(Seq<char>),
}

/// The tagged union of protocol messages. Every request carries a random
/// nonce; its response carries the nonce's successor, so a caller can tell
/// its own answer from a stale one.
#[derive(Debug, PartialEq)]
pub enum UniclipPayload {
    /// Liveness probe, carrying a nonce.
    Echo(u32),
    /// Liveness answer: the probe's nonce plus one.
    EchoRes(u32),
    /// Membership query, carrying a nonce.
    Peer(u32),
    /// Membership answer: nonce plus one, and the known peers.
    PeerList(u32, Vec<RemoteClipboard>),
    /// Listener-port query, carrying a nonce.
    Port(u32),
    /// Listener-port answer: nonce plus one, and the advertised port.
    PortRes(u32, u16),
    /// Inline clipboard push: content digest, then the content.
    Update(String, String),
    /// Acknowledgement of an applied push: the content's byte length.
    UpdateRes(usize),
    /// Big-transfer announcement: digest, kind, and total byte size.
    UpdateBig(String, UniclipBig, u32),
    /// Big-transfer go-ahead, echoing digest and size.
    UpdateBigAck(String, u32),
    /// One chunk of a big transfer.
    UpdateBigData(Vec<u8>),
    /// Big-transfer completion report: the received byte length.
    UpdateBigFinish(usize),
    /// Termination request, carrying a nonce.
    Quit(u32),
    /// Termination answer: nonce plus one.
    QuitRes(u32),
    /// Whole-mesh shutdown signal.
    ShutDown,
    /// Protocol-level failure, carried back over the live connection.
    Error(String),
}

impl View for UniclipPayload {
    type V = PayloadView;

    open spec fn view(&self) -> PayloadView {
        match self {
            UniclipPayload::Echo(a) => PayloadView::Echo(*a),
            UniclipPayload::EchoRes(a) => PayloadView::EchoRes(*a),
            UniclipPayload::Peer(a) => PayloadView::Peer(*a),
            UniclipPayload::PeerList(a, peers) => PayloadView::PeerList(
                *a,
                peers@.map_values(|p: RemoteClipboard| p@),
            ),
            UniclipPayload::Port(a) => PayloadView::Port(*a),
            UniclipPayload::PortRes(a, port) => PayloadView::PortRes(*a, *port),
            UniclipPayload::Update(hash, data) => PayloadView::Update(hash@, data@),
            UniclipPayload::UpdateRes(n) => PayloadView::UpdateRes(*n),
            UniclipPayload::UpdateBig(hash, kind, size) => PayloadView::UpdateBig(
                hash@,
                *kind,
                *size,
            ),
            UniclipPayload::UpdateBigAck(hash, size) => PayloadView::UpdateBigAck(hash@, *size),
            UniclipPayload::UpdateBigData(bytes) => PayloadView::UpdateBigData(bytes@),
            UniclipPayload::UpdateBigFinish(n) => PayloadView::UpdateBigFinish(*n),
            UniclipPayload::Quit(a) => PayloadView::Quit(*a),
            UniclipPayload::QuitRes(a) => PayloadView::QuitRes(*a),
            UniclipPayload::ShutDown => PayloadView::ShutDown,
            UniclipPayload::Error(msg) => PayloadView::Error(msg@),
        }
    }
}

/// Abstract value of a frame.
pub struct FrameView {
    pub magic: u16,
    pub version: u8,
    pub payload: PayloadView,
}

/// The only unit ever placed on the wire: magic, version, payload. The
/// whole frame is authenticated-encrypted before transmission.
#[derive(Debug, PartialEq)]
pub struct UniclipDataFrame {
    pub magic: u16,
    pub version: u8,
    pub payload: UniclipPayload,
}

impl View for UniclipDataFrame {
    type V = FrameView;

    open spec fn view(&self) -> FrameView {
        FrameView { magic: self.magic, version: self.version, payload: self.payload@ }
    }
}

/// A string short enough that its character count fits the wire's
/// 32-bit length field.
pub open spec fn str_wf(s: Seq<char>) -> bool {
    s.len() < 0x1_0000_0000
}

pub open spec fn peer_view_wf(p: PeerView) -> bool {
    str_wf(p.host)
}

/// Bounds that the wire format imposes on a payload: every length that
/// the encoding writes must fit its 32-bit field.
pub open spec fn payload_wf(p: PayloadView) -> bool {
    match p {
        PayloadView::PeerList(_, peers) => peers.len() < 0x1_0000_0000 && (forall|i: int|
            0 <= i < peers.len() ==> peer_view_wf(#[trigger] peers[i])),
        PayloadView::Update(hash, data) => str_wf(hash) && str_wf(data),
        PayloadView::UpdateBig(hash, _, _) => str_wf(hash),
        PayloadView::UpdateBigAck(hash, _) => str_wf(hash),
        PayloadView::UpdateBigData(bytes) => bytes.len() < 0x1_0000_0000,
        PayloadView::Error(msg) => str_wf(msg),
        _ => true,
    }
}

pub open spec fn frame_wf(f: FrameView) -> bool {
    payload_wf(f.payload)
}

/// The classification the correlator keys pending responses by.
#[derive(Clone, Copy, PartialEq, Eq, Structural, Debug)]
pub enum PayloadTag {
    Echo,
    EchoRes,
    Peer,
    PeerList,
    Port,
    PortRes,
    Update,
    UpdateRes,
    UpdateBig,
    UpdateBigAck,
    UpdateBigData,
    UpdateBigFinish,
    Quit,
    QuitRes,
    ShutDown,
    Error,
}

pub open spec fn tag_of(p: PayloadView) -> PayloadTag {
    match p {
        PayloadView::Echo(..) => PayloadTag::Echo,
        PayloadView::EchoRes(..) => PayloadTag::EchoRes,
        PayloadView::Peer(..) => PayloadTag::Peer,
        PayloadView::PeerList(..) => PayloadTag::PeerList,
        PayloadView::Port(..) => PayloadTag::Port,
        PayloadView::PortRes(..) => PayloadTag::PortRes,
        PayloadView::Update(..) => PayloadTag::Update,
        PayloadView::UpdateRes(..) => PayloadTag::UpdateRes,
        PayloadView::UpdateBig(..) => PayloadTag::UpdateBig,
        PayloadView::UpdateBigAck(..) => PayloadTag::UpdateBigAck,
        PayloadView::UpdateBigData(..) => PayloadTag::UpdateBigData,
        PayloadView::UpdateBigFinish(..) => PayloadTag::UpdateBigFinish,
        PayloadView::Quit(..) => PayloadTag::Quit,
        PayloadView::QuitRes(..) => PayloadTag::QuitRes,
        PayloadView::ShutDown => PayloadTag::ShutDown,
        PayloadView::Error(..) => PayloadTag::Error,
    }
}

impl UniclipPayload {
    /// The tag of this payload.
    pub fn tag(&self) -> (t: PayloadTag)
        ensures
            t == tag_of(self@),
    {
        match self {
            UniclipPayload::Echo(..) => PayloadTag::Echo,
            UniclipPayload::EchoRes(..) => PayloadTag::EchoRes,
            UniclipPayload::Peer(..) => PayloadTag::Peer,
            UniclipPayload::PeerList(..) => PayloadTag::PeerList,
            UniclipPayload::Port(..) => PayloadTag::Port,
            UniclipPayload::PortRes(..) => PayloadTag::PortRes,
            UniclipPayload::Update(..) => PayloadTag::Update,
            UniclipPayload::UpdateRes(..) => PayloadTag::UpdateRes,
            UniclipPayload::UpdateBig(..) => PayloadTag::UpdateBig,
            UniclipPayload::UpdateBigAck(..) => PayloadTag::UpdateBigAck,
            UniclipPayload::UpdateBigData(..) => PayloadTag::UpdateBigData,
            UniclipPayload::UpdateBigFinish(..) => PayloadTag::UpdateBigFinish,
            UniclipPayload::Quit(..) => PayloadTag::Quit,
            UniclipPayload::QuitRes(..) => PayloadTag::QuitRes,
            UniclipPayload::ShutDown => PayloadTag::ShutDown,
            UniclipPayload::Error(..) => PayloadTag::Error,
        }
    }
}

/// Payload shapes that answer a request; the dispatcher hands these to
/// the correlator instead of answering them itself.
pub open spec fn is_response_tag(t: PayloadTag) -> bool {
    ||| t == PayloadTag::EchoRes
    ||| t == PayloadTag::PeerList
    ||| t == PayloadTag::PortRes
    ||| t == PayloadTag::UpdateRes
    ||| t == PayloadTag::UpdateBigAck
    ||| t == PayloadTag::UpdateBigFinish
    ||| t == PayloadTag::QuitRes
}

/// The nonce a response must carry for a request that carried `a`:
/// its successor, wrapping at the top of the 32-bit range.
pub open spec fn nonce_succ(a: u32) -> u32 {
    if a == 0xFFFF_FFFFu32 {
        0u32
    } else {
        (a + 1) as u32
    }
}

/// Executable successor of a request nonce.
pub fn nonce_next(a: u32) -> (r: u32)
    ensures
        r == nonce_succ(a),
{
    if a == 0xFFFF_FFFFu32 {
        0u32
    } else {
        a + 1
    }
}

/// The frame the library wraps every outbound payload in.
pub open spec fn local_frame(p: PayloadView) -> FrameView {
    FrameView { magic: UNICLIP_MAGIC, version: UNICLIP_PROTO_VERSION, payload: p }
}


/// A value-preserving copy of a peer list.
pub fn dup_peers(v: &Vec<RemoteClipboard>) -> (r: Vec<RemoteClipboard>)
    ensures
        r@.map_values(|p: RemoteClipboard| p@) == v@.map_values(|p: RemoteClipboard| p@),
        r@.len() == v@.len(),
{
    let mut out: Vec<RemoteClipboard> = Vec::new();
    let n = v.len();
    let mut i: usize = 0;
    while i < n
        invariant
            n == v@.len(),
            i <= n,
            out@.len() == i,
            forall|j: int| 0 <= j < i ==> #[trigger] out@[j]@ == v@[j]@,
        decreases n - i,
    {
        out.push(v[i].dup());
        i = i + 1;
    }
    proof {
        assert(out@.map_values(|p: RemoteClipboard| p@) =~= v@.map_values(
            |p: RemoteClipboard| p@,
        ));
    }
    out
}

/// A value-preserving copy of a byte vector.
pub fn dup_bytes(v: &Vec<u8>) -> (r: Vec<u8>)
    ensures
        r@ == v@,
{
    let mut out: Vec<u8> = Vec::new();
    let n = v.len();
    let mut i: usize = 0;
    while i < n
        invariant
            n == v@.len(),
            i <= n,
            out@ =~= v@.take(i as int),
        decreases n - i,
    {
        out.push(v[i]);
        proof {
            assert(out@ =~= v@.take(i + 1 as int));
        }
        i = i + 1;
    }
    proof {
        assert(v@.take(n as int) =~= v@);
    }
    out
}

impl UniclipPayload {
    /// A value-preserving copy, for fanning one payload out to many
    /// connections.
    pub fn dup(&self) -> (r: Self)
        ensures
            r@ == self@,
    {
        match self {
            UniclipPayload::Echo(a) => UniclipPayload::Echo(*a),
            UniclipPayload::EchoRes(a) => UniclipPayload::EchoRes(*a),
            UniclipPayload::Peer(a) => UniclipPayload::Peer(*a),
            UniclipPayload::PeerList(a, peers) => UniclipPayload::PeerList(*a, dup_peers(peers)),
            UniclipPayload::Port(a) => UniclipPayload::Port(*a),
            UniclipPayload::PortRes(a, port) => UniclipPayload::PortRes(*a, *port),
            UniclipPayload::Update(hash, data) => UniclipPayload::Update(
                hash.clone(),
                data.clone(),
            ),
            UniclipPayload::UpdateRes(n) => UniclipPayload::UpdateRes(*n),
            UniclipPayload::UpdateBig(hash, kind, size) => UniclipPayload::UpdateBig(
                hash.clone(),
                *kind,
                *size,
            ),
            UniclipPayload::UpdateBigAck(hash, size) => UniclipPayload::UpdateBigAck(
                hash.clone(),
                *size,
            ),
            UniclipPayload::UpdateBigData(bytes) => UniclipPayload::UpdateBigData(
                dup_bytes(bytes),
            ),
            UniclipPayload::UpdateBigFinish(n) => UniclipPayload::UpdateBigFinish(*n),
            UniclipPayload::Quit(a) => UniclipPayload::Quit(*a),
            UniclipPayload::QuitRes(a) => UniclipPayload::QuitRes(*a),
            UniclipPayload::ShutDown => UniclipPayload::ShutDown,
            UniclipPayload::Error(msg) => UniclipPayload::Error(msg.clone()),
        }
    }
}

} // verus!
