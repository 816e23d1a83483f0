use vstd::prelude::*;

verus! {

use crate::UNICLIP_MAGIC;
use crate::UNICLIP_PROTO_VERSION;
use crate::datatype::FrameView;
use crate::datatype::PayloadView;
use crate::datatype::UniclipDataFrame;
use crate::datatype::UniclipPayload;
use crate::datatype::frame_wf;
use crate::datatype::local_frame;
use crate::datatype::payload_wf;
use crate::codec::decode_frame;
use crate::codec::encode_frame;
use crate::codec::frame_bytes;
use crate::codec::lemma_parse_frame_of_encode;
use crate::codec::lemma_parse_frame_wf;
use crate::codec::parse_frame;
use crate::crypto::SharedKeyMaterial;
use crate::crypto::decrypt_bytes;
use crate::crypto::decrypt_of;
use crate::crypto::encrypt_bytes;

/// A frame whose encoding stays under the cipher's plaintext ceiling.
/// Every realistic frame does: the bound is thirty-two gibibytes.
pub open spec fn frame_fits(f: FrameView) -> bool {
    frame_bytes(f).len() < 0x8_0000_0000
}

/// What unpacking a ciphertext under a key yields: the carried payload of
/// an authentic, well-formed frame of the right magic and version; the
/// specific error payload naming the first check that failed otherwise.
pub open spec fn unpack_view(c: Seq<u8>, key: Seq<u8>) -> PayloadView {
    match decrypt_of(c, key) {
        Some(plain) => match parse_frame(plain) {
            Some(f) => if f.magic != UNICLIP_MAGIC {
                PayloadView::Error("Invalid magic number"@)
            } else if f.version != UNICLIP_PROTO_VERSION {
                PayloadView::Error("Invalid protocol version"@)
            } else {
                f.payload
            },
            None => PayloadView::Error("Unable to decrypt data frame"@),
        },
        None => PayloadView::Error("Unable to decrypt data frame"@),
    }
}

/// Encrypt an arbitrary frame for the wire. The ciphertext may differ
/// between calls; what is promised is what it decrypts back to.
pub fn pack_frame(frame: &UniclipDataFrame, key: &SharedKeyMaterial) -> (c: Vec<u8>)
    requires
        key.wf(),
        frame_wf(frame@),
        frame_fits(frame@),
    ensures
        decrypt_of(c@, key@) == Some(frame_bytes(frame@)),
{
    let plain = encode_frame(frame);
    encrypt_bytes(plain, key)
}

/// Wrap a payload in the local magic and version and encrypt it.
pub fn pack(data: UniclipPayload, key: &SharedKeyMaterial) -> (c: Vec<u8>)
    requires
        key.wf(),
        payload_wf(data@),
        frame_fits(local_frame(data@)),
    ensures
        decrypt_of(c@, key@) == Some(frame_bytes(local_frame(data@))),
{
    let frame = UniclipDataFrame {
        magic: UNICLIP_MAGIC,
        version: UNICLIP_PROTO_VERSION,
        payload: data,
    };
    pack_frame(&frame, key)
}

/// Pack a payload after checking the one bound `pack` asks for: that
/// the frame's encoding stays under the cipher's plaintext ceiling.
/// Nothing realistic fails the check; on the value that would, nothing
/// is encrypted and `None` comes back.
pub fn try_pack(data: UniclipPayload, key: &SharedKeyMaterial) -> (r: Option<Vec<u8>>)
    requires
        key.wf(),
        payload_wf(data@),
    ensures
        r is Some <==> frame_fits(local_frame(data@)),
        r is Some ==> decrypt_of(r->0@, key@) == Some(frame_bytes(local_frame(data@))),
{
    let frame = UniclipDataFrame {
        magic: UNICLIP_MAGIC,
        version: UNICLIP_PROTO_VERSION,
        payload: data,
    };
    let plain = encode_frame(&frame);
    if (plain.len() as u64) < 0x8_0000_0000u64 {
        Some(encrypt_bytes(plain, key))
    } else {
        None
    }
}

/// Decrypt and decode one wire unit. A failed decryption, a plaintext
/// that is no frame, a wrong magic or a wrong version each yield the
/// corresponding error payload; the connection stays usable.
pub fn unpack(data: Vec<u8>, key: &SharedKeyMaterial) -> (p: UniclipPayload)
    requires
        key.wf(),
    ensures
        p@ == unpack_view(data@, key@),
        payload_wf(p@),
{
    proof {
        reveal_strlit("Invalid magic number");
        reveal_strlit("Invalid protocol version");
        reveal_strlit("Unable to decrypt data frame");
        if decrypt_of(data@, key@) is Some {
            lemma_parse_frame_wf(decrypt_of(data@, key@)->0);
        }
    }
    match decrypt_bytes(&data, key) {
        Some(plain) => match decode_frame(&plain) {
            Some(f) => if f.magic != UNICLIP_MAGIC {
                UniclipPayload::Error(String::from_str("Invalid magic number"))
            } else if f.version != UNICLIP_PROTO_VERSION {
                UniclipPayload::Error(String::from_str("Invalid protocol version"))
            } else {
                f.payload
            },
            None => UniclipPayload::Error(String::from_str("Unable to decrypt data frame")),
        },
        None => UniclipPayload::Error(String::from_str("Unable to decrypt data frame")),
    }
}

/// Round trip: a ciphertext that decrypts to the encoding of a local
/// frame carrying payload `p` unpacks to exactly `p`.
pub proof fn lemma_pack_unpack_round_trip(p: PayloadView, c: Seq<u8>, k: Seq<u8>)
    requires
        payload_wf(p),
        decrypt_of(c, k) == Some(frame_bytes(local_frame(p))),
    ensures
        unpack_view(c, k) == p,
{
    lemma_parse_frame_of_encode(local_frame(p));
}

/// Tamper floor: a ciphertext that the key rejects never yields a
/// payload, only the decryption error.
pub proof fn lemma_undecryptable_is_error(c: Seq<u8>, k: Seq<u8>)
    requires
        decrypt_of(c, k) is None,
    ensures
        unpack_view(c, k) == PayloadView::Error("Unable to decrypt data frame"@),
{
}

/// A plaintext that is no frame yields the same error as a failed
/// decryption.
pub proof fn lemma_unparsable_is_error(c: Seq<u8>, k: Seq<u8>)
    requires
        decrypt_of(c, k) is Some,
        parse_frame(decrypt_of(c, k)->0) is None,
    ensures
        unpack_view(c, k) == PayloadView::Error("Unable to decrypt data frame"@),
{
}

/// A frame with the wrong magic, however well encrypted, yields exactly
/// the magic error.
pub proof fn lemma_wrong_magic_is_error(f: FrameView, c: Seq<u8>, k: Seq<u8>)
    requires
        frame_wf(f),
        f.magic != UNICLIP_MAGIC,
        decrypt_of(c, k) == Some(frame_bytes(f)),
    ensures
        unpack_view(c, k) == PayloadView::Error("Invalid magic number"@),
{
    lemma_parse_frame_of_encode(f);
}

/// A frame with the right magic but the wrong version yields exactly the
/// version error.
pub proof fn lemma_wrong_version_is_error(f: FrameView, c: Seq<u8>, k: Seq<u8>)
    requires
        frame_wf(f),
        f.magic == UNICLIP_MAGIC,
        f.version != UNICLIP_PROTO_VERSION,
        decrypt_of(c, k) == Some(frame_bytes(f)),
    ensures
        unpack_view(c, k) == PayloadView::Error("Invalid protocol version"@),
{
    lemma_parse_frame_of_encode(f);
}

} // verus!
