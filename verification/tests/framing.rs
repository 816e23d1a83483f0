use uniclip::crypto::pwd2key;
use uniclip::datatype::{RemoteClipboard, UniclipBig, UniclipDataFrame, UniclipPayload};
use uniclip::packer::{pack, pack_frame, unpack};
use uniclip::{UNICLIP_MAGIC, UNICLIP_PROTO_VERSION};

fn round_trip(p: UniclipPayload) -> UniclipPayload {
    let key = pwd2key("round trip key".to_string());
    let wire = pack(p, &key);
    unpack(wire, &key)
}

#[test]
fn round_trip_echo() {
    assert_eq!(round_trip(UniclipPayload::Echo(7)), UniclipPayload::Echo(7));
    assert_eq!(round_trip(UniclipPayload::EchoRes(8)), UniclipPayload::EchoRes(8));
}

#[test]
fn round_trip_peer_variants() {
    assert_eq!(round_trip(UniclipPayload::Peer(41)), UniclipPayload::Peer(41));
    let list = || {
        vec![
            RemoteClipboard { host: "alpha.example".to_string(), port: 10500 },
            RemoteClipboard { host: "".to_string(), port: 0 },
            RemoteClipboard { host: "βήτα.example".to_string(), port: 65535 },
        ]
    };
    let p = UniclipPayload::PeerList(42, list());
    assert_eq!(round_trip(p), UniclipPayload::PeerList(42, list()));
}

#[test]
fn round_trip_port_variants() {
    assert_eq!(round_trip(UniclipPayload::Port(1)), UniclipPayload::Port(1));
    assert_eq!(
        round_trip(UniclipPayload::PortRes(2, 10500)),
        UniclipPayload::PortRes(2, 10500)
    );
}

#[test]
fn round_trip_update_variants() {
    let p = UniclipPayload::Update("abc123".to_string(), "hello clipboard".to_string());
    assert_eq!(
        round_trip(p),
        UniclipPayload::Update("abc123".to_string(), "hello clipboard".to_string())
    );
    assert_eq!(round_trip(UniclipPayload::UpdateRes(15)), UniclipPayload::UpdateRes(15));
}

#[test]
fn round_trip_big_variants() {
    let p = UniclipPayload::UpdateBig("h".to_string(), UniclipBig::Text, 9000);
    assert_eq!(
        round_trip(p),
        UniclipPayload::UpdateBig("h".to_string(), UniclipBig::Text, 9000)
    );
    let p = UniclipPayload::UpdateBigAck("h".to_string(), 9000);
    assert_eq!(round_trip(p), UniclipPayload::UpdateBigAck("h".to_string(), 9000));
    let p = UniclipPayload::UpdateBigData(vec![0u8, 1, 2, 255, 254]);
    assert_eq!(round_trip(p), UniclipPayload::UpdateBigData(vec![0u8, 1, 2, 255, 254]));
    assert_eq!(
        round_trip(UniclipPayload::UpdateBigFinish(9000)),
        UniclipPayload::UpdateBigFinish(9000)
    );
    let kinds = [UniclipBig::Text, UniclipBig::Picture, UniclipBig::File];
    for k in kinds {
        let p = UniclipPayload::UpdateBig(String::new(), k, 0);
        assert_eq!(round_trip(p), UniclipPayload::UpdateBig(String::new(), k, 0));
    }
}

#[test]
fn round_trip_termination_variants() {
    assert_eq!(round_trip(UniclipPayload::Quit(9)), UniclipPayload::Quit(9));
    assert_eq!(round_trip(UniclipPayload::QuitRes(10)), UniclipPayload::QuitRes(10));
    assert_eq!(round_trip(UniclipPayload::ShutDown), UniclipPayload::ShutDown);
    let p = UniclipPayload::Error("some failure".to_string());
    assert_eq!(round_trip(p), UniclipPayload::Error("some failure".to_string()));
}

#[test]
fn round_trip_unicode_text() {
    let text = "héllo wörld π 🦀 ✂️ 中文".to_string();
    let p = UniclipPayload::Update("d".to_string(), text.clone());
    assert_eq!(round_trip(p), UniclipPayload::Update("d".to_string(), text));
}

#[test]
fn round_trip_nonce_extremes() {
    assert_eq!(round_trip(UniclipPayload::Echo(0)), UniclipPayload::Echo(0));
    assert_eq!(
        round_trip(UniclipPayload::Echo(u32::MAX)),
        UniclipPayload::Echo(u32::MAX)
    );
}

#[test]
fn different_key_rejects() {
    let k1 = pwd2key("password one".to_string());
    let k2 = pwd2key("password two".to_string());
    let wire = pack(UniclipPayload::Echo(3), &k1);
    let p = unpack(wire, &k2);
    assert_eq!(p, UniclipPayload::Error("Unable to decrypt data frame".to_string()));
}

#[test]
fn tamper_any_byte_yields_error() {
    let key = pwd2key("tamper key".to_string());
    let wire = pack(
        UniclipPayload::Update("hash".to_string(), "payload text".to_string()),
        &key,
    );
    for i in 0..wire.len() {
        let mut corrupt = wire.clone();
        corrupt[i] ^= 0x01;
        let p = unpack(corrupt, &key);
        match p {
            UniclipPayload::Error(_) => {}
            other => panic!("byte {} flipped but unpack returned {:?}", i, other),
        }
    }
}

#[test]
fn truncated_ciphertext_yields_error() {
    let key = pwd2key("truncate key".to_string());
    let wire = pack(UniclipPayload::Echo(1), &key);
    for cut in [0usize, 1, 23, wire.len() - 1] {
        let p = unpack(wire[..cut].to_vec(), &key);
        assert_eq!(
            p,
            UniclipPayload::Error("Unable to decrypt data frame".to_string()),
            "cut at {}",
            cut
        );
    }
}

#[test]
fn wrong_magic_yields_specific_error() {
    let key = pwd2key("magic key".to_string());
    let frame = UniclipDataFrame {
        magic: UNICLIP_MAGIC ^ 0x0001,
        version: UNICLIP_PROTO_VERSION,
        payload: UniclipPayload::Echo(5),
    };
    let wire = pack_frame(&frame, &key);
    let p = unpack(wire, &key);
    assert_eq!(p, UniclipPayload::Error("Invalid magic number".to_string()));
}

#[test]
fn wrong_version_yields_specific_error() {
    let key = pwd2key("version key".to_string());
    let frame = UniclipDataFrame {
        magic: UNICLIP_MAGIC,
        version: UNICLIP_PROTO_VERSION + 1,
        payload: UniclipPayload::Echo(5),
    };
    let wire = pack_frame(&frame, &key);
    let p = unpack(wire, &key);
    assert_eq!(p, UniclipPayload::Error("Invalid protocol version".to_string()));
}

#[test]
fn correct_frame_passes_both_checks() {
    let key = pwd2key("frame key".to_string());
    let frame = UniclipDataFrame {
        magic: UNICLIP_MAGIC,
        version: UNICLIP_PROTO_VERSION,
        payload: UniclipPayload::PortRes(3, 999),
    };
    let wire = pack_frame(&frame, &key);
    assert_eq!(unpack(wire, &key), UniclipPayload::PortRes(3, 999));
}

#[test]
fn encryption_is_randomized_but_decodes_alike() {
    let key = pwd2key("nonce reuse key".to_string());
    let w1 = pack(UniclipPayload::Echo(77), &key);
    let w2 = pack(UniclipPayload::Echo(77), &key);
    assert_ne!(w1, w2, "two encryptions of one frame should differ");
    assert_eq!(unpack(w1, &key), UniclipPayload::Echo(77));
    assert_eq!(unpack(w2, &key), UniclipPayload::Echo(77));
}

#[test]
fn try_pack_round_trips_like_pack() {
    let key = pwd2key("try pack key".to_string());
    let wire = uniclip::packer::try_pack(UniclipPayload::Echo(21), &key)
        .expect("an echo frame is far under the size ceiling");
    assert_eq!(unpack(wire, &key), UniclipPayload::Echo(21));
}
