use uniclip::crypto::{hash, pwd2key};
use uniclip::datatype::{UniclipBig, UniclipPayload};
use uniclip::dispatch::{dispatch, BigProgress, DispatchAction};
use uniclip::mesh::init;
use uniclip::packer::{pack, unpack};
use uniclip::requests::{
    check_big_ack, check_big_finish, check_peer_list_response, check_port_response,
    make_update, plan_update, PeerListOutcome, PortOutcome, UpdatePlan,
};
use uniclip::UNICLIP_DATA_LIMIT;

#[test]
fn digest_matches_reference_value() {
    assert_eq!(
        hash("hello"),
        "2cf24dba5fb0a30e26e83b2ac5b9e29e1b161e5c1fa7425e73043362938b9824"
    );
}

#[test]
fn key_derivation_is_deterministic_and_32_bytes() {
    let k1 = pwd2key("nopassword".to_string());
    let k2 = pwd2key("nopassword".to_string());
    assert_eq!(k1.bytes, k2.bytes);
    assert_eq!(k1.bytes.len(), 32);
    let expected = hex::decode(sha256::digest("nopassword")).unwrap();
    assert_eq!(k1.bytes, expected);
}

#[test]
fn echo_is_answered_with_successor_nonce() {
    let mut state = init(10500);
    let (conn, act) = dispatch(&mut state, BigProgress::Idle, 0, UniclipPayload::Echo(41));
    assert!(matches!(conn, BigProgress::Idle));
    match act {
        DispatchAction::Reply(p) => assert_eq!(p, UniclipPayload::EchoRes(42)),
        other => panic!("expected a reply, got {:?}", other),
    }
}

#[test]
fn echo_nonce_wraps_at_top() {
    let mut state = init(10500);
    let (_, act) = dispatch(&mut state, BigProgress::Idle, 0, UniclipPayload::Echo(u32::MAX));
    match act {
        DispatchAction::Reply(p) => assert_eq!(p, UniclipPayload::EchoRes(0)),
        other => panic!("expected a reply, got {:?}", other),
    }
}

#[test]
fn port_query_returns_local_port() {
    let mut state = init(10500);
    let (_, act) = dispatch(&mut state, BigProgress::Idle, 3, UniclipPayload::Port(10));
    match act {
        DispatchAction::Reply(p) => assert_eq!(p, UniclipPayload::PortRes(11, 10500)),
        other => panic!("expected a reply, got {:?}", other),
    }
}

#[test]
fn update_with_matching_hash_is_applied() {
    let mut state = init(10500);
    let text = "hello".to_string();
    let p = make_update(text.clone());
    let (_, act) = dispatch(&mut state, BigProgress::Idle, 0, p);
    match act {
        DispatchAction::Apply(applied, reply) => {
            assert_eq!(applied, text);
            assert_eq!(reply, UniclipPayload::UpdateRes(5));
        }
        other => panic!("expected apply, got {:?}", other),
    }
}

#[test]
fn update_with_wrong_hash_is_rejected() {
    let mut state = init(10500);
    let mut clipboard = "before".to_string();
    let p = UniclipPayload::Update("not the digest".to_string(), "hello".to_string());
    let (_, act) = dispatch(&mut state, BigProgress::Idle, 0, p);
    match act {
        DispatchAction::Reply(reply) => {
            assert_eq!(reply, UniclipPayload::Error("Update text hash error".to_string()));
        }
        DispatchAction::Apply(text, _) => {
            clipboard = text;
            panic!("hash mismatch must not reach the clipboard");
        }
        other => panic!("unexpected action {:?}", other),
    }
    assert_eq!(clipboard, "before");
}

#[test]
fn responses_are_filed_with_the_correlator() {
    let mut state = init(10500);
    let (_, act) = dispatch(&mut state, BigProgress::Idle, 5, UniclipPayload::EchoRes(9));
    assert!(matches!(act, DispatchAction::Enqueued));
    let got = state.acquire(5, UniclipPayload::EchoRes(9).tag());
    assert_eq!(got, Some(UniclipPayload::EchoRes(9)));
}

#[test]
fn unexpected_payloads_are_fatal() {
    let mut state = init(10500);
    let (_, act) = dispatch(&mut state, BigProgress::Idle, 0, UniclipPayload::Quit(1));
    assert!(matches!(act, DispatchAction::FatalProtocol));
    let (_, act) = dispatch(&mut state, BigProgress::Idle, 0, UniclipPayload::ShutDown);
    assert!(matches!(act, DispatchAction::FatalProtocol));
    let (_, act) = dispatch(
        &mut state,
        BigProgress::Idle,
        0,
        UniclipPayload::Error("remote failure".to_string()),
    );
    assert!(matches!(act, DispatchAction::FatalProtocol));
    let (_, act) = dispatch(&mut state, BigProgress::Idle, 0, UniclipPayload::UpdateBigData(vec![1]));
    assert!(matches!(act, DispatchAction::FatalProtocol));
}

#[test]
fn port_response_requires_exact_successor() {
    let a = 1000u32;
    let good = UniclipPayload::PortRes(1001, 10500);
    assert_eq!(check_port_response(a, &good), PortOutcome::Port(10500));
    let same = UniclipPayload::PortRes(1000, 10500);
    assert_eq!(check_port_response(a, &same), PortOutcome::NonceMismatch);
    let further = UniclipPayload::PortRes(1002, 10500);
    assert_eq!(check_port_response(a, &further), PortOutcome::NonceMismatch);
    let wrong_shape = UniclipPayload::EchoRes(1001);
    assert_eq!(check_port_response(a, &wrong_shape), PortOutcome::WrongShape);
}

#[test]
fn peer_list_response_requires_exact_successor() {
    let a = 7u32;
    let list = vec![];
    match check_peer_list_response(a, UniclipPayload::PeerList(8, list)) {
        PeerListOutcome::List(v) => assert!(v.is_empty()),
        _ => panic!("valid nonce must be accepted"),
    }
    assert!(matches!(
        check_peer_list_response(a, UniclipPayload::PeerList(9, vec![])),
        PeerListOutcome::NonceMismatch
    ));
    assert!(matches!(
        check_peer_list_response(a, UniclipPayload::PortRes(8, 1)),
        PeerListOutcome::WrongShape
    ));
}

#[test]
fn inline_limit_is_respected_at_the_boundary() {
    let at_limit = "a".repeat(UNICLIP_DATA_LIMIT);
    match plan_update(at_limit.clone()) {
        UpdatePlan::Inline(p) => {
            assert_eq!(p, UniclipPayload::Update(hash(&at_limit), at_limit));
        }
        UpdatePlan::Big { .. } => panic!("payload of exactly the limit must stay inline"),
    }
    let over_limit = "a".repeat(UNICLIP_DATA_LIMIT + 1);
    match plan_update(over_limit.clone()) {
        UpdatePlan::Inline(_) => panic!("payload over the limit must use the big transfer"),
        UpdatePlan::Big { announce, chunks } => {
            assert_eq!(
                announce,
                UniclipPayload::UpdateBig(
                    hash(&over_limit),
                    UniclipBig::Text,
                    (UNICLIP_DATA_LIMIT + 1) as u32
                )
            );
            assert_eq!(chunks.len(), 2);
            match (&chunks[0], &chunks[1]) {
                (UniclipPayload::UpdateBigData(c0), UniclipPayload::UpdateBigData(c1)) => {
                    assert_eq!(c0.len(), UNICLIP_DATA_LIMIT);
                    assert_eq!(c1.len(), 1);
                }
                other => panic!("chunks must be data payloads, got {:?}", other),
            }
        }
    }
}

#[test]
fn big_transfer_runs_to_completion() {
    let text = format!("π prefix {}", "x".repeat(2 * UNICLIP_DATA_LIMIT));
    let total = text.len();
    let (announce, chunks) = match plan_update(text.clone()) {
        UpdatePlan::Big { announce, chunks } => (announce, chunks),
        UpdatePlan::Inline(_) => panic!("text is over the limit"),
    };
    let digest = hash(&text);

    let mut state = init(10500);
    let mut conn = BigProgress::Idle;

    let (c, act) = dispatch(&mut state, conn, 0, announce);
    conn = c;
    match act {
        DispatchAction::Reply(ack) => {
            assert!(check_big_ack(&digest, total as u32, &ack));
            assert!(!check_big_ack("other digest", total as u32, &ack));
            assert!(!check_big_ack(&digest, 1 + total as u32, &ack));
        }
        other => panic!("announcement must be acknowledged, got {:?}", other),
    }

    let n = chunks.len();
    let mut applied = None;
    for (i, chunk) in chunks.into_iter().enumerate() {
        let (c, act) = dispatch(&mut state, conn, 0, chunk);
        conn = c;
        if i + 1 < n {
            assert!(matches!(act, DispatchAction::NoReply));
        } else {
            match act {
                DispatchAction::Apply(text2, finish) => {
                    assert!(check_big_finish(total, &finish));
                    assert!(!check_big_finish(total - 1, &finish));
                    applied = Some(text2);
                }
                other => panic!("last chunk must finish the transfer, got {:?}", other),
            }
        }
    }
    assert_eq!(applied.as_deref(), Some(text.as_str()));
    assert!(matches!(conn, BigProgress::Idle));
}

#[test]
fn big_transfer_with_wrong_digest_is_rejected() {
    let mut state = init(10500);
    let announce =
        UniclipPayload::UpdateBig("wrong digest".to_string(), UniclipBig::Text, 3);
    let (conn, _) = dispatch(&mut state, BigProgress::Idle, 0, announce);
    let (conn, act) = dispatch(&mut state, conn, 0, UniclipPayload::UpdateBigData(b"abc".to_vec()));
    match act {
        DispatchAction::Reply(p) => {
            assert_eq!(p, UniclipPayload::Error("Update text hash error".to_string()));
        }
        other => panic!("digest mismatch must be answered with the hash error, got {:?}", other),
    }
    assert!(matches!(conn, BigProgress::Idle));
}

#[test]
fn big_transfer_overshoot_is_fatal() {
    let mut state = init(10500);
    let announce = UniclipPayload::UpdateBig(hash("ab"), UniclipBig::Text, 2);
    let (conn, _) = dispatch(&mut state, BigProgress::Idle, 0, announce);
    let (_, act) = dispatch(&mut state, conn, 0, UniclipPayload::UpdateBigData(b"abc".to_vec()));
    assert!(matches!(act, DispatchAction::FatalProtocol));
}

#[test]
fn non_text_big_transfer_is_fatal() {
    let mut state = init(10500);
    let announce = UniclipPayload::UpdateBig(hash("x"), UniclipBig::Picture, 1);
    let (_, act) = dispatch(&mut state, BigProgress::Idle, 0, announce);
    assert!(matches!(act, DispatchAction::FatalProtocol));
}

#[test]
fn update_survives_the_wire_end_to_end() {
    let key_sender = pwd2key("shared".to_string());
    let key_receiver = pwd2key("shared".to_string());
    let p = make_update("over the wire".to_string());
    let wire = pack(p, &key_sender);
    let received = unpack(wire, &key_receiver);
    let mut state = init(10500);
    let (_, act) = dispatch(&mut state, BigProgress::Idle, 0, received);
    match act {
        DispatchAction::Apply(text, reply) => {
            assert_eq!(text, "over the wire");
            assert_eq!(reply, UniclipPayload::UpdateRes("over the wire".len()));
        }
        other => panic!("expected apply, got {:?}", other),
    }
}
