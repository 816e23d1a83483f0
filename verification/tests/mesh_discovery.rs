use uniclip::crypto::pwd2key;
use uniclip::datatype::{PayloadTag, RemoteClipboard, UniclipPayload};
use uniclip::dispatch::{dispatch, BigProgress, DispatchAction};
use uniclip::mesh::{init, MeshState};
use uniclip::packer::{pack, unpack};
use uniclip::requests::{
    check_peer_list_response, check_port_response, make_update, new_peer_request,
    new_port_request, PeerListOutcome, PortOutcome,
};

fn peer(host: &str, port: u16) -> RemoteClipboard {
    RemoteClipboard { host: host.to_string(), port }
}

#[test]
fn handles_count_up_and_are_not_reused() {
    let mut state = init(1);
    assert_eq!(state.add_handler(), 0);
    assert_eq!(state.add_handler(), 1);
    assert_eq!(state.add_peer(peer("a", 1)), 2);
    assert_eq!(state.add_handler(), 3);
}

#[test]
fn correlator_is_first_in_first_out_per_connection_and_tag() {
    let mut state = init(1);
    state.insert(0, PayloadTag::EchoRes, UniclipPayload::EchoRes(1));
    state.insert(1, PayloadTag::EchoRes, UniclipPayload::EchoRes(2));
    state.insert(0, PayloadTag::EchoRes, UniclipPayload::EchoRes(3));
    state.insert(0, PayloadTag::PortRes, UniclipPayload::PortRes(9, 80));

    assert_eq!(state.acquire(0, PayloadTag::EchoRes), Some(UniclipPayload::EchoRes(1)));
    assert_eq!(state.acquire(0, PayloadTag::EchoRes), Some(UniclipPayload::EchoRes(3)));
    assert_eq!(state.acquire(0, PayloadTag::EchoRes), None);
    assert_eq!(state.acquire(1, PayloadTag::EchoRes), Some(UniclipPayload::EchoRes(2)));
    assert_eq!(state.acquire(0, PayloadTag::PortRes), Some(UniclipPayload::PortRes(9, 80)));
    assert_eq!(state.acquire(2, PayloadTag::PortRes), None);
}

#[test]
fn peer_set_deduplicates_on_absorb() {
    let mut state = init(1);
    state.add_peer(peer("a", 1));
    let list = vec![peer("a", 1), peer("b", 2), peer("b", 2), peer("a", 2)];
    let added = state.absorb_peer_list(&list);
    let added_peers: Vec<&RemoteClipboard> = added.iter().map(|(_, p)| p).collect();
    assert_eq!(added_peers, vec![&peer("b", 2), &peer("a", 2)]);
    assert_eq!(added[0].0, 1);
    assert_eq!(added[1].0, 2);
    assert!(state.contains_peer(&peer("a", 1)));
    assert!(state.contains_peer(&peer("b", 2)));
    assert!(state.contains_peer(&peer("a", 2)));
    assert!(!state.contains_peer(&peer("c", 3)));
    assert_eq!(state.peers.len(), 3);
}

#[test]
fn same_host_different_port_is_a_different_peer() {
    let mut state = init(1);
    state.add_peer(peer("a", 1));
    assert!(!state.contains_peer(&peer("a", 2)));
    assert!(!state.contains_peer(&peer("b", 1)));
}

/// One gossip exchange: `asker` queries `answerer` for its peer list over
/// the encrypted wire and absorbs the answer.
fn gossip_round(
    asker: &mut MeshState,
    answerer: &mut MeshState,
    key_pw: &str,
) -> Vec<(usize, RemoteClipboard)> {
    let key_a = pwd2key(key_pw.to_string());
    let key_b = pwd2key(key_pw.to_string());
    let (nonce, request) = new_peer_request();
    let wire = pack(request, &key_a);
    let at_answerer = unpack(wire, &key_b);
    let (_, act) = dispatch(answerer, BigProgress::Idle, 0, at_answerer);
    let reply = match act {
        DispatchAction::Reply(p) => p,
        other => panic!("peer query must be answered, got {:?}", other),
    };
    let wire_back = pack(reply, &key_b);
    let at_asker = unpack(wire_back, &key_a);
    match check_peer_list_response(nonce, at_asker) {
        PeerListOutcome::List(list) => asker.absorb_peer_list(&list),
        other => {
            let _ = other;
            panic!("peer list must carry the successor nonce");
        }
    }
}

#[test]
fn gossip_converges_for_three_nodes() {
    // Node B and node C both seed from node A only.
    let a_addr = peer("node-a", 10500);
    let b_addr = peer("node-b", 10501);
    let c_addr = peer("node-c", 10502);

    let mut a = init(10500);
    let mut b = init(10501);
    let mut c = init(10502);

    // B dials A; A learns B's address from the port exchange.
    b.add_peer(a_addr.dup());
    a.add_peer(b_addr.dup());
    // C dials A; A learns C's address.
    c.add_peer(a_addr.dup());
    a.add_peer(c_addr.dup());

    // B and C each fetch A's peer list.
    gossip_round(&mut b, &mut a, "nopassword");
    gossip_round(&mut c, &mut a, "nopassword");

    // Every node's peer set now holds the other two.
    assert!(a.contains_peer(&b_addr) && a.contains_peer(&c_addr));
    assert!(b.contains_peer(&a_addr) && b.contains_peer(&c_addr));
    assert!(c.contains_peer(&a_addr) && c.contains_peer(&b_addr));
}

#[test]
fn port_exchange_learns_the_advertised_port() {
    // The accepting side asks a fresh connection for its listening port.
    let key_x = pwd2key("nopassword".to_string());
    let key_y = pwd2key("nopassword".to_string());
    let mut x = init(10500);
    let mut y = init(10666);

    let (nonce, request) = new_port_request();
    let at_y = unpack(pack(request, &key_x), &key_y);
    let (_, act) = dispatch(&mut y, BigProgress::Idle, 0, at_y);
    let reply = match act {
        DispatchAction::Reply(p) => p,
        other => panic!("port query must be answered, got {:?}", other),
    };
    let at_x = unpack(pack(reply, &key_y), &key_x);
    match check_port_response(nonce, &at_x) {
        PortOutcome::Port(p) => {
            x.add_peer(RemoteClipboard { host: "node-y".to_string(), port: p });
        }
        other => panic!("port answer must be valid, got {:?}", other),
    }
    assert!(x.contains_peer(&peer("node-y", 10666)));
}

#[test]
fn two_nodes_share_a_clipboard_update() {
    // Node X listens on port 10500 with no seed; node Y is started with
    // remote "node-x:10500"; both use the password "nopassword".
    let key_x = pwd2key("nopassword".to_string());
    let key_y = pwd2key("nopassword".to_string());
    let mut x = init(10500);
    let mut y = init(10500);

    match uniclip::cli::parse_remote("node-x:10500", 10500) {
        uniclip::cli::RemoteParse::Seed(seed) => {
            y.add_peer(seed);
        }
        _ => panic!("the remote argument names a host and port"),
    }
    assert!(y.contains_peer(&peer("node-x", 10500)));

    // A hotkey trigger on Y with clipboard content "hello" broadcasts an
    // update, which X verifies and applies to its local clipboard.
    let mut clipboard_x = String::new();
    let update = make_update("hello".to_string());
    let wire = pack(update, &key_y);
    let at_x = unpack(wire, &key_x);
    let (_, act) = dispatch(&mut x, BigProgress::Idle, 0, at_x);
    match act {
        DispatchAction::Apply(text, reply) => {
            clipboard_x = text;
            assert_eq!(reply, UniclipPayload::UpdateRes(5));
        }
        other => panic!("the update must be applied, got {:?}", other),
    }
    assert_eq!(clipboard_x, "hello");
}
