use uniclip::cli::{parse_remote, RemoteParse};
use uniclip::datatype::{LocalClipboard, RemoteClipboard};
use uniclip::hotkey::{keys_changed, match_keys, should_fire};

#[test]
fn nopeer_means_no_seed() {
    assert!(matches!(parse_remote("nopeer", 10500), RemoteParse::NoPeer));
    let lc = LocalClipboard {
        port: 10500,
        password: "nopassword".to_string(),
        peer: RemoteClipboard { host: String::new(), port: 0 },
    };
    assert!(!lc.has_seed());
}

#[test]
fn host_with_port_is_a_seed() {
    match parse_remote("198.51.100.4:10500", 9) {
        RemoteParse::Seed(rc) => {
            assert_eq!(rc.host, "198.51.100.4");
            assert_eq!(rc.port, 10500);
        }
        _ => panic!("host:port must parse as a seed"),
    }
}

#[test]
fn host_without_port_takes_the_local_port() {
    match parse_remote("peer.example", 10500) {
        RemoteParse::SeedDefaultPort(rc) => {
            assert_eq!(rc.host, "peer.example");
            assert_eq!(rc.port, 10500);
        }
        _ => panic!("a lone host must fall back to the local port"),
    }
}

#[test]
fn too_many_colons_is_an_invalid_host() {
    assert!(matches!(parse_remote("a:b:c", 1), RemoteParse::InvalidHost));
    assert!(matches!(parse_remote("::", 1), RemoteParse::InvalidHost));
}

#[test]
fn bad_ports_are_rejected() {
    assert!(matches!(parse_remote("host:", 1), RemoteParse::InvalidPort));
    assert!(matches!(parse_remote("host:abc", 1), RemoteParse::InvalidPort));
    assert!(matches!(parse_remote("host:65536", 1), RemoteParse::InvalidPort));
    assert!(matches!(parse_remote("host:99999", 1), RemoteParse::InvalidPort));
    assert!(matches!(parse_remote("host:-1", 1), RemoteParse::InvalidPort));
    assert!(matches!(parse_remote("host:1 2", 1), RemoteParse::InvalidPort));
    assert!(matches!(parse_remote("host:+", 1), RemoteParse::InvalidPort));
}

#[test]
fn port_edges_parse_like_the_standard_library() {
    match parse_remote("h:65535", 1) {
        RemoteParse::Seed(rc) => assert_eq!(rc.port, 65535),
        _ => panic!("65535 is a valid port"),
    }
    match parse_remote("h:0", 1) {
        RemoteParse::Seed(rc) => assert_eq!(rc.port, 0),
        _ => panic!("0 parses as a port"),
    }
    match parse_remote("h:+80", 1) {
        RemoteParse::Seed(rc) => assert_eq!(rc.port, 80),
        _ => panic!("a leading plus is accepted, as u16 parsing accepts it"),
    }
    match parse_remote("h:007", 1) {
        RemoteParse::Seed(rc) => assert_eq!(rc.port, 7),
        _ => panic!("leading zeros are accepted"),
    }
    match parse_remote(":5", 1) {
        RemoteParse::Seed(rc) => {
            assert_eq!(rc.host, "");
            assert_eq!(rc.port, 5);
        }
        _ => panic!("an empty host splits like any other"),
    }
}

#[test]
fn unicode_hosts_survive_parsing() {
    match parse_remote("ünïcode.example:81", 1) {
        RemoteParse::Seed(rc) => {
            assert_eq!(rc.host, "ünïcode.example");
            assert_eq!(rc.port, 81);
        }
        _ => panic!("unicode host must parse"),
    }
}

#[test]
fn hotkey_fires_only_on_a_changed_matching_sample() {
    let hot = vec![10u16, 20, 30];
    let held = vec![5u16, 30, 10, 20];
    let partial = vec![10u16, 20];
    let previous = vec![9u16];

    assert!(match_keys(&held, &hot));
    assert!(!match_keys(&partial, &hot));
    assert!(match_keys(&held, &vec![]));

    assert!(should_fire(&held, &previous, &hot));
    assert!(
        !should_fire(&held, &held, &hot),
        "a held combination must not fire again without a change"
    );
    assert!(!should_fire(&partial, &previous, &hot));
}

#[test]
fn key_sample_change_detection_is_exact() {
    assert!(!keys_changed(&vec![1u16, 2], &vec![1u16, 2]));
    assert!(keys_changed(&vec![1u16, 2], &vec![2u16, 1]));
    assert!(keys_changed(&vec![1u16], &vec![1u16, 2]));
    assert!(keys_changed(&vec![], &vec![1u16]));
    assert!(!keys_changed(&vec![], &vec![]));
}
