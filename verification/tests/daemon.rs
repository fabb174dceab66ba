//! The daemon, its configuration and its API.

use rsticulum::daemon::announce::{build_announce_packet_with, read_announce};
use rsticulum::daemon::api::{
    parse_command, read_request, respond, take_line, take_request, ApiRequest, ApiResponse, Effect,
    LineAction, Outcome,
};
use rsticulum::daemon::config::{
    daemon_file, list_interfaces, ApiConfig, Binding, Config, ConfigError, IdentityConfig,
    InterfaceConfig,
};
use rsticulum::daemon::key_file::{parse_keys, render_keys, KeyFileError};
use rsticulum::daemon::{
    build_announce_packet, compute_link_id_from_request, ApiCommand, Daemon, DaemonError,
    DaemonStatus, Handled, Reaction,
};
use rsticulum::icn::{Data, Interest, Name};
use rsticulum::identity::{Keys, RnsAddress};
use rsticulum::packet::{Packet, ANNOUNCE};
use rsticulum::span::TimeSpan;

fn at(secs: u64) -> TimeSpan {
    TimeSpan::from_secs(secs)
}

#[test]
fn test_default_config() {
    let config = Config::with_home(None);
    assert_eq!(config.interfaces.len(), 1);
    assert_eq!(config.interfaces[0].iface_type, "udp");
    assert_eq!(config.interfaces[0].bind, "0.0.0.0:4242");
    assert_eq!(config.icn.cs_max_entries, 10000);
}

#[test]
fn paths_below_the_home_directory() {
    assert_eq!(daemon_file(Some("/home/me"), "daemon.toml"), "/home/me/.rsticulum/daemon.toml");
    assert_eq!(daemon_file(None, "daemon.toml"), "./.rsticulum/daemon.toml");
    assert_eq!(daemon_file(Some(""), "daemon.toml"), ".rsticulum/daemon.toml");
    assert_eq!(daemon_file(Some("/"), "daemon.toml"), "/.rsticulum/daemon.toml");
    assert_eq!(daemon_file(Some("/home/me/"), "x"), "/home/me/.rsticulum/x");
    assert_eq!(IdentityConfig::with_home(Some("/h")).key_file, "/h/.rsticulum/identity.key");
    assert_eq!(ApiConfig::default().bind, "127.0.0.1:37428");
    assert_eq!(Config::with_home(None).api, None);
}

#[test]
fn interfaces_are_named_and_listed() {
    let mut iface = InterfaceConfig::default();
    assert_eq!(iface.binding(), Binding::Udp("udp-0.0.0.0:4242".to_string()));
    iface.name = "lan".to_string();
    assert_eq!(iface.binding(), Binding::Udp("lan".to_string()));
    let mut other = InterfaceConfig::default();
    other.iface_type = "tcp".to_string();
    assert_eq!(other.binding(), Binding::Unknown);
    assert_eq!(list_interfaces(&[iface, other]), "udp:0.0.0.0:4242, tcp:0.0.0.0:4242");
    assert_eq!(list_interfaces(&[]), "");
}

#[test]
fn configuration_errors_are_told() {
    assert_eq!(ConfigError::Io("gone".to_string()).to_string(), "IO error: gone");
    assert_eq!(ConfigError::Parse("line".to_string()).to_string(), "Parse error: line");
}

#[test]
fn keys_are_read_back_from_their_file() {
    let keys = Keys::from_secrets([0x1A; 32], [0x2B; 32]);
    let content = render_keys(&keys);
    assert_eq!(content, format!("{}{}", "1a".repeat(32), "2b".repeat(32)));
    let back = parse_keys(&format!("  {content}\n")).unwrap();
    assert_eq!(back.signing_secret_bytes(), [0x1A; 32]);
    assert_eq!(back.encryption_secret_bytes(), [0x2B; 32]);
}

#[test]
fn key_files_of_another_kind_are_refused() {
    assert!(matches!(parse_keys("abcd"), Err(KeyFileError::WrongSize)));
    assert!(matches!(parse_keys("no key"), Err(KeyFileError::NotHex(_))));
}

#[test]
fn test_daemon_creation() {
    let keys = Keys::generate();
    let daemon = Daemon::new(keys.clone());
    assert_eq!(daemon.keys.rns_address(), keys.rns_address());
    assert_eq!(daemon.router.local_addr(), &keys.rns_address());
    assert_eq!(daemon.link_count(), 0);
}

#[test]
fn test_announce_packet() {
    let keys = Keys::generate();
    let pkt = build_announce_packet(&keys);
    assert_eq!(pkt.packet_type, ANNOUNCE);
    assert_eq!(pkt.data.len(), 148, "Full announce should be 148 bytes: 64(key) + 10(name_hash) + 10(random_hash) + 64(signature)");
}

#[test]
fn an_announce_tells_the_key_of_its_sender() {
    let keys = Keys::generate();
    let pkt = build_announce_packet_with(&keys, &[1, 2, 3, 4, 5], 0x0102030405);
    assert_eq!(&pkt.data[..64], &keys.full_public_key_bytes());
    assert_eq!(&pkt.data[74..84], &[1, 2, 3, 4, 5, 5, 4, 3, 2, 1]);
    let told = read_announce(RnsAddress([0; 16]), &pkt.data).unwrap();
    assert_eq!(told.signing_key, keys.identity_key_bytes());
    assert_eq!(told.address, RnsAddress::from_full_key(&keys.full_public_key_bytes()));
    assert!(read_announce(RnsAddress([0; 16]), &[0; 31]).is_none());
}

#[test]
fn test_peer_registration() {
    let keys = Keys::generate();
    let mut daemon = Daemon::new(keys);
    let peer = Keys::generate();
    daemon.register_peer(peer.rns_address(), peer.identity_key_bytes());
    assert!(daemon.knows_peer(&peer.rns_address()));
}

#[test]
fn test_link_counts() {
    let keys = Keys::generate();
    let daemon = Daemon::new(keys);
    assert_eq!(daemon.link_count(), 0);
}

#[test]
fn test_compute_link_id_from_request() {
    let dest = Keys::generate().rns_address();
    let mut data = Vec::with_capacity(70);
    data.extend_from_slice(&[0xAAu8; 32]);
    data.extend_from_slice(&[0xBBu8; 32]);
    data.extend_from_slice(&[0xCCu8; 6]);

    let packet = Packet::new_link_request(dest, data);

    let link_id = compute_link_id_from_request(&packet);

    assert_eq!(link_id.len(), 16);

    let link_id2 = compute_link_id_from_request(&packet);
    assert_eq!(link_id, link_id2);

    let mut diff_data = Vec::with_capacity(70);
    diff_data.extend_from_slice(&[0xFFu8; 32]);
    diff_data.extend_from_slice(&[0xBBu8; 32]);
    diff_data.extend_from_slice(&[0xCCu8; 6]);
    let diff_packet = Packet::new_link_request(dest, diff_data);
    let diff_id = compute_link_id_from_request(&diff_packet);
    assert_ne!(link_id, diff_id);
}

#[test]
fn the_link_id_leaves_the_signalling_out() {
    let dest = RnsAddress([4; 16]);
    let short = Packet::new_link_request(dest, vec![9; 64]);
    let mut data = vec![9; 64];
    data.extend_from_slice(&[1, 2, 3]);
    let long = Packet::new_link_request(dest, data);
    assert_eq!(compute_link_id_from_request(&short), compute_link_id_from_request(&long));
}

fn pair() -> (Daemon, Daemon) {
    let (a, b) = (Keys::generate(), Keys::generate());
    let mut alice = Daemon::new(a);
    let mut bob = Daemon::new(b);
    alice.register_peer(b.rns_address(), b.identity_key_bytes());
    bob.register_peer(a.rns_address(), a.identity_key_bytes());
    (alice, bob)
}

fn sent(h: Result<Handled, DaemonError>) -> rsticulum::daemon::Outgoing {
    match h {
        Ok(Handled::Send(out)) => out,
        _ => panic!("nothing to send"),
    }
}

#[test]
fn two_daemons_link_and_talk() {
    let (mut alice, mut bob) = pair();
    let (a, b) = (alice.keys.rns_address(), bob.keys.rns_address());
    let first = alice.connect(b).unwrap().unwrap();
    assert_eq!(first.to, b);
    assert!(alice.connect(b).unwrap().is_none());
    let answer = sent(bob.handle_frame(a, &first.bytes, 1, at(0)));
    assert_eq!(answer.to, a);
    assert_eq!(bob.link_count(), 1);
    assert!(matches!(alice.handle_frame(b, &answer.bytes, 1, at(0)), Ok(Handled::Nothing)));
    assert_eq!(alice.link_count(), 1);

    assert_eq!(
        alice.channels.get(&b).unwrap().link().transport_id(),
        bob.channels.get(&a).unwrap().link().transport_id()
    );
    for i in 0..3u8 {
        let out = alice.send_over_link(b, vec![i; 9]).unwrap();
        assert_eq!(received(bob.handle_frame(a, &out.bytes, 1, at(0))), vec![vec![i; 9]]);
        let out = bob.send_over_link(a, vec![i; 5]).unwrap();
        assert_eq!(received(alice.handle_frame(b, &out.bytes, 1, at(0))), vec![vec![i; 5]]);
    }
}

fn received(h: Result<Handled, DaemonError>) -> Vec<Vec<u8>> {
    match h {
        Ok(Handled::Messages(v)) => v,
        _ => panic!("no messages"),
    }
}

#[test]
fn a_link_is_needed_to_send() {
    let mut daemon = Daemon::new(Keys::generate());
    let err = daemon.send_over_link(RnsAddress([1; 16]), vec![1]).unwrap_err();
    assert_eq!(err, DaemonError::NoLink);
    assert_eq!(err.to_string(), "no established link to destination");
}

#[test]
fn published_content_answers_interests() {
    let mut daemon = Daemon::new(Keys::generate());
    let producer = [0x5A; 32];
    assert_eq!(daemon.publish_named(&"5a".repeat(32), b"news".to_vec(), at(3)), Ok(()));
    assert!(daemon.publish_named("5a", vec![], at(3)).is_err());
    let interest = Interest::new(Name::new(producer, &[]));
    match daemon.handle_message(&interest.to_bytes(), 1, at(4)) {
        Ok(Reaction::Reply(bytes)) => {
            assert_eq!(Data::from_bytes(&bytes).unwrap().content, b"news");
        }
        _ => panic!("no content"),
    }
    let unknown = Interest::new(Name::new([1; 32], &[]));
    assert!(matches!(daemon.handle_message(&unknown.to_bytes(), 1, at(4)), Ok(Reaction::Nothing)));
}

fn request(cmd: &str) -> ApiRequest {
    ApiRequest {
        cmd: Some(cmd.to_string()),
        dest: Some("01".repeat(16)),
        data: Some("abcd".to_string()),
        name: Some("n".to_string()),
        key: Some("k".to_string()),
        endpoint: Some("e".to_string()),
    }
}

#[test]
fn commands_are_read() {
    let dest = [1u8; 16];
    let data = vec![0xAB, 0xCD];
    assert_eq!(
        parse_command(&request("express")),
        Ok(ApiCommand::Express { dest, data: data.clone() })
    );
    assert_eq!(
        parse_command(&request("publish")),
        Ok(ApiCommand::Publish { name: "n".to_string(), data: data.clone() })
    );
    assert_eq!(parse_command(&request("status")), Ok(ApiCommand::Status));
    assert_eq!(parse_command(&request("connect")), Ok(ApiCommand::Connect { dest }));
    assert_eq!(
        parse_command(&request("send")),
        Ok(ApiCommand::SendOverLink { dest, data: data.clone() })
    );
    assert_eq!(
        parse_command(&request("send_resource")),
        Ok(ApiCommand::SendResource { dest, data })
    );
    assert_eq!(
        parse_command(&request("seed_peer")),
        Ok(ApiCommand::SeedPeer { dest, key_hex: "k".to_string(), udp_endpoint: "e".to_string() })
    );
}

#[test]
fn wrong_requests_are_told() {
    let error = |r: &ApiRequest| parse_command(r).unwrap_err();
    assert_eq!(error(&request("jump")), "Unknown command: jump");
    let mut r = request("send");
    r.cmd = None;
    assert_eq!(error(&r), "Missing 'cmd' field");
    let mut r = request("send");
    r.dest = None;
    assert_eq!(error(&r), "Missing 'dest' field");
    let mut r = request("send");
    r.data = None;
    assert_eq!(error(&r), "Missing 'data' field");
    let mut r = request("publish");
    r.name = None;
    assert_eq!(error(&r), "Missing 'name' field");
    let mut r = request("seed_peer");
    r.key = None;
    assert_eq!(error(&r), "Missing 'key' field");
    let mut r = request("seed_peer");
    r.endpoint = None;
    assert_eq!(error(&r), "Missing 'endpoint' field");
    let mut r = request("connect");
    r.dest = Some("0101".to_string());
    assert_eq!(error(&r), "dest must be 16 bytes (32 hex chars)");
    let mut r = request("connect");
    r.dest = Some("0".to_string());
    assert_eq!(error(&r), "Invalid dest hex: Odd number of digits");
    let mut r = request("express");
    r.data = Some("zz".to_string());
    assert_eq!(error(&r), "Invalid data hex: Invalid character 'z' at position 0");
}

#[test]
fn lines_are_read() {
    let line = format!(
        "  {{\"cmd\":\"send\",\"dest\":\"{}\",\"data\":\"ab\\u0063d\",\"other\":[1,2]}}\r\n",
        "01".repeat(16)
    );
    assert_eq!(
        take_line(&line),
        LineAction::Run(ApiCommand::SendOverLink { dest: [1; 16], data: vec![0xAB, 0xCD] })
    );
    assert_eq!(take_line("{\"cmd\": \"status\"}\n"), LineAction::Run(ApiCommand::Status));
    assert_eq!(take_line(" \t\n"), LineAction::Skip);
    assert_eq!(take_line(""), LineAction::Skip);
    let replied = |line: &str| match take_line(line) {
        LineAction::Reply(ApiResponse::Error(e)) => e,
        _ => panic!("no error"),
    };
    assert_eq!(replied("{\"cmd\":"), "Invalid JSON: EOF while parsing a value at line 1 column 7");
    assert_eq!(replied("[\"cmd\"]"), "Missing 'cmd' field");
    assert_eq!(replied("{\"cmd\":7}"), "Missing 'cmd' field");
    assert_eq!(replied("{\"cmd\":\"jump\"}"), "Unknown command: jump");
}

#[test]
fn requests_hold_the_text_fields() {
    let r = read_request("{\"cmd\":\"publish\",\"name\":\"a\\\"b\",\"data\":null,\"cmd\":\"status\"}").unwrap();
    assert_eq!(
        r,
        ApiRequest {
            cmd: Some("status".to_string()),
            dest: None,
            data: None,
            name: Some("a\"b".to_string()),
            key: None,
            endpoint: None,
        }
    );
    let e = read_request("nul").unwrap_err();
    assert_eq!(
        take_request(Err(e.clone())),
        LineAction::Reply(ApiResponse::Error(format!("Invalid JSON: {e}")))
    );
}

#[test]
fn responses_are_lines() {
    assert_eq!(ApiResponse::Done("sent").to_line(), "{\"ok\":true,\"result\":\"sent\"}\n");
    assert_eq!(
        ApiResponse::Error("a \"b\"\n\\\u{1}\u{1f}\u{8}\u{c}\t\r\u{7f}é".to_string()).to_line(),
        "{\"error\":\"a \\\"b\\\"\\n\\\\\\u0001\\u001f\\b\\f\\t\\r\u{7f}é\",\"ok\":false}\n"
    );
    let status = DaemonStatus {
        address: "0a".to_string(),
        link_count: 1,
        peer_count: 20,
        medium_count: 300,
    };
    assert_eq!(
        ApiResponse::Status(status).to_line(),
        "{\"ok\":true,\"result\":{\"address\":\"0a\",\"link_count\":1,\"medium_count\":300,\"peer_count\":20}}\n"
    );
}

#[test]
fn outcomes_are_answered() {
    assert_eq!(
        respond("sent", Outcome::Unavailable),
        ApiResponse::Error("Daemon not available".to_string())
    );
    assert_eq!(
        respond("sent", Outcome::Lost),
        ApiResponse::Error("Daemon response lost".to_string())
    );
    assert_eq!(respond("sent", Outcome::Result(Ok(()))), ApiResponse::Done("sent"));
    assert_eq!(
        respond("sent", Outcome::Result(Err("no".to_string()))),
        ApiResponse::Error("no".to_string())
    );
    assert_eq!(ApiCommand::Connect { dest: [0; 16] }.done(), "connecting");
    assert_eq!(ApiCommand::Publish { name: String::new(), data: vec![] }.done(), "published");
}

#[test]
fn commands_are_carried_out() {
    let keys = Keys::generate();
    let mut daemon = Daemon::new(keys);
    match daemon.execute(ApiCommand::Status, 2, at(0)) {
        Effect::Status(s) => {
            assert_eq!(s.address, keys.rns_address().to_string());
            assert_eq!((s.link_count, s.peer_count, s.medium_count), (0, 0, 2));
        }
        _ => panic!("no status"),
    }
    let seed = ApiCommand::SeedPeer {
        dest: [3; 16],
        key_hex: "07".repeat(32),
        udp_endpoint: "127.0.0.1:9".to_string(),
    };
    assert!(matches!(daemon.execute(seed, 2, at(0)), Effect::AddEndpoint(..)));
    assert_eq!(daemon.peer_count(), 1);
    let bad = ApiCommand::SeedPeer {
        dest: [3; 16],
        key_hex: "07".to_string(),
        udp_endpoint: String::new(),
    };
    match daemon.execute(bad, 2, at(0)) {
        Effect::Reply(Err(m)) => {
            assert_eq!(m, "key must be 32 bytes (64 hex chars), got 1");
        }
        _ => panic!("no error"),
    }
    match daemon.execute(ApiCommand::Express { dest: [3; 16], data: vec![1, 2] }, 2, at(0)) {
        Effect::Send(v) => assert_eq!((v[0].to, v[0].bytes.clone()), (RnsAddress([3; 16]), vec![1, 2])),
        _ => panic!("nothing sent"),
    }
    match daemon.execute(ApiCommand::SendResource { dest: [3; 16], data: vec![0; 1500] }, 2, at(0)) {
        Effect::SendEach(to, v) => assert_eq!((to, v.len()), (RnsAddress([3; 16]), 2)),
        _ => panic!("no segments"),
    }
}
