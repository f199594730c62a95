use coop_server::config::Config;
use coop_server::protocol::PacketType;
use coop_server::reliability::InboundDedup;
use coop_server::reliability::PeerAddr;
use coop_server::reliability::ReliableOutbound;
use coop_server::server::OutMsg;
use coop_server::server::Server;

fn addr(n: u16) -> PeerAddr {
    PeerAddr { ip: 0x0a00_0001, port: n }
}

fn prefixed(s: &str) -> Vec<u8> {
    let mut v = Vec::new();
    v.extend_from_slice(&(s.len() as u32).to_be_bytes());
    v.extend_from_slice(s.as_bytes());
    v
}

fn handshake(lobby: &str, password: &str, user: &str) -> Vec<u8> {
    let mut d = vec![1u8];
    d.extend_from_slice(&prefixed(lobby));
    d.extend_from_slice(&prefixed(password));
    d.extend_from_slice(&prefixed(user));
    d
}

fn jiggy(seq: u32, id: i32, val: i32) -> Vec<u8> {
    let mut d = vec![51u8];
    d.extend_from_slice(&seq.to_le_bytes());
    d.extend_from_slice(&id.to_le_bytes());
    d.extend_from_slice(&val.to_le_bytes());
    d
}

fn kinds(msgs: &[OutMsg]) -> Vec<PacketType> {
    msgs.iter().map(|m| m.packet_type).collect()
}

#[test]
fn handshake_first_state() {
    // Scenario: first client creates the lobby and receives pong, the
    // initial-save-data request, nine empty note slots and four empty blobs.
    let mut server = Server::new(Config::default());
    let a = addr(1);
    let msgs = server.handle_datagram(&handshake("L", "", "alice"), a, 1000);
    assert_eq!(msgs.len(), 15);
    assert_eq!(msgs[0].packet_type, PacketType::Pong);
    assert_eq!(msgs[0].payload.len(), 0);
    assert_eq!(msgs[1].packet_type, PacketType::InitialSaveDataRequest);
    for i in 0..9usize {
        let m = &msgs[2 + i];
        assert_eq!(m.packet_type, PacketType::NoteSaveData);
        assert_eq!(m.dest, a);
        assert_eq!(&m.payload[..4], &(i as i32).to_be_bytes());
        assert_eq!(&m.payload[4..], &[0u8; 32]);
    }
    assert_eq!(msgs[11].packet_type, PacketType::FileProgressFlags);
    assert_eq!(msgs[11].payload, vec![0u8; 0x25]);
    assert_eq!(msgs[12].packet_type, PacketType::AbilityProgress);
    assert_eq!(msgs[12].payload, vec![0u8; 8]);
    assert_eq!(msgs[13].packet_type, PacketType::HoneycombScore);
    assert_eq!(msgs[13].payload, vec![0u8; 3]);
    assert_eq!(msgs[14].packet_type, PacketType::MumboScore);
    assert_eq!(msgs[14].payload, vec![0u8; 0x10]);
    assert_eq!(server.state.players.len(), 1);
    assert_eq!(server.state.players[0].id, 1);
}

#[test]
fn progression_broadcast_and_duplicate() {
    // Scenarios: a fresh jiggy is acked and broadcast; the same jiggy
    // again is acked but suppressed.
    let mut server = Server::new(Config::default());
    let a = addr(1);
    let b = addr(2);
    server.handle_datagram(&handshake("L", "", "alice"), a, 1000);
    let join_b = server.handle_datagram(&handshake("L", "", "bob"), b, 1001);
    assert!(join_b.iter().any(|m| m.packet_type == PacketType::PlayerConnected && m.dest == a));
    let msgs = server.handle_datagram(&jiggy(1, 5, 7), a, 1002);
    assert_eq!(msgs.len(), 2);
    assert_eq!(msgs[0].packet_type, PacketType::ReliableAck);
    assert_eq!(msgs[0].dest, a);
    assert_eq!(msgs[0].payload, 1u32.to_le_bytes().to_vec());
    assert_eq!(msgs[1].packet_type, PacketType::JiggyCollected);
    assert_eq!(msgs[1].dest, b);
    let mut expected = Vec::new();
    expected.extend_from_slice(&1u32.to_be_bytes());
    expected.extend_from_slice(&5i32.to_be_bytes());
    expected.extend_from_slice(&7i32.to_be_bytes());
    assert_eq!(msgs[1].payload, expected);
    // duplicate payload under a fresh sequence: ack only
    let dup = server.handle_datagram(&jiggy(2, 5, 7), a, 1003);
    assert_eq!(kinds(&dup), vec![PacketType::ReliableAck]);
    assert_eq!(server.state.lobbies[0].collected_jiggies.len(), 1);
    // replayed sequence: dropped before the handler, ack only
    let replay = server.handle_datagram(&jiggy(2, 9, 9), a, 1004);
    assert_eq!(kinds(&replay), vec![PacketType::ReliableAck]);
    assert_eq!(server.state.lobbies[0].collected_jiggies.len(), 1);
}

#[test]
fn late_join_receives_history() {
    // Scenario: a late joiner gets the snapshot with the jiggy replayed
    // under the history sentinel id 0.
    let mut server = Server::new(Config::default());
    let a = addr(1);
    let c = addr(3);
    server.handle_datagram(&handshake("L", "", "alice"), a, 1000);
    server.handle_datagram(&jiggy(1, 5, 7), a, 1001);
    let mut level = vec![54u8];
    level.extend_from_slice(&2u32.to_le_bytes());
    level.extend_from_slice(&9i32.to_le_bytes());
    level.extend_from_slice(&10i32.to_le_bytes());
    server.handle_datagram(&level, a, 1002);
    let msgs = server.handle_datagram(&handshake("L", "", "carol"), c, 1003);
    let replays: Vec<&OutMsg> = msgs
        .iter()
        .filter(|m| m.packet_type == PacketType::JiggyCollected && m.dest == c)
        .collect();
    assert_eq!(replays.len(), 1);
    let mut expected = Vec::new();
    expected.extend_from_slice(&0u32.to_be_bytes());
    expected.extend_from_slice(&5i32.to_be_bytes());
    expected.extend_from_slice(&7i32.to_be_bytes());
    assert_eq!(replays[0].payload, expected);
    // the opened-level replay also carries the history sentinel id 0
    let level_replays: Vec<&OutMsg> = msgs
        .iter()
        .filter(|m| m.packet_type == PacketType::LevelOpened && m.dest == c)
        .collect();
    assert_eq!(level_replays.len(), 1);
    let mut expected_level = Vec::new();
    expected_level.extend_from_slice(&0u32.to_be_bytes());
    expected_level.extend_from_slice(&9i32.to_be_bytes());
    expected_level.extend_from_slice(&10i32.to_be_bytes());
    assert_eq!(level_replays[0].payload, expected_level);
}

#[test]
fn oversize_fixed_body_is_dropped() {
    // a jiggy body with a trailing byte is acked but not applied
    let mut server = Server::new(Config::default());
    let a = addr(1);
    server.handle_datagram(&handshake("L", "", "alice"), a, 1000);
    let mut d = jiggy(1, 5, 7);
    d.push(0xee);
    let msgs = server.handle_datagram(&d, a, 1001);
    assert_eq!(kinds(&msgs), vec![PacketType::ReliableAck]);
    assert!(server.state.lobbies[0].collected_jiggies.is_empty());
}

#[test]
fn oversize_ack_body_is_dropped() {
    let mut server = Server::new(Config::default());
    let rel = OutMsg { dest: addr(1), packet_type: PacketType::JiggyCollected, payload: vec![9] };
    server.encode_outgoing(&rel).unwrap();
    let mut ackd = vec![60u8];
    ackd.extend_from_slice(&1u32.to_le_bytes());
    ackd.push(0);
    server.handle_datagram(&ackd, addr(1), 1000);
    assert_eq!(server.outbound.len(), 1);
}

#[test]
fn wrong_password_drops() {
    let mut server = Server::new(Config::default());
    server.handle_datagram(&handshake("L", "secret", "alice"), addr(1), 1000);
    let msgs = server.handle_datagram(&handshake("L", "wrong", "mallory"), addr(2), 1001);
    assert!(msgs.is_empty());
    assert_eq!(server.state.players.len(), 1);
}

#[test]
fn idle_lobby_is_retired() {
    // Scenario: with a one-second idle timeout, an empty lobby aged past
    // it is retired from the store and returned for persistence.
    let mut config = Config::default();
    config.server.lobby_idle_timeout_seconds = 1;
    let mut state = coop_server::state::ServerState::new(config);
    state.get_or_create_lobby(&"L".to_string(), &"".to_string(), 100);
    let retired = state.cleanup_idle_lobbies(102);
    assert_eq!(retired.len(), 1);
    assert_eq!(retired[0].name, "L");
    assert!(state.lobbies.is_empty());
}

#[test]
fn timed_out_players_are_removed() {
    let mut config = Config::default();
    config.server.client_timeout_seconds = 60;
    let mut server = Server::new(config);
    server.handle_datagram(&handshake("L", "", "alice"), addr(1), 1000);
    server.state.cleanup_timed_out_players(1030);
    assert_eq!(server.state.players.len(), 1);
    server.state.cleanup_timed_out_players(1060);
    assert!(server.state.players.is_empty());
    assert_eq!(server.state.lobbies[0].player_count(), 0);
}

#[test]
fn inbound_dedup_strictly_increasing() {
    // For one (address, type) stream the accepted sequences rise
    // strictly; gaps pass, replays and reorders are dropped.
    let mut dedup = InboundDedup::new();
    let a = addr(1);
    assert!(dedup.accept(a, 51, 5));
    assert!(!dedup.accept(a, 51, 5));
    assert!(!dedup.accept(a, 51, 3));
    assert!(dedup.accept(a, 51, 9));
    assert!(!dedup.accept(a, 51, 9));
    assert!(dedup.accept(a, 51, 100));
    // other kinds and addresses have independent counters
    assert!(dedup.accept(a, 52, 1));
    assert!(dedup.accept(addr(2), 51, 1));
    // sequence zero is never fresh (the default last is zero)
    assert!(!dedup.accept(addr(3), 51, 0));
}

#[test]
fn reliable_delivery_or_abandonment() {
    // A lossy channel drops every transmission: after ten attempts the
    // entry is abandoned. A delivered transmission is handled once.
    let mut outbound = ReliableOutbound::new();
    let dest = addr(9);
    let seq = outbound.register(PacketType::JiggyCollected, &[1, 2, 3], dest).unwrap();
    assert_eq!(seq, 1);
    let mut attempts = 0;
    let mut now: u64 = 1000;
    loop {
        let resends = outbound.sweep(now);
        if outbound.len() == 0 {
            break;
        }
        assert_eq!(resends.len(), 1);
        attempts += 1;
        now += 601;
        assert!(attempts <= 10);
    }
    assert_eq!(attempts, 10);
    assert_eq!(outbound.len(), 0);
    // the receiver handles one surviving copy exactly once
    let mut dedup = InboundDedup::new();
    assert!(dedup.accept(dest, 51, seq));
    assert!(!dedup.accept(dest, 51, seq));
}

#[test]
fn ack_removes_pending() {
    let mut outbound = ReliableOutbound::new();
    let dest = addr(9);
    let seq = outbound.register(PacketType::JiggyCollected, &[1], dest).unwrap();
    assert_eq!(outbound.len(), 1);
    outbound.ack(dest, seq + 5);
    assert_eq!(outbound.len(), 1);
    outbound.ack(dest, seq);
    assert_eq!(outbound.len(), 0);
}

#[test]
fn ack_datagram_clears_entry() {
    let mut server = Server::new(Config::default());
    let a = addr(1);
    let msgs = server.handle_datagram(&handshake("L", "", "alice"), a, 1000);
    // framing the snapshot enters its reliable messages into the pending table
    for m in &msgs {
        server.encode_outgoing(m);
    }
    let before = server.outbound.len();
    assert!(before > 0);
    let mut ackd = vec![60u8];
    ackd.extend_from_slice(&1u32.to_le_bytes());
    let acked = server.handle_datagram(&ackd, a, 1001);
    assert!(acked.is_empty());
    assert_eq!(server.outbound.len(), before - 1);
}

#[test]
fn encode_outgoing_frames() {
    let mut server = Server::new(Config::default());
    let pong = OutMsg { dest: addr(1), packet_type: PacketType::Pong, payload: vec![] };
    let d = server.encode_outgoing(&pong).unwrap();
    assert_eq!(d.bytes, vec![6u8]);
    assert_eq!(server.outbound.len(), 0);
    let rel = OutMsg { dest: addr(1), packet_type: PacketType::JiggyCollected, payload: vec![9] };
    let d2 = server.encode_outgoing(&rel).unwrap();
    assert_eq!(d2.bytes[0], 51);
    assert_eq!(&d2.bytes[1..5], &1u32.to_le_bytes());
    assert_eq!(&d2.bytes[5..], &[9]);
    assert_eq!(server.outbound.len(), 1);
}

#[test]
fn resend_sweep_frames_with_original_sequence() {
    let mut server = Server::new(Config::default());
    let rel = OutMsg { dest: addr(1), packet_type: PacketType::JiggyCollected, payload: vec![9] };
    server.encode_outgoing(&rel).unwrap();
    let out = server.resend_sweep(5000);
    assert_eq!(out.len(), 1);
    assert_eq!(out[0].bytes[0], 51);
    assert_eq!(&out[0].bytes[1..5], &1u32.to_le_bytes());
    // not yet due again
    let out2 = server.resend_sweep(5100);
    assert!(out2.is_empty());
    // due after the retry timeout
    let out3 = server.resend_sweep(5601);
    assert_eq!(out3.len(), 1);
}

#[test]
fn puppet_update_forwarded_unreliably() {
    let mut server = Server::new(Config::default());
    let a = addr(1);
    let b = addr(2);
    server.handle_datagram(&handshake("L", "", "alice"), a, 1000);
    server.handle_datagram(&handshake("L", "", "bob"), b, 1001);
    let mut d = vec![20u8];
    d.extend_from_slice(&[0xaa, 0xbb]);
    let msgs = server.handle_datagram(&d, a, 1002);
    assert_eq!(msgs.len(), 1);
    assert_eq!(msgs[0].packet_type, PacketType::PuppetUpdate);
    assert_eq!(msgs[0].dest, b);
    let mut expected = 1u32.to_le_bytes().to_vec();
    expected.extend_from_slice(&[0xaa, 0xbb]);
    assert_eq!(msgs[0].payload, expected);
    // the requester pulls the stored state back
    let sync = server.handle_datagram(&[21u8], b, 1003);
    assert_eq!(sync.len(), 1);
    assert_eq!(sync[0].dest, b);
    assert_eq!(sync[0].payload, expected);
}

#[test]
fn unknown_tag_and_unknown_sender_drop() {
    let mut server = Server::new(Config::default());
    assert!(server.handle_datagram(&[99u8, 1, 2], addr(1), 1000).is_empty());
    assert!(server.handle_datagram(&jiggy(1, 5, 7), addr(1), 1000).len() <= 1);
    assert!(server.state.lobbies.is_empty());
    assert!(server.handle_datagram(&[], addr(1), 1000).is_empty());
}

#[test]
fn ping_pong() {
    let mut server = Server::new(Config::default());
    let msgs = server.handle_datagram(&[5u8], addr(7), 1000);
    assert_eq!(msgs.len(), 1);
    assert_eq!(msgs[0].packet_type, PacketType::Pong);
    assert_eq!(msgs[0].dest, addr(7));
}

#[test]
fn packet_type_tags_round() {
    assert_eq!(PacketType::from(51u8), PacketType::JiggyCollected);
    assert_eq!(u8::from(PacketType::JiggyCollected), 51);
    assert_eq!(PacketType::from(2u8), PacketType::Unknown);
    assert!(PacketType::FullSyncRequest.is_reliable_type());
    assert!(!PacketType::ReliableAck.is_reliable_type());
    assert!(!PacketType::PuppetUpdate.is_reliable_type());
}
