use netcode::{
    Address, ChallengeToken, ConnectionRequest, Datagram, IpAddress, Packet, SendError, Server,
    ServerEvent, TokenData, UpdateError, KEEP_ALIVE_INTERVAL_MS, MAX_PAYLOAD_BYTES, RECV_TIMEOUT_MS,
    USER_DATA_BYTES,
};

const CLIENT_ID: u64 = 0xFFEEDD;

fn addr(last: u8, port: u16) -> Address {
    Address { ip: IpAddress::V4(0x7F00_0000 | last as u32), port }
}

fn token(client_id: u64, hosts: Vec<Address>) -> TokenData {
    TokenData {
        client_id,
        server_to_client_key: [1u8; 32],
        client_to_server_key: [2u8; 32],
        user_data: vec![4u8; USER_DATA_BYTES],
        hosts,
    }
}

fn request(t: Option<TokenData>, expire: u64) -> ConnectionRequest {
    ConnectionRequest {
        version: b"NETCODE 1.01\0".to_vec(),
        protocol_id: 0xFFCC,
        token_expire: expire,
        sequence: 0,
        private_data: t,
    }
}

/// A server at 127.0.0.1:40000 with `CLIENT_ID` connected from 127.0.0.2:50000.
fn connected() -> (Server, Vec<Datagram>) {
    let bound = addr(1, 40000);
    let client = addr(2, 50000);
    let mut server = Server::new(bound, 4, 0xFFCC, &[7u8; 32], [9u8; 32]);
    let mut outbox = Vec::new();
    let mut out = vec![0u8; MAX_PAYLOAD_BYTES];
    let req = Packet::ConnectionRequest(request(Some(token(CLIENT_ID, vec![bound])), 100));
    assert!(matches!(server.handle_io(&client, &[0], Some(req), 5, &mut out, &mut outbox), Ok(None)));
    let resp = Packet::Response(Some(ChallengeToken { client_id: CLIENT_ID, user_data: vec![4u8; USER_DATA_BYTES] }));
    let r = server.handle_io(&client, &[0x13, 1], Some(resp), 5, &mut out, &mut outbox);
    assert!(matches!(r, Ok(Some(ServerEvent::ClientConnect(CLIENT_ID)))));
    (server, outbox)
}

#[test]
fn silent_client_times_out() {
    let (mut server, mut outbox) = connected();
    server.update(RECV_TIMEOUT_MS + 1);
    assert_eq!(server.next_event(&mut outbox), Some(ServerEvent::ClientDisconnect(CLIENT_ID)));
    assert_eq!(server.find_client_by_id(CLIENT_ID), None);
    assert_eq!(server.next_event(&mut outbox), None);
}

#[test]
fn client_within_timeout_is_kept() {
    let (mut server, mut outbox) = connected();
    server.update(RECV_TIMEOUT_MS);
    // Only a keep-alive is due.
    assert_eq!(server.next_event(&mut outbox), Some(ServerEvent::KeepAlive(CLIENT_ID)));
    assert_eq!(server.next_event(&mut outbox), None);
    assert_eq!(server.find_client_by_id(CLIENT_ID), Some(0));
}

#[test]
fn idle_client_gets_keep_alive() {
    let (mut server, mut outbox) = connected();
    server.update(KEEP_ALIVE_INTERVAL_MS);
    assert_eq!(server.next_event(&mut outbox), None);
    let before = outbox.len();
    server.update(1);
    assert_eq!(server.next_event(&mut outbox), Some(ServerEvent::KeepAlive(CLIENT_ID)));
    assert_eq!(outbox.len(), before + 1);
    match outbox.last() {
        Some(Datagram::KeepAlive { to, sequence, slot, capacity, .. }) => {
            assert_eq!(*to, addr(2, 50000));
            assert_eq!(*sequence, 3);
            assert_eq!(*slot, 0);
            assert_eq!(*capacity, 4);
        },
        other => panic!("expected a keep-alive, got {:?}", other),
    }
    // The cursor has passed the slot: nothing more until the next update.
    assert_eq!(server.next_event(&mut outbox), None);
}

#[test]
fn pending_client_gets_no_keep_alive() {
    let bound = addr(1, 40000);
    let mut server = Server::new(bound, 2, 0xFFCC, &[7u8; 32], [9u8; 32]);
    let mut outbox = Vec::new();
    let mut out = vec![0u8; MAX_PAYLOAD_BYTES];
    let req = Packet::ConnectionRequest(request(Some(token(CLIENT_ID, vec![bound])), 100));
    assert!(matches!(server.handle_io(&addr(2, 1), &[0], Some(req), 5, &mut out, &mut outbox), Ok(None)));
    server.update(1000);
    assert_eq!(server.next_event(&mut outbox), None);
    assert_eq!(outbox.len(), 1);
    server.update(RECV_TIMEOUT_MS);
    assert_eq!(server.next_event(&mut outbox), Some(ServerEvent::ClientDisconnect(CLIENT_ID)));
}

#[test]
fn disconnect_packet_releases_slot() {
    let (mut server, mut outbox) = connected();
    let mut out = vec![0u8; MAX_PAYLOAD_BYTES];
    let r = server.handle_io(&addr(2, 50000), &[0x16, 2], Some(Packet::Disconnect), 5, &mut out, &mut outbox);
    assert!(matches!(r, Ok(Some(ServerEvent::ClientDisconnect(CLIENT_ID)))));
    assert_eq!(server.find_client_by_addr(&addr(2, 50000)), None);
}

#[test]
fn undecodable_packet_disconnects() {
    let (mut server, mut outbox) = connected();
    let mut out = vec![0u8; MAX_PAYLOAD_BYTES];
    let r = server.handle_io(&addr(2, 50000), &[0x15, 2, 0], None, 5, &mut out, &mut outbox);
    assert!(matches!(r, Ok(Some(ServerEvent::ClientDisconnect(CLIENT_ID)))));
    assert_eq!(server.find_client_by_id(CLIENT_ID), None);
}

#[test]
fn malformed_header_disconnects() {
    let (mut server, mut outbox) = connected();
    let mut out = vec![0u8; MAX_PAYLOAD_BYTES];
    // Announces three sequence bytes, carries one.
    let r = server.handle_io(&addr(2, 50000), &[0x35, 2], Some(Packet::KeepAlive), 5, &mut out, &mut outbox);
    assert!(matches!(r, Ok(Some(ServerEvent::ClientDisconnect(CLIENT_ID)))));
}

#[test]
fn keep_alive_from_client_is_reported() {
    let (mut server, mut outbox) = connected();
    let mut out = vec![0u8; MAX_PAYLOAD_BYTES];
    let r = server.handle_io(&addr(2, 50000), &[0x14, 2], Some(Packet::KeepAlive), 5, &mut out, &mut outbox);
    assert!(matches!(r, Ok(Some(ServerEvent::KeepAlive(CLIENT_ID)))));
}

#[test]
fn stale_sequence_is_rejected() {
    let (mut server, mut outbox) = connected();
    let mut out = vec![0u8; MAX_PAYLOAD_BYTES];
    let r = server.handle_io(&addr(2, 50000), &[0x24, 0x2C, 0x01], Some(Packet::KeepAlive), 5, &mut out, &mut outbox);
    assert!(matches!(r, Ok(Some(ServerEvent::KeepAlive(CLIENT_ID)))));
    // 300 - 256 = 44: sequence 44 is below the window, 45 is inside it.
    let r = server.handle_io(&addr(2, 50000), &[0x14, 44], Some(Packet::KeepAlive), 5, &mut out, &mut outbox);
    assert!(matches!(r, Ok(Some(ServerEvent::ReplayRejected(CLIENT_ID)))));
    let r = server.handle_io(&addr(2, 50000), &[0x14, 45], Some(Packet::KeepAlive), 5, &mut out, &mut outbox);
    assert!(matches!(r, Ok(Some(ServerEvent::KeepAlive(CLIENT_ID)))));
}

#[test]
fn bad_challenge_token_is_a_decode_error() {
    let bound = addr(1, 40000);
    let mut server = Server::new(bound, 2, 0xFFCC, &[7u8; 32], [9u8; 32]);
    let mut outbox = Vec::new();
    let mut out = vec![0u8; MAX_PAYLOAD_BYTES];
    let req = Packet::ConnectionRequest(request(Some(token(CLIENT_ID, vec![bound])), 100));
    assert!(matches!(server.handle_io(&addr(2, 1), &[0], Some(req), 5, &mut out, &mut outbox), Ok(None)));
    let r = server.handle_io(&addr(2, 1), &[0x13, 1], Some(Packet::Response(None)), 5, &mut out, &mut outbox);
    assert!(matches!(r, Err(UpdateError::Recv(netcode::RecvError::DecodeError))));
    assert_eq!(server.find_client_by_id(CLIENT_ID), Some(0));
}

#[test]
fn expired_token_and_wrong_version_are_rejected() {
    let bound = addr(1, 40000);
    let mut server = Server::new(bound, 2, 0xFFCC, &[7u8; 32], [9u8; 32]);
    let mut outbox = Vec::new();
    let mut out = vec![0u8; MAX_PAYLOAD_BYTES];
    let req = Packet::ConnectionRequest(request(Some(token(CLIENT_ID, vec![bound])), 4));
    let r = server.handle_io(&addr(2, 1), &[0], Some(req), 5, &mut out, &mut outbox);
    assert!(matches!(r, Ok(Some(ServerEvent::RejectedClient))));
    let mut bad = request(Some(token(CLIENT_ID, vec![bound])), 100);
    bad.version = b"NETCODE 1.00\0".to_vec();
    let r = server.handle_io(&addr(2, 1), &[0], Some(Packet::ConnectionRequest(bad)), 5, &mut out, &mut outbox);
    assert!(matches!(r, Ok(Some(ServerEvent::RejectedClient))));
    // Expiry equal to the clock still passes.
    let req = Packet::ConnectionRequest(request(Some(token(CLIENT_ID, vec![bound])), 5));
    let r = server.handle_io(&addr(2, 1), &[0], Some(req), 5, &mut out, &mut outbox);
    assert!(matches!(r, Ok(None)));
    assert_eq!(outbox.len(), 1);
}

#[test]
fn wildcard_port_accepts_same_ip() {
    let bound = addr(1, 0);
    let mut server = Server::new(bound, 2, 0xFFCC, &[7u8; 32], [9u8; 32]);
    let mut outbox = Vec::new();
    let mut out = vec![0u8; MAX_PAYLOAD_BYTES];
    let req = Packet::ConnectionRequest(request(Some(token(CLIENT_ID, vec![addr(1, 9999)])), 100));
    assert!(matches!(server.handle_io(&addr(2, 1), &[0], Some(req), 5, &mut out, &mut outbox), Ok(None)));
    let req = Packet::ConnectionRequest(request(Some(token(7, vec![addr(3, 9999)])), 100));
    let r = server.handle_io(&addr(2, 2), &[0], Some(req), 5, &mut out, &mut outbox);
    assert!(matches!(r, Ok(Some(ServerEvent::RejectedClient))));
}

#[test]
fn send_errors() {
    let (mut server, mut outbox) = connected();
    assert_eq!(server.send(CLIENT_ID, &[], &mut outbox), Err(SendError::PacketSize));
    let big = vec![0u8; MAX_PAYLOAD_BYTES + 1];
    assert_eq!(server.send(CLIENT_ID, &big, &mut outbox), Err(SendError::PacketSize));
    assert_eq!(server.send(42, &[1], &mut outbox), Err(SendError::InvalidClientId));
    assert_eq!(server.send(CLIENT_ID, &[1], &mut outbox), Ok(1));
}

#[test]
fn small_buffer_is_refused() {
    let (mut server, mut outbox) = connected();
    let mut out = vec![0u8; MAX_PAYLOAD_BYTES - 1];
    let r = server.handle_io(&addr(2, 50000), &[0x14, 2], Some(Packet::KeepAlive), 5, &mut out, &mut outbox);
    assert!(matches!(r, Err(UpdateError::PacketBufferTooSmall)));
    // Nothing was consumed: the same packet is still fresh.
    let mut out = vec![0u8; MAX_PAYLOAD_BYTES];
    let r = server.handle_io(&addr(2, 50000), &[0x14, 2], Some(Packet::KeepAlive), 5, &mut out, &mut outbox);
    assert!(matches!(r, Ok(Some(ServerEvent::KeepAlive(CLIENT_ID)))));
}

#[test]
fn unknown_peer_non_request_is_ignored() {
    let (mut server, mut outbox) = connected();
    let mut out = vec![0u8; MAX_PAYLOAD_BYTES];
    let r = server.handle_io(&addr(9, 1), &[0x14, 2], Some(Packet::KeepAlive), 5, &mut out, &mut outbox);
    assert!(matches!(r, Ok(None)));
    let r = server.handle_io(&addr(9, 1), &[0], None, 5, &mut out, &mut outbox);
    assert!(matches!(r, Ok(None)));
}

#[test]
fn oversized_payload_disconnects() {
    let (mut server, mut outbox) = connected();
    let mut out = vec![0u8; MAX_PAYLOAD_BYTES];
    let big = vec![1u8; MAX_PAYLOAD_BYTES + 1];
    let r = server.handle_io(&addr(2, 50000), &[0x15, 2], Some(Packet::Payload(big)), 5, &mut out, &mut outbox);
    assert!(matches!(r, Ok(Some(ServerEvent::ClientDisconnect(CLIENT_ID)))));
}
