use netcode::{
    Address, ChallengeToken, ConnectionRequest, Datagram, IpAddress, Packet, Server, ServerEvent,
    TokenData, UpdateError, MAX_PAYLOAD_BYTES, USER_DATA_BYTES,
};

const PROTOCOL_ID: u64 = 0xFFCC;
const MAX_CLIENTS: usize = 256;
const CLIENT_ID: u64 = 0xFFEEDD;
const VERSION: &[u8] = b"NETCODE 1.01\0";

fn localhost(port: u16) -> Address {
    Address { ip: IpAddress::V4(0x7F00_0001), port }
}

fn any_ip(port: u16) -> Address {
    Address { ip: IpAddress::V4(0), port }
}

fn server_at(bound: Address, capacity: usize) -> Server {
    Server::new(bound, capacity, PROTOCOL_ID, &[7u8; 32], [9u8; 32])
}

fn user_data() -> Vec<u8> {
    (0..USER_DATA_BYTES).map(|i| (i * 3) as u8).collect()
}

fn token(client_id: u64, hosts: Vec<Address>) -> TokenData {
    TokenData {
        client_id,
        server_to_client_key: [1u8; 32],
        client_to_server_key: [2u8; 32],
        user_data: user_data(),
        hosts,
    }
}

fn request(private_data: Option<TokenData>) -> ConnectionRequest {
    ConnectionRequest {
        version: VERSION.to_vec(),
        protocol_id: PROTOCOL_ID,
        token_expire: 1_000,
        sequence: 0,
        private_data,
    }
}

/// A sealed packet's front: prefix byte with one sequence byte, then it.
fn framed(packet_type: u8, sequence: u8) -> Vec<u8> {
    vec![(1u8 << 4) | packet_type, sequence, 0xAA, 0xBB]
}

fn io(
    server: &mut Server,
    from: Address,
    data: &[u8],
    opened: Option<Packet>,
    out: &mut Vec<u8>,
    outbox: &mut Vec<Datagram>,
) -> Result<Option<ServerEvent>, UpdateError> {
    server.handle_io(&from, data, opened, 10, out, outbox)
}

/// Runs the handshake for `CLIENT_ID` from `client` and checks each step.
fn connect(server: &mut Server, client: Address, outbox: &mut Vec<Datagram>) {
    let bound = server.get_local_addr();
    let mut out = vec![0u8; MAX_PAYLOAD_BYTES];
    let req = request(Some(token(CLIENT_ID, vec![bound])));
    let r = io(server, client, &[0], Some(Packet::ConnectionRequest(req)), &mut out, outbox);
    assert!(matches!(r, Ok(None)));
    let (token_sequence, user) = match outbox.last() {
        Some(Datagram::Challenge { to, key, sequence, token_sequence, client_id, user_data }) => {
            assert_eq!(*to, client);
            assert_eq!(*key, [1u8; 32]);
            assert_eq!(*sequence, 1);
            assert_eq!(*client_id, CLIENT_ID);
            (*token_sequence, user_data.clone())
        },
        other => panic!("expected a challenge, got {:?}", other),
    };
    assert_eq!(user, user_data());
    assert_eq!(token_sequence, 1);

    let response = Packet::Response(Some(ChallengeToken { client_id: CLIENT_ID, user_data: user }));
    let r = io(server, client, &framed(3, 1), Some(response), &mut out, outbox);
    assert!(matches!(r, Ok(Some(ServerEvent::ClientConnect(CLIENT_ID)))), "{:?}", r);
    assert_eq!(&out[..USER_DATA_BYTES], &user_data()[..]);
    match outbox.last() {
        Some(Datagram::KeepAlive { to, sequence, slot, capacity, .. }) => {
            assert_eq!(*to, client);
            assert_eq!(*sequence, 2);
            assert_eq!(*slot, 0);
            assert_eq!(*capacity, server.capacity());
        },
        other => panic!("expected a keep-alive, got {:?}", other),
    }
}

#[test]
fn test_connect_api() {
    let mut server = server_at(localhost(40000), MAX_CLIENTS);
    let mut outbox = Vec::new();
    connect(&mut server, localhost(50000), &mut outbox);
    assert_eq!(outbox.len(), 2);
    assert_eq!(server.find_client_by_id(CLIENT_ID), Some(0));
    assert_eq!(server.find_client_by_addr(&localhost(50000)), Some(0));
}

#[test]
fn test_connect_bad_host() {
    let mut server = server_at(localhost(40000), MAX_CLIENTS);
    let mut outbox = Vec::new();
    let mut out = vec![0u8; MAX_PAYLOAD_BYTES];
    let req = request(Some(token(CLIENT_ID, vec![any_ip(40000)])));
    let r = io(&mut server, localhost(50000), &[0], Some(Packet::ConnectionRequest(req)), &mut out, &mut outbox);
    assert!(matches!(r, Ok(Some(ServerEvent::RejectedClient))));
    assert!(outbox.is_empty());
    assert_eq!(server.find_client_by_id(CLIENT_ID), None);
}

#[test]
fn test_connect_bad_key() {
    let mut server = server_at(localhost(40000), MAX_CLIENTS);
    let mut outbox = Vec::new();
    let mut out = vec![0u8; MAX_PAYLOAD_BYTES];
    // A token sealed under another key does not open: no private part.
    let req = request(None);
    let r = io(&mut server, localhost(50000), &[0], Some(Packet::ConnectionRequest(req)), &mut out, &mut outbox);
    assert!(matches!(r, Ok(Some(ServerEvent::RejectedClient))));
    assert!(outbox.is_empty());
}

#[test]
fn test_replay_protection() {
    let client = localhost(50000);
    let mut server = server_at(localhost(40000), MAX_CLIENTS);
    let mut outbox = Vec::new();
    connect(&mut server, client, &mut outbox);

    let payload: Vec<u8> = (0..MAX_PAYLOAD_BYTES).map(|i| i as u8).collect();
    let mut out = vec![0u8; MAX_PAYLOAD_BYTES];
    let data = framed(5, 2);
    let r = io(&mut server, client, &data, Some(Packet::Payload(payload.clone())), &mut out, &mut outbox);
    assert!(matches!(r, Ok(Some(ServerEvent::Packet(CLIENT_ID, MAX_PAYLOAD_BYTES)))), "{:?}", r);
    assert_eq!(out, payload);

    let mut scratch = vec![0u8; MAX_PAYLOAD_BYTES];
    let r = io(&mut server, client, &data, Some(Packet::Payload(payload.clone())), &mut scratch, &mut outbox);
    match r {
        Ok(Some(ServerEvent::ReplayRejected(cid))) => assert_eq!(cid, CLIENT_ID),
        o => panic!("unexpected {:?}", o),
    }
    assert_eq!(server.find_client_by_id(CLIENT_ID), Some(0));
}

#[test]
fn test_payload() {
    let client = localhost(50000);
    let mut server = server_at(localhost(40000), MAX_CLIENTS);
    let mut outbox = Vec::new();
    connect(&mut server, client, &mut outbox);

    let mut inbound: u64 = 1;
    let mut outbound: u64 = 2;
    for s in 1..=MAX_PAYLOAD_BYTES {
        let data: Vec<u8> = (0..s).map(|i| (i & 0xFF) as u8).collect();
        inbound += 1;
        let seq = inbound.to_le_bytes();
        let mut frame = vec![(2u8 << 4) | 5, seq[0], seq[1]];
        frame.extend_from_slice(&[0; 4]);
        let mut out = vec![0u8; MAX_PAYLOAD_BYTES];
        let r = io(&mut server, client, &frame, Some(Packet::Payload(data.clone())), &mut out, &mut outbox);
        match r {
            Ok(Some(ServerEvent::Packet(cid, len))) => {
                assert_eq!(cid, CLIENT_ID);
                assert_eq!(len, s);
                assert_eq!(&out[..s], &data[..]);
            },
            o => panic!("unexpected {:?}", o),
        }

        assert_eq!(server.send(CLIENT_ID, &data, &mut outbox), Ok(s));
        outbound += 1;
        match outbox.last() {
            Some(Datagram::Payload { to, key, sequence, data: sent }) => {
                assert_eq!(*to, client);
                assert_eq!(*key, [1u8; 32]);
                assert_eq!(*sequence, outbound);
                assert_eq!(sent, &data);
            },
            other => panic!("unexpected packet {:?}", other),
        }
    }
}

#[test]
fn capacity_full_denies_second_client() {
    let mut server = server_at(localhost(40000), 1);
    let mut outbox = Vec::new();
    connect(&mut server, localhost(50000), &mut outbox);

    let mut out = vec![0u8; MAX_PAYLOAD_BYTES];
    let mut other = token(0xB0B, vec![localhost(40000)]);
    other.server_to_client_key = [5u8; 32];
    let r = io(
        &mut server,
        localhost(50001),
        &[0],
        Some(Packet::ConnectionRequest(request(Some(other)))),
        &mut out,
        &mut outbox,
    );
    assert!(matches!(r, Ok(Some(ServerEvent::ClientSlotFull))));
    match outbox.last() {
        Some(Datagram::Denied { to, key }) => {
            assert_eq!(*to, localhost(50001));
            assert_eq!(*key, [5u8; 32]);
        },
        other => panic!("expected a denial, got {:?}", other),
    }
    assert_eq!(server.find_client_by_id(0xB0B), None);
}

#[test]
fn repeated_request_challenges_same_slot() {
    let client = localhost(50000);
    let mut server = server_at(localhost(40000), MAX_CLIENTS);
    let mut outbox = Vec::new();
    let mut out = vec![0u8; MAX_PAYLOAD_BYTES];
    let req = request(Some(token(CLIENT_ID, vec![localhost(40000)])));
    let r = io(&mut server, client, &[0], Some(Packet::ConnectionRequest(req.clone())), &mut out, &mut outbox);
    assert!(matches!(r, Ok(None)));
    // The second request comes from the slot's own address, sealed by the channel.
    let r = io(&mut server, client, &framed(0, 1), Some(Packet::ConnectionRequest(req)), &mut out, &mut outbox);
    assert!(matches!(r, Ok(None)), "{:?}", r);
    assert_eq!(outbox.len(), 2);
    let tokens: Vec<(u64, u64)> = outbox
        .iter()
        .map(|d| match d {
            Datagram::Challenge { sequence, token_sequence, .. } => (*sequence, *token_sequence),
            other => panic!("expected a challenge, got {:?}", other),
        })
        .collect();
    assert_eq!(tokens, vec![(1, 1), (2, 2)]);
    assert_eq!(server.find_client_by_id(CLIENT_ID), Some(0));

    // Slot 1 is still free: the next client lands there.
    let other = request(Some(token(0xB0B, vec![localhost(40000)])));
    let r = io(&mut server, localhost(50001), &[0], Some(Packet::ConnectionRequest(other)), &mut out, &mut outbox);
    assert!(matches!(r, Ok(None)));
    assert_eq!(server.find_client_by_id(0xB0B), Some(1));
}
