use vstd::prelude::*;
use crate::address::{hosts_admit, token_lists_host, Address};
use crate::channel::{since, Channel, ChannelTick, KEY_BYTES, RECV_TIMEOUT_MS};
use crate::replay::ReplayVerdict;
use crate::packet::{
    version_matches, version_tag, write_front, written, ClientId, ConnectionRequest,
    Datagram, Packet, TokenData, MAX_PAYLOAD_BYTES, USER_DATA_BYTES,
};
use crate::wire::{header_of, header_ok, read_header};

verus! {

/// Errors from creating a server.
#[derive(Debug, Clone, Copy, PartialEq, Eq, Structural)]
pub enum CreateError {
    /// Address is already in use.
    AddrInUse,
    /// Address is not available.
    AddrNotAvailable,
    /// Any other I/O failure.
    GenericIo,
}

/// Errors from sending to a client.
#[derive(Debug, Clone, Copy, PartialEq, Eq, Structural)]
pub enum SendError {
    PacketSize,
    InvalidClientId,
    SocketError,
    EncodeError,
}

/// Errors from receiving a packet.
#[derive(Debug, Clone, Copy, PartialEq, Eq, Structural)]
pub enum RecvError {
    SocketError,
    DecodeError,
    DuplicateSequence,
}

/// Errors from draining events.
#[derive(Debug, Clone, Copy, PartialEq, Eq, Structural)]
pub enum UpdateError {
    PacketBufferTooSmall,
    Send(SendError),
    Recv(RecvError),
}

/// State of one client slot. A slot that times out or disconnects is
/// released at once, so a kept slot is pending its response or idle.
#[derive(Debug, Clone, Copy, PartialEq, Eq, Structural)]
pub enum ConnectionState {
    PendingResponse,
    Idle,
    TimedOut,
    Disconnected,
}

/// What `next_event` and `handle_io` report to the embedder.
#[derive(Debug, Clone, Copy, PartialEq, Eq, Structural)]
pub enum ServerEvent {
    /// A client finished the handshake; its user data is in the out buffer.
    ClientConnect(ClientId),
    /// A client left, timed out or sent undecodable traffic.
    ClientDisconnect(ClientId),
    /// A valid connection request found every slot taken.
    ClientSlotFull,
    /// A payload of this many bytes from the client is in the out buffer.
    Packet(ClientId, usize),
    /// A keep-alive from the client, or one sent to it.
    KeepAlive(ClientId),
    /// A connection request failed token validation.
    RejectedClient,
    /// A packet from the client repeated or predated its replay window.
    ReplayRejected(ClientId),
}

/// An occupied slot.
pub struct Connection {
    pub client_id: ClientId,
    pub state: ConnectionState,
    pub channel: Channel,
}

/// Slot `k` holds a connection for `id`.
pub open spec fn id_at(cs: Seq<Option<Connection>>, id: ClientId, k: int) -> bool {
    0 <= k < cs.len() && cs[k] is Some && cs[k]->0.client_id == id
}

/// Slot `k` holds a connection to `addr`.
pub open spec fn addr_at(cs: Seq<Option<Connection>>, addr: Address, k: int) -> bool {
    0 <= k < cs.len() && cs[k] is Some && cs[k]->0.channel.peer_spec() == addr
}

pub open spec fn free_at(cs: Seq<Option<Connection>>, k: int) -> bool {
    0 <= k < cs.len() && cs[k] is None
}

pub open spec fn has_id(cs: Seq<Option<Connection>>, id: ClientId) -> bool {
    exists|k: int| id_at(cs, id, k)
}

pub open spec fn has_addr(cs: Seq<Option<Connection>>, addr: Address) -> bool {
    exists|k: int| addr_at(cs, addr, k)
}

pub open spec fn has_free(cs: Seq<Option<Connection>>) -> bool {
    exists|k: int| free_at(cs, k)
}

/// The lowest free slot is `k`.
pub open spec fn first_free(cs: Seq<Option<Connection>>, k: int) -> bool {
    free_at(cs, k) && forall|j: int| 0 <= j < k ==> !free_at(cs, j)
}

/// Occupied slots hold pairwise distinct client ids and pairwise distinct
/// peer addresses.
pub open spec fn slots_exclusive(cs: Seq<Option<Connection>>) -> bool {
    forall|i: int, j: int|
        0 <= i < cs.len() && 0 <= j < cs.len() && i != j && cs[i] is Some && cs[j] is Some
            ==> #[trigger] cs[i]->0.client_id != #[trigger] cs[j]->0.client_id
            && cs[i]->0.channel.peer_spec() != cs[j]->0.channel.peer_spec()
}

/// A live slot: a well-formed channel that knows its slot and the capacity,
/// in one of the two states a slot is kept in.
pub open spec fn slot_ok(c: Connection, k: int, capacity: int) -> bool {
    &&& c.channel.wf()
    &&& c.channel.slot_spec() == k
    &&& c.channel.capacity_spec() == capacity
    &&& (c.state == ConnectionState::PendingResponse || c.state == ConnectionState::Idle)
}

/// The connect token passes validation: the version tag, the expiry against
/// `now_secs`, an opened private part, and a host that admits `bound`.
pub open spec fn token_accepted(req: ConnectionRequest, bound: Address, now_secs: u64) -> bool {
    &&& req.version@ == version_tag()
    &&& now_secs <= req.token_expire
    &&& req.private_data is Some
    &&& hosts_admit(req.private_data->0.hosts@, bound)
}


/// `d` is a challenge to `to` under `key`, numbered `sequence`, whose token
/// is sealed with nonce `token_sequence` and holds `client_id` and `user_data`.
pub open spec fn is_challenge(
    d: Datagram,
    to: Address,
    key: [u8; KEY_BYTES],
    sequence: u64,
    token_sequence: u64,
    client_id: ClientId,
    user_data: Seq<u8>,
) -> bool {
    match d {
        Datagram::Challenge { to: t, key: k, sequence: s, token_sequence: ts, client_id: c, user_data: u } => {
            &&& t == to
            &&& k == key
            &&& s == sequence
            &&& ts == token_sequence
            &&& c == client_id
            &&& u@ == user_data
        },
        _ => false,
    }
}

/// `d` denies a connection to `to` under `key`.
pub open spec fn is_denied(d: Datagram, to: Address, key: [u8; KEY_BYTES]) -> bool {
    match d {
        Datagram::Denied { to: t, key: k } => t == to && k == key,
        _ => false,
    }
}

/// `d` is a keep-alive from `c`'s channel numbered `sequence`.
pub open spec fn is_keep_alive(d: Datagram, c: Connection, sequence: u64) -> bool {
    match d {
        Datagram::KeepAlive { to, key, sequence: s, slot, capacity } => {
            &&& to == c.channel.peer_spec()
            &&& key == c.channel.send_key_spec()
            &&& s == sequence
            &&& slot == c.channel.slot_spec()
            &&& capacity == c.channel.capacity_spec()
        },
        _ => false,
    }
}

/// `after` is `before` with `d` appended.
pub open spec fn sent_one(before: Seq<Datagram>, after: Seq<Datagram>, d: Datagram) -> bool {
    after == before.push(d)
}

/// A new connection for the token's client, pending its response, at slot
/// `k` of `capacity`, talking to `addr` with the token's keys.
pub open spec fn fresh_connection(
    c: Connection,
    t: TokenData,
    addr: Address,
    k: int,
    capacity: int,
    now: u64,
) -> bool {
    &&& c.client_id == t.client_id
    &&& c.state == ConnectionState::PendingResponse
    &&& c.channel.wf()
    &&& c.channel.peer_spec() == addr
    &&& c.channel.send_key_spec() == t.server_to_client_key
    &&& c.channel.recv_key_spec() == t.client_to_server_key
    &&& c.channel.next_send_sequence() == 1
    &&& c.channel.last_send_time() == now
    &&& c.channel.last_recv_time() == now
    &&& c.channel.replay_spec().accepted() == Set::<u64>::empty()
    &&& c.channel.replay_spec().highest() == 0
    &&& c.channel.slot_spec() == k
    &&& c.channel.capacity_spec() == capacity
}

/// `after` is `before` with only slot `k` changed, that slot's channel having
/// handed out one sequence number at `now`, and the slot now in `state`.
pub open spec fn slot_sent(
    before: Seq<Option<Connection>>,
    after: Seq<Option<Connection>>,
    k: int,
    now: u64,
    state: ConnectionState,
) -> bool {
    let b = before[k]->0;
    let a = after[k]->0;
    &&& after.len() == before.len()
    &&& forall|j: int| 0 <= j < before.len() && j != k ==> after[j] == before[j]
    &&& after[k] is Some
    &&& a.client_id == b.client_id
    &&& a.state == state
    &&& Channel::same_but_send(b.channel, a.channel)
    &&& Channel::hands_out(b.channel, a.channel, b.channel.next_send_sequence())
    &&& a.channel.last_send_time() == now
}

/// An opened packet the slot can act on: a payload no longer than
/// `MAX_PAYLOAD_BYTES`, or any other packet.
pub open spec fn opened_ok(p: Option<Packet>) -> bool {
    match p {
        Some(Packet::Payload(v)) => v@.len() <= MAX_PAYLOAD_BYTES,
        Some(_) => true,
        None => false,
    }
}

/// `d` is a payload of `data` from `c`'s channel numbered `sequence`.
pub open spec fn is_payload(d: Datagram, c: Connection, sequence: u64, data: Seq<u8>) -> bool {
    match d {
        Datagram::Payload { to, key, sequence: s, data: v } => {
            &&& to == c.channel.peer_spec()
            &&& key == c.channel.send_key_spec()
            &&& s == sequence
            &&& v@ == data
        },
        _ => false,
    }
}

/// What a liveness tick does to connection `c` at `now`: keep-alives are
/// sent only while idle; a pending slot can only expire.
pub open spec fn tick_of(c: Connection, now: u64) -> ChannelTick {
    c.channel.tick_spec(now, c.state == ConnectionState::Idle)
}

/// A slot the tick phase passes over without an event.
pub open spec fn quiet(slot: Option<Connection>, now: u64) -> bool {
    slot is None || tick_of(slot->0, now) == ChannelTick::Noop
}

/// An occupied slot whose peer has been silent longer than `RECV_TIMEOUT_MS`.
pub open spec fn expired(slot: Option<Connection>, now: u64) -> bool {
    slot is Some && since(now, slot->0.channel.last_recv_time()) > RECV_TIMEOUT_MS
}

/// Every occupied slot of `cs` is live.
pub open spec fn slots_ok(cs: Seq<Option<Connection>>) -> bool {
    forall|k: int| 0 <= k < cs.len() && #[trigger] cs[k] is Some ==> slot_ok(cs[k]->0, k, cs.len() as int)
}

/// Rewriting one slot, emptying it or keeping its client and peer, keeps the
/// table exclusive.
proof fn lemma_slot_rewritten(before: Seq<Option<Connection>>, after: Seq<Option<Connection>>, k: int)
    requires
        slots_exclusive(before),
        slots_ok(before),
        0 <= k < before.len(),
        after.len() == before.len(),
        forall|j: int| 0 <= j < before.len() && j != k ==> after[j] == before[j],
        after[k] is None || (before[k] is Some && after[k]->0.client_id == before[k]->0.client_id
            && after[k]->0.channel.peer_spec() == before[k]->0.channel.peer_spec() && slot_ok(
            after[k]->0,
            k,
            after.len() as int,
        )),
    ensures
        slots_exclusive(after),
        slots_ok(after),
{
    assert forall|i: int, j: int|
        0 <= i < after.len() && 0 <= j < after.len() && i != j && after[i] is Some && after[j] is Some
            implies #[trigger] after[i]->0.client_id != #[trigger] after[j]->0.client_id
            && after[i]->0.channel.peer_spec() != after[j]->0.channel.peer_spec() by {
        assert(before[i] is Some && before[j] is Some);
        assert(before[i]->0.client_id != before[j]->0.client_id);
    }
    assert forall|j: int| 0 <= j < after.len() && #[trigger] after[j] is Some implies slot_ok(
        after[j]->0,
        j,
        after.len() as int,
    ) by {
        assert(before[j] is Some);
    }
}

/// Netcode server: a fixed table of client slots and the handshake, replay
/// and liveness rules around it.
pub struct Server {
    listen_addr: Address,
    protocol_id: u64,
    connect_key: [u8; KEY_BYTES],
    challenge_key: [u8; KEY_BYTES],
    clients: Vec<Option<Connection>>,
    time: u64,
    challenge_sequence: u64,
    client_event_idx: usize,
}

impl Server {
    pub closed spec fn clients_spec(&self) -> Seq<Option<Connection>> {
        self.clients@
    }

    /// The virtual clock, in milliseconds.
    pub closed spec fn time_spec(&self) -> u64 {
        self.time
    }

    pub closed spec fn challenge_sequence_spec(&self) -> u64 {
        self.challenge_sequence
    }

    /// Where the tick phase of the event drain resumes.
    pub closed spec fn cursor(&self) -> usize {
        self.client_event_idx
    }

    pub closed spec fn listen_addr_spec(&self) -> Address {
        self.listen_addr
    }

    pub closed spec fn protocol_id_spec(&self) -> u64 {
        self.protocol_id
    }

    pub closed spec fn connect_key_spec(&self) -> [u8; KEY_BYTES] {
        self.connect_key
    }

    pub closed spec fn challenge_key_spec(&self) -> [u8; KEY_BYTES] {
        self.challenge_key
    }

    pub open spec fn wf(&self) -> bool {
        let cs = self.clients_spec();
        &&& slots_exclusive(cs)
        &&& slots_ok(cs)
        &&& self.cursor() <= cs.len()
    }

    /// Everything but the slot table, the challenge counter and the cursor.
    pub open spec fn same_config(&self, other: &Server) -> bool {
        &&& self.listen_addr_spec() == other.listen_addr_spec()
        &&& self.protocol_id_spec() == other.protocol_id_spec()
        &&& self.connect_key_spec() == other.connect_key_spec()
        &&& self.challenge_key_spec() == other.challenge_key_spec()
        &&& self.time_spec() == other.time_spec()
        &&& self.clients_spec().len() == other.clients_spec().len()
    }

    /// A server bound at `local_addr` with `max_clients` empty slots, opening
    /// connect tokens with `private_key` and sealing challenge tokens with
    /// `challenge_key` (a fresh random key).
    pub fn new(
        local_addr: Address,
        max_clients: usize,
        protocol_id: u64,
        private_key: &[u8; KEY_BYTES],
        challenge_key: [u8; KEY_BYTES],
    ) -> (r: Server)
        ensures
            r.wf(),
            r.clients_spec().len() == max_clients,
            forall|k: int| 0 <= k < max_clients ==> #[trigger] r.clients_spec()[k] is None,
            r.listen_addr_spec() == local_addr,
            r.protocol_id_spec() == protocol_id,
            r.connect_key_spec() == *private_key,
            r.challenge_key_spec() == challenge_key,
            r.time_spec() == 0,
            r.challenge_sequence_spec() == 0,
            r.cursor() == 0,
    {
        let mut clients: Vec<Option<Connection>> = Vec::new();
        let mut i: usize = 0;
        while i < max_clients
            invariant
                i <= max_clients,
                clients@.len() == i,
                forall|k: int| 0 <= k < i ==> #[trigger] clients@[k] is None,
            decreases max_clients - i,
        {
            clients.push(None);
            i = i + 1;
        }
        Server {
            listen_addr: local_addr,
            protocol_id,
            connect_key: *private_key,
            challenge_key,
            clients,
            time: 0,
            challenge_sequence: 0,
            client_event_idx: 0,
        }
    }

    /// Slot `k` of `base` sends a challenge for `id` and `user_data`: the
    /// challenge counter advances and numbers the token, the slot's channel
    /// numbers the packet; an error when either counter is spent.
    pub open spec fn challenged(
        old: Server,
        base: Seq<Option<Connection>>,
        k: int,
        id: ClientId,
        user_data: Seq<u8>,
        new: Server,
        ob: Seq<Datagram>,
        nb: Seq<Datagram>,
        r: Result<Option<ServerEvent>, UpdateError>,
    ) -> bool {
        let b = base[k]->0;
        &&& new.same_config(&old)
        &&& if old.challenge_sequence_spec() < u64::MAX && b.channel.next_send_sequence() < u64::MAX {
            &&& r == Ok::<Option<ServerEvent>, UpdateError>(None)
            &&& new.challenge_sequence_spec() == old.challenge_sequence_spec() + 1
            &&& slot_sent(base, new.clients_spec(), k, old.time_spec(), b.state)
            &&& nb.len() == ob.len() + 1
            &&& nb.subrange(0, ob.len() as int) == ob
            &&& is_challenge(
                nb.last(),
                b.channel.peer_spec(),
                b.channel.send_key_spec(),
                b.channel.next_send_sequence(),
                new.challenge_sequence_spec(),
                id,
                user_data,
            )
        } else {
            &&& r == Err::<Option<ServerEvent>, UpdateError>(UpdateError::Send(SendError::EncodeError))
            &&& new.clients_spec() == base
            &&& new.challenge_sequence_spec() == old.challenge_sequence_spec()
            &&& nb == ob
        }
    }

    /// What the admission step does with a connection request from `addr`:
    /// reject an invalid token; re-challenge the slot already holding its
    /// client; reject it when `addr` holds a slot for another client; else
    /// challenge from the lowest free slot; when none is free, deny.
    pub open spec fn connect_outcome(
        old: Server,
        addr: Address,
        req: ConnectionRequest,
        now_secs: u64,
        ob: Seq<Datagram>,
        new: Server,
        nb: Seq<Datagram>,
        r: Result<Option<ServerEvent>, UpdateError>,
    ) -> bool {
        let cs = old.clients_spec();
        let t = req.private_data->0;
        if !token_accepted(req, old.listen_addr_spec(), now_secs) {
            &&& r == Ok::<Option<ServerEvent>, UpdateError>(Some(ServerEvent::RejectedClient))
            &&& new == old
            &&& nb == ob
        } else if has_id(cs, t.client_id) {
            exists|k: int|
                id_at(cs, t.client_id, k) && #[trigger] Server::challenged(
                    old,
                    cs,
                    k,
                    t.client_id,
                    t.user_data@,
                    new,
                    ob,
                    nb,
                    r,
                )
        } else if has_addr(cs, addr) {
            &&& r == Ok::<Option<ServerEvent>, UpdateError>(Some(ServerEvent::RejectedClient))
            &&& new == old
            &&& nb == ob
        } else if has_free(cs) {
            exists|k: int, c: Connection|
                first_free(cs, k) && fresh_connection(c, t, addr, k, cs.len() as int, old.time_spec())
                    && #[trigger] Server::challenged(
                    old,
                    cs.update(k, Some(c)),
                    k,
                    t.client_id,
                    t.user_data@,
                    new,
                    ob,
                    nb,
                    r,
                )
        } else {
            &&& r == Ok::<Option<ServerEvent>, UpdateError>(Some(ServerEvent::ClientSlotFull))
            &&& new == old
            &&& sent_one(ob, nb, Datagram::Denied { to: addr, key: t.server_to_client_key })
        }
    }

    /// Empties slot `k` and hands back what it held.
    fn take_slot(&mut self, k: usize) -> (r: Option<Connection>)
        requires
            k < old(self).clients_spec().len(),
        ensures
            r == old(self).clients_spec()[k as int],
            final(self).clients_spec() == old(self).clients_spec().update(k as int, None),
            final(self).same_config(old(self)),
            final(self).challenge_sequence_spec() == old(self).challenge_sequence_spec(),
            final(self).cursor() == old(self).cursor(),
    {
        let c = self.clients.remove(k);
        self.clients.insert(k, None);
        assert(self.clients@ =~= old(self).clients@.update(k as int, None));
        c
    }

    /// Sends slot `k` a challenge for `id` and `user_data`.
    fn send_challenge(
        &mut self,
        k: usize,
        id: ClientId,
        user_data: Vec<u8>,
        outbox: &mut Vec<Datagram>,
    ) -> (r: Result<Option<ServerEvent>, UpdateError>)
        requires
            old(self).wf(),
            k < old(self).clients_spec().len(),
            old(self).clients_spec()[k as int] is Some,
        ensures
            final(self).wf(),
            final(self).same_config(old(self)),
            final(self).cursor() == old(self).cursor(),
            Server::challenged(
                *old(self),
                old(self).clients_spec(),
                k as int,
                id,
                user_data@,
                *final(self),
                old(outbox)@,
                final(outbox)@,
                r,
            ),
    {
        if self.challenge_sequence == u64::MAX {
            return Err(UpdateError::Send(SendError::EncodeError));
        }
        let ghost before = *self;
        let slot = self.take_slot(k);
        let mut conn = match slot {
            Some(c) => c,
            None => {
                return Err(UpdateError::Send(SendError::EncodeError));
            },
        };
        let seq = match conn.channel.take_send_sequence(self.time) {
            Some(s) => s,
            None => {
                self.clients.set(k, Some(conn));
                assert(self.clients@ =~= before.clients@);
                return Err(UpdateError::Send(SendError::EncodeError));
            },
        };
        self.challenge_sequence = self.challenge_sequence + 1;
        outbox.push(
            Datagram::Challenge {
                to: conn.channel.peer(),
                key: conn.channel.send_key(),
                sequence: seq,
                token_sequence: self.challenge_sequence,
                client_id: id,
                user_data,
            },
        );
        self.clients.set(k, Some(conn));
        proof {
            let cs = self.clients@;
            assert forall|i: int, j: int|
                0 <= i < cs.len() && 0 <= j < cs.len() && i != j && cs[i] is Some && cs[j] is Some
                    implies #[trigger] cs[i]->0.client_id != #[trigger] cs[j]->0.client_id
                    && cs[i]->0.channel.peer_spec() != cs[j]->0.channel.peer_spec() by {
                assert(before.clients@[i] is Some && before.clients@[j] is Some);
            }
            assert forall|j: int| 0 <= j < cs.len() && #[trigger] cs[j] is Some
                implies slot_ok(cs[j]->0, j, cs.len() as int) by {
                assert(before.clients@[j] is Some);
            }
            assert(old(outbox)@ =~= outbox@.subrange(0, old(outbox)@.len() as int));
        }
        Ok(None)
    }

    /// The admission step for a connection request from `addr`, with the
    /// wall clock at `now_secs`.
    pub fn handle_client_connect(
        &mut self,
        addr: &Address,
        req: ConnectionRequest,
        now_secs: u64,
        outbox: &mut Vec<Datagram>,
    ) -> (r: Result<Option<ServerEvent>, UpdateError>)
        requires
            old(self).wf(),
        ensures
            final(self).wf(),
            final(self).same_config(old(self)),
            final(self).cursor() == old(self).cursor(),
            Server::connect_outcome(
                *old(self),
                *addr,
                req,
                now_secs,
                old(outbox)@,
                *final(self),
                final(outbox)@,
                r,
            ),
    {
        let ghost rq = req;
        let token = match Self::validate_client_token(&self.listen_addr, now_secs, req) {
            Some(t) => t,
            None => {
                return Ok(Some(ServerEvent::RejectedClient));
            },
        };
        let ghost before = *self;
        let k = match self.find_client_by_id(token.client_id) {
            Some(k) => k,
            None => {
                if self.find_client_by_addr(addr).is_some() {
                    return Ok(Some(ServerEvent::RejectedClient));
                }
                match self.find_free_slot() {
                    Some(k) => {
                        let ch = Channel::new(
                            token.server_to_client_key,
                            token.client_to_server_key,
                            *addr,
                            k,
                            self.clients.len(),
                            self.time,
                        );
                        let conn = Connection {
                            client_id: token.client_id,
                            state: ConnectionState::PendingResponse,
                            channel: ch,
                        };
                        let ghost c = conn;
                        self.clients.set(k, Some(conn));
                        proof {
                            let cs = self.clients@;
                            assert(cs == before.clients@.update(k as int, Some(c)));
                            assert forall|i: int, j: int|
                                0 <= i < cs.len() && 0 <= j < cs.len() && i != j && cs[i] is Some
                                    && cs[j] is Some implies #[trigger] cs[i]->0.client_id
                                    != #[trigger] cs[j]->0.client_id
                                    && cs[i]->0.channel.peer_spec() != cs[j]->0.channel.peer_spec() by {
                                if i == k as int {
                                    assert(!id_at(before.clients@, token.client_id, j));
                                    assert(!addr_at(before.clients@, *addr, j));
                                } else if j == k as int {
                                    assert(!id_at(before.clients@, token.client_id, i));
                                    assert(!addr_at(before.clients@, *addr, i));
                                } else {
                                    assert(before.clients@[i]->0.client_id
                                        != before.clients@[j]->0.client_id);
                                }
                            }
                            assert(fresh_connection(c, token, *addr, k as int, cs.len() as int, before.time));
                            assert(fresh_connection(
                                cs[k as int]->0,
                                token,
                                *addr,
                                k as int,
                                cs.len() as int,
                                before.time,
                            ));
                        }
                        k
                    },
                    None => {
                        outbox.push(Datagram::Denied { to: *addr, key: token.server_to_client_key });
                        return Ok(Some(ServerEvent::ClientSlotFull));
                    },
                }
            },
        };
        let ghost mid = *self;
        let r = self.send_challenge(k, token.client_id, token.user_data, outbox);
        proof {
            if has_id(before.clients@, token.client_id) {
                assert(id_at(before.clients@, token.client_id, k as int));
                assert(mid == before);
            } else {
                let c = mid.clients@[k as int]->0;
                assert(mid.clients@ == before.clients@.update(k as int, Some(c)));
                assert(first_free(before.clients@, k as int));
                assert(Server::challenged(
                    before,
                    before.clients@.update(k as int, Some(c)),
                    k as int,
                    token.client_id,
                    token.user_data@,
                    *self,
                    old(outbox)@,
                    outbox@,
                    r,
                ));
            }
        }
        r
    }

    /// `new` is `old` with slot `k` emptied.
    pub open spec fn released(old: Server, new: Server, k: int) -> bool {
        &&& new.clients_spec() == old.clients_spec().update(k, None)
        &&& new.challenge_sequence_spec() == old.challenge_sequence_spec()
    }

    /// `new` is `old` once slot `k` took in an authenticated packet numbered `s`.
    pub open spec fn received_at(old: Server, new: Server, k: int, s: u64) -> bool {
        let c = old.clients_spec()[k]->0;
        let n = new.clients_spec()[k]->0;
        &&& new.wf()
        &&& new.same_config(&old)
        &&& new.cursor() == old.cursor()
        &&& new.challenge_sequence_spec() == old.challenge_sequence_spec()
        &&& forall|j: int| 0 <= j < old.clients_spec().len() && j != k
            ==> new.clients_spec()[j] == old.clients_spec()[j]
        &&& new.clients_spec()[k] is Some
        &&& n.client_id == c.client_id
        &&& n.state == c.state
        &&& Channel::received(c.channel, n.channel, s, old.time_spec())
    }

    /// What slot `k` of `mid`, having taken in `p`, does with it: while idle
    /// a payload goes to the out buffer, a keep-alive is reported, a
    /// disconnect releases the slot; while pending, a valid response
    /// connects the client (user data to the out buffer, a keep-alive out,
    /// the slot idle) and a connection request is admitted again; anything
    /// else is dropped.
    pub open spec fn dispatch_outcome(
        mid: Server,
        k: int,
        p: Packet,
        now_secs: u64,
        ob: Seq<Datagram>,
        oo: Seq<u8>,
        new: Server,
        nb: Seq<Datagram>,
        no: Seq<u8>,
        r: Result<Option<ServerEvent>, UpdateError>,
    ) -> bool {
        let c = mid.clients_spec()[k]->0;
        let unchanged = new == mid && nb == ob && no == oo;
        if c.state == ConnectionState::Idle {
            match p {
                Packet::Payload(v) => {
                    &&& r == Ok::<Option<ServerEvent>, UpdateError>(
                        Some(ServerEvent::Packet(c.client_id, v@.len() as usize)),
                    )
                    &&& new == mid
                    &&& nb == ob
                    &&& written(oo, no, v@)
                },
                Packet::KeepAlive => {
                    &&& r == Ok::<Option<ServerEvent>, UpdateError>(
                        Some(ServerEvent::KeepAlive(c.client_id)),
                    )
                    &&& unchanged
                },
                Packet::Disconnect => {
                    &&& r == Ok::<Option<ServerEvent>, UpdateError>(
                        Some(ServerEvent::ClientDisconnect(c.client_id)),
                    )
                    &&& Server::released(mid, new, k)
                    &&& nb == ob
                    &&& no == oo
                },
                _ => r == Ok::<Option<ServerEvent>, UpdateError>(None) && unchanged,
            }
        } else {
            match p {
                Packet::Response(Some(t)) => {
                    if t.user_data@.len() != USER_DATA_BYTES {
                        r == Err::<Option<ServerEvent>, UpdateError>(
                            UpdateError::Recv(RecvError::DecodeError),
                        ) && unchanged
                    } else if c.channel.next_send_sequence() == u64::MAX {
                        &&& r == Err::<Option<ServerEvent>, UpdateError>(
                            UpdateError::Send(SendError::EncodeError),
                        )
                        &&& new.clients_spec() == mid.clients_spec()
                        &&& new.challenge_sequence_spec() == mid.challenge_sequence_spec()
                        &&& nb == ob
                    } else {
                        &&& r == Ok::<Option<ServerEvent>, UpdateError>(
                            Some(ServerEvent::ClientConnect(t.client_id)),
                        )
                        &&& slot_sent(
                            mid.clients_spec(),
                            new.clients_spec(),
                            k,
                            mid.time_spec(),
                            ConnectionState::Idle,
                        )
                        &&& new.challenge_sequence_spec() == mid.challenge_sequence_spec()
                        &&& sent_one(ob, nb, nb.last())
                        &&& is_keep_alive(nb.last(), c, c.channel.next_send_sequence())
                        &&& written(oo, no, t.user_data@)
                    }
                },
                Packet::Response(None) => r == Err::<Option<ServerEvent>, UpdateError>(
                    UpdateError::Recv(RecvError::DecodeError),
                ) && unchanged,
                Packet::ConnectionRequest(req) => {
                    &&& no == oo
                    &&& exists|r2: Result<Option<ServerEvent>, UpdateError>|
                        #[trigger] Server::connect_outcome(
                            mid,
                            c.channel.peer_spec(),
                            req,
                            now_secs,
                            ob,
                            new,
                            nb,
                            r2,
                        ) && r == match r2 {
                            Err(e) => Err::<Option<ServerEvent>, UpdateError>(e),
                            Ok(_) => Ok::<Option<ServerEvent>, UpdateError>(None),
                        }
                },
                _ => r == Ok::<Option<ServerEvent>, UpdateError>(None) && unchanged,
            }
        }
    }

    /// What slot `k` does with the datagram `data` whose opening gave
    /// `opened`: nothing for an empty slot or datagram; a malformed header
    /// or a failed opening releases the slot; a repeated or stale sequence
    /// number is reported and dropped; else the number is recorded and the
    /// packet dispatched.
    pub open spec fn packet_outcome(
        old: Server,
        k: int,
        data: Seq<u8>,
        opened: Option<Packet>,
        now_secs: u64,
        ob: Seq<Datagram>,
        oo: Seq<u8>,
        new: Server,
        nb: Seq<Datagram>,
        no: Seq<u8>,
        r: Result<Option<ServerEvent>, UpdateError>,
    ) -> bool {
        let c = old.clients_spec()[k]->0;
        let h = header_of(data);
        if old.clients_spec()[k] is None || data.len() == 0 {
            r == Ok::<Option<ServerEvent>, UpdateError>(None) && new == old && nb == ob && no == oo
        } else if !header_ok(data) {
            &&& r == Ok::<Option<ServerEvent>, UpdateError>(
                Some(ServerEvent::ClientDisconnect(c.client_id)),
            )
            &&& Server::released(old, new, k)
            &&& nb == ob
            &&& no == oo
        } else if c.channel.replay_spec().verdict(h.sequence) != ReplayVerdict::Fresh {
            &&& r == Ok::<Option<ServerEvent>, UpdateError>(
                Some(ServerEvent::ReplayRejected(c.client_id)),
            )
            &&& new == old
            &&& nb == ob
            &&& no == oo
        } else if !opened_ok(opened) {
            &&& r == Ok::<Option<ServerEvent>, UpdateError>(
                Some(ServerEvent::ClientDisconnect(c.client_id)),
            )
            &&& Server::released(old, new, k)
            &&& nb == ob
            &&& no == oo
        } else {
            exists|mid: Server|
                #[trigger] Server::received_at(old, mid, k, h.sequence)
                    && Server::dispatch_outcome(mid, k, opened->0, now_secs, ob, oo, new, nb, no, r)
        }
    }

    /// Empties occupied slot `k` and hands back its client id.
    fn release(&mut self, k: usize) -> (r: ClientId)
        requires
            old(self).wf(),
            k < old(self).clients_spec().len(),
            old(self).clients_spec()[k as int] is Some,
        ensures
            final(self).wf(),
            Server::released(*old(self), *final(self), k as int),
            final(self).same_config(old(self)),
            final(self).cursor() == old(self).cursor(),
            r == old(self).clients_spec()[k as int]->0.client_id,
    {
        let ghost before = *self;
        let c = self.take_slot(k);
        proof {
            lemma_slot_rewritten(before.clients@, self.clients@, k as int);
        }
        match c {
            Some(c) => c.client_id,
            None => 0,
        }
    }

    /// The client id and state of occupied slot `k`.
    fn slot_info(&self, k: usize) -> (r: (ClientId, ConnectionState))
        requires
            k < self.clients_spec().len(),
            self.clients_spec()[k as int] is Some,
        ensures
            r.0 == self.clients_spec()[k as int]->0.client_id,
            r.1 == self.clients_spec()[k as int]->0.state,
    {
        match &self.clients[k] {
            Some(c) => (c.client_id, c.state),
            None => (0, ConnectionState::Disconnected),
        }
    }

    /// The replay verdict of occupied slot `k` on sequence number `s`.
    fn slot_verdict(&self, k: usize, s: u64) -> (r: ReplayVerdict)
        requires
            self.wf(),
            k < self.clients_spec().len(),
            self.clients_spec()[k as int] is Some,
        ensures
            r == self.clients_spec()[k as int]->0.channel.replay_spec().verdict(s),
    {
        match &self.clients[k] {
            Some(c) => c.channel.check_inbound(s),
            None => ReplayVerdict::Stale,
        }
    }

    /// The peer address of occupied slot `k`.
    fn slot_peer(&self, k: usize) -> (r: Address)
        requires
            k < self.clients_spec().len(),
            self.clients_spec()[k as int] is Some,
        ensures
            r == self.clients_spec()[k as int]->0.channel.peer_spec(),
    {
        match &self.clients[k] {
            Some(c) => c.channel.peer(),
            None => self.listen_addr,
        }
    }

    /// Records on slot `k` the authenticated inbound number `s`.
    fn receive(&mut self, k: usize, s: u64)
        requires
            old(self).wf(),
            k < old(self).clients_spec().len(),
            old(self).clients_spec()[k as int] is Some,
            old(self).clients_spec()[k as int]->0.channel.replay_spec().verdict(s)
                == ReplayVerdict::Fresh,
        ensures
            Server::received_at(*old(self), *final(self), k as int, s),
    {
        let ghost before = *self;
        let slot = self.take_slot(k);
        let mut conn = match slot {
            Some(c) => c,
            None => {
                return;
            },
        };
        conn.channel.accept_inbound(s, self.time);
        self.clients.set(k, Some(conn));
        proof {
            lemma_slot_rewritten(before.clients@, self.clients@, k as int);
        }
    }

    /// Sends occupied slot `k` a keep-alive and puts it in `state`; `None`
    /// and no change once its counter is spent.
    fn send_keep_alive(&mut self, k: usize, state: ConnectionState, outbox: &mut Vec<Datagram>) -> (r:
        Option<u64>)
        requires
            old(self).wf(),
            k < old(self).clients_spec().len(),
            old(self).clients_spec()[k as int] is Some,
            state == ConnectionState::PendingResponse || state == ConnectionState::Idle,
        ensures
            final(self).wf(),
            final(self).same_config(old(self)),
            final(self).cursor() == old(self).cursor(),
            final(self).challenge_sequence_spec() == old(self).challenge_sequence_spec(),
            ({
                let c = old(self).clients_spec()[k as int]->0;
                if c.channel.next_send_sequence() < u64::MAX {
                    &&& r == Some(c.channel.next_send_sequence())
                    &&& slot_sent(
                        old(self).clients_spec(),
                        final(self).clients_spec(),
                        k as int,
                        old(self).time_spec(),
                        state,
                    )
                    &&& sent_one(old(outbox)@, final(outbox)@, final(outbox)@.last())
                    &&& is_keep_alive(final(outbox)@.last(), c, r->0)
                } else {
                    &&& r is None
                    &&& final(self).clients_spec() == old(self).clients_spec()
                    &&& final(outbox)@ == old(outbox)@
                }
            }),
    {
        let ghost before = *self;
        let slot = self.take_slot(k);
        let mut conn = match slot {
            Some(c) => c,
            None => {
                return None;
            },
        };
        let seq = match conn.channel.take_send_sequence(self.time) {
            Some(s) => s,
            None => {
                self.clients.set(k, Some(conn));
                assert(self.clients@ =~= before.clients@);
                return None;
            },
        };
        outbox.push(
            Datagram::KeepAlive {
                to: conn.channel.peer(),
                key: conn.channel.send_key(),
                sequence: seq,
                slot: conn.channel.slot(),
                capacity: conn.channel.capacity(),
            },
        );
        conn.state = state;
        self.clients.set(k, Some(conn));
        proof {
            lemma_slot_rewritten(before.clients@, self.clients@, k as int);
        }
        Some(seq)
    }

    /// Acts on packet `p` just taken in by occupied slot `k`.
    fn dispatch(
        &mut self,
        k: usize,
        p: Packet,
        now_secs: u64,
        out: &mut Vec<u8>,
        outbox: &mut Vec<Datagram>,
    ) -> (r: Result<Option<ServerEvent>, UpdateError>)
        requires
            old(self).wf(),
            k < old(self).clients_spec().len(),
            old(self).clients_spec()[k as int] is Some,
            old(out)@.len() >= MAX_PAYLOAD_BYTES,
            opened_ok(Some(p)),
        ensures
            final(self).wf(),
            final(self).same_config(old(self)),
            final(self).cursor() == old(self).cursor(),
            Server::dispatch_outcome(
                *old(self),
                k as int,
                p,
                now_secs,
                old(outbox)@,
                old(out)@,
                *final(self),
                final(outbox)@,
                final(out)@,
                r,
            ),
    {
        let (id, state) = self.slot_info(k);
        match state {
            ConnectionState::Idle => match p {
                Packet::Payload(v) => {
                    write_front(out, &v);
                    Ok(Some(ServerEvent::Packet(id, v.len())))
                },
                Packet::KeepAlive => Ok(Some(ServerEvent::KeepAlive(id))),
                Packet::Disconnect => {
                    self.release(k);
                    Ok(Some(ServerEvent::ClientDisconnect(id)))
                },
                _ => Ok(None),
            },
            _ => match p {
                Packet::Response(Some(t)) => {
                    if t.user_data.len() != USER_DATA_BYTES {
                        return Err(UpdateError::Recv(RecvError::DecodeError));
                    }
                    match self.send_keep_alive(k, ConnectionState::Idle, outbox) {
                        None => Err(UpdateError::Send(SendError::EncodeError)),
                        Some(_) => {
                            write_front(out, &t.user_data);
                            Ok(Some(ServerEvent::ClientConnect(t.client_id)))
                        },
                    }
                },
                Packet::Response(None) => Err(UpdateError::Recv(RecvError::DecodeError)),
                Packet::ConnectionRequest(req) => {
                    let peer = self.slot_peer(k);
                    let r2 = self.handle_client_connect(&peer, req, now_secs, outbox);
                    match r2 {
                        Err(e) => Err(e),
                        Ok(_) => Ok(None),
                    }
                },
                _ => Ok(None),
            },
        }
    }

    /// Handles datagram `data` from the peer of slot `k`; `opened` is what
    /// opening it under the slot's receive key gave.
    pub fn handle_packet(
        &mut self,
        k: usize,
        data: &[u8],
        opened: Option<Packet>,
        now_secs: u64,
        out: &mut Vec<u8>,
        outbox: &mut Vec<Datagram>,
    ) -> (r: Result<Option<ServerEvent>, UpdateError>)
        requires
            old(self).wf(),
            k < old(self).clients_spec().len(),
            old(out)@.len() >= MAX_PAYLOAD_BYTES,
        ensures
            final(self).wf(),
            final(self).same_config(old(self)),
            final(self).cursor() == old(self).cursor(),
            Server::packet_outcome(
                *old(self),
                k as int,
                data@,
                opened,
                now_secs,
                old(outbox)@,
                old(out)@,
                *final(self),
                final(outbox)@,
                final(out)@,
                r,
            ),
    {
        if data.len() == 0 || self.clients[k].is_none() {
            return Ok(None);
        }
        let header = match read_header(data) {
            Some(h) => h,
            None => {
                let id = self.release(k);
                return Ok(Some(ServerEvent::ClientDisconnect(id)));
            },
        };
        let (id, _) = self.slot_info(k);
        match self.slot_verdict(k, header.sequence) {
            ReplayVerdict::Fresh => {},
            _ => {
                return Ok(Some(ServerEvent::ReplayRejected(id)));
            },
        }
        let ghost op = opened;
        let p = match opened {
            Some(p) => p,
            None => {
                self.release(k);
                return Ok(Some(ServerEvent::ClientDisconnect(id)));
            },
        };
        let too_long = match &p {
            Packet::Payload(v) => v.len() > MAX_PAYLOAD_BYTES,
            _ => false,
        };
        if too_long {
            self.release(k);
            return Ok(Some(ServerEvent::ClientDisconnect(id)));
        }
        let ghost before = *self;
        self.receive(k, header.sequence);
        let ghost mid = *self;
        let r = self.dispatch(k, p, now_secs, out, outbox);
        proof {
            assert(Server::received_at(before, mid, k as int, header.sequence));
        }
        r
    }

    /// What the embedder's datagram `data` from `addr` does, `opened` being
    /// what opening it gave (under the matching slot's receive key, or as a
    /// connection request for an unknown address): an out buffer shorter
    /// than `MAX_PAYLOAD_BYTES` is refused; a known address goes to its
    /// slot; from an unknown one only a connection request is acted on.
    pub open spec fn io_outcome(
        old: Server,
        addr: Address,
        data: Seq<u8>,
        opened: Option<Packet>,
        now_secs: u64,
        ob: Seq<Datagram>,
        oo: Seq<u8>,
        new: Server,
        nb: Seq<Datagram>,
        no: Seq<u8>,
        r: Result<Option<ServerEvent>, UpdateError>,
    ) -> bool {
        let cs = old.clients_spec();
        if oo.len() < MAX_PAYLOAD_BYTES {
            &&& r == Err::<Option<ServerEvent>, UpdateError>(UpdateError::PacketBufferTooSmall)
            &&& new == old
            &&& nb == ob
            &&& no == oo
        } else if has_addr(cs, addr) {
            exists|k: int|
                addr_at(cs, addr, k) && #[trigger] Server::packet_outcome(
                    old,
                    k,
                    data,
                    opened,
                    now_secs,
                    ob,
                    oo,
                    new,
                    nb,
                    no,
                    r,
                )
        } else {
            match opened {
                Some(Packet::ConnectionRequest(req)) => {
                    &&& Server::connect_outcome(old, addr, req, now_secs, ob, new, nb, r)
                    &&& no == oo
                },
                _ => r == Ok::<Option<ServerEvent>, UpdateError>(None) && new == old && nb == ob
                    && no == oo,
            }
        }
    }

    /// One step of the event drain's I/O phase: the datagram `data` from
    /// `addr`, whose opening gave `opened`, with the wall clock at `now_secs`.
    /// Datagrams to send are appended to `outbox`; payloads and user data
    /// are written to the front of `out`.
    pub fn handle_io(
        &mut self,
        addr: &Address,
        data: &[u8],
        opened: Option<Packet>,
        now_secs: u64,
        out: &mut Vec<u8>,
        outbox: &mut Vec<Datagram>,
    ) -> (r: Result<Option<ServerEvent>, UpdateError>)
        requires
            old(self).wf(),
        ensures
            final(self).wf(),
            final(self).same_config(old(self)),
            final(self).cursor() == old(self).cursor(),
            Server::io_outcome(
                *old(self),
                *addr,
                data@,
                opened,
                now_secs,
                old(outbox)@,
                old(out)@,
                *final(self),
                final(outbox)@,
                final(out)@,
                r,
            ),
    {
        if out.len() < MAX_PAYLOAD_BYTES {
            return Err(UpdateError::PacketBufferTooSmall);
        }
        match self.find_client_by_addr(addr) {
            None => match opened {
                Some(Packet::ConnectionRequest(req)) => {
                    self.handle_client_connect(addr, req, now_secs, outbox)
                },
                _ => Ok(None),
            },
            Some(k) => self.handle_packet(k, data, opened, now_secs, out, outbox),
        }
    }

    /// The tick of slot `k` of `old`, as `next_event` performs it.
    pub open spec fn tick_step(
        old: Server,
        new: Server,
        k: int,
        ob: Seq<Datagram>,
        nb: Seq<Datagram>,
        r: Option<ServerEvent>,
    ) -> bool {
        let slot = old.clients_spec()[k];
        let c = slot->0;
        &&& new.challenge_sequence_spec() == old.challenge_sequence_spec()
        &&& if slot is None {
            r is None && new.clients_spec() == old.clients_spec() && nb == ob
        } else {
            match tick_of(c, old.time_spec()) {
                ChannelTick::Expired => {
                    &&& r == Some(ServerEvent::ClientDisconnect(c.client_id))
                    &&& new.clients_spec() == old.clients_spec().update(k, None)
                    &&& nb == ob
                },
                ChannelTick::SentKeepAlive(s) => {
                    &&& r == Some(ServerEvent::KeepAlive(c.client_id))
                    &&& slot_sent(old.clients_spec(), new.clients_spec(), k, old.time_spec(), c.state)
                    &&& sent_one(ob, nb, nb.last())
                    &&& is_keep_alive(nb.last(), c, s)
                },
                ChannelTick::Noop => {
                    &&& r is None
                    &&& new.clients_spec() == old.clients_spec()
                    &&& nb == ob
                },
            }
        }
    }

    /// The liveness tick of slot `k`: an expired slot is released and its
    /// client reported gone, a due keep-alive is queued and reported.
    pub fn tick_client(&mut self, k: usize, outbox: &mut Vec<Datagram>) -> (r: Option<ServerEvent>)
        requires
            old(self).wf(),
            k < old(self).clients_spec().len(),
        ensures
            final(self).wf(),
            final(self).same_config(old(self)),
            final(self).cursor() == old(self).cursor(),
            Server::tick_step(*old(self), *final(self), k as int, old(outbox)@, final(outbox)@, r),
    {
        if self.clients[k].is_none() {
            return None;
        }
        let ghost before = *self;
        let slot = self.take_slot(k);
        let mut conn = match slot {
            Some(c) => c,
            None => {
                return None;
            },
        };
        let keep_alive = match conn.state {
            ConnectionState::Idle => true,
            _ => false,
        };
        let id = conn.client_id;
        match conn.channel.tick(self.time, keep_alive) {
            ChannelTick::Expired => {
                proof {
                    lemma_slot_rewritten(before.clients@, self.clients@, k as int);
                }
                Some(ServerEvent::ClientDisconnect(id))
            },
            ChannelTick::SentKeepAlive(seq) => {
                outbox.push(
                    Datagram::KeepAlive {
                        to: conn.channel.peer(),
                        key: conn.channel.send_key(),
                        sequence: seq,
                        slot: conn.channel.slot(),
                        capacity: conn.channel.capacity(),
                    },
                );
                self.clients.set(k, Some(conn));
                proof {
                    lemma_slot_rewritten(before.clients@, self.clients@, k as int);
                }
                Some(ServerEvent::KeepAlive(id))
            },
            ChannelTick::Noop => {
                self.clients.set(k, Some(conn));
                assert(self.clients@ =~= before.clients@);
                None
            },
        }
    }

    /// The tick phase of the event drain, run once the embedder's socket has
    /// no datagram left: ticks the slots from the cursor on and returns the
    /// first event, leaving the cursor after the slot that gave it; `None`
    /// once every slot has been ticked since the last `update`. The cursor
    /// never passes an expired slot without releasing it and reporting its
    /// client gone.
    pub fn next_event(&mut self, outbox: &mut Vec<Datagram>) -> (r: Option<ServerEvent>)
        requires
            old(self).wf(),
        ensures
            final(self).wf(),
            final(self).same_config(old(self)),
            old(self).cursor() <= final(self).cursor() <= old(self).clients_spec().len(),
            r is None ==> final(self).cursor() == old(self).clients_spec().len()
                && final(self).clients_spec() == old(self).clients_spec()
                && final(outbox)@ == old(outbox)@
                && forall|j: int| old(self).cursor() <= j < old(self).clients_spec().len()
                    ==> #[trigger] quiet(old(self).clients_spec()[j], old(self).time_spec()),
            r is Some ==> {
                let k = final(self).cursor() - 1;
                &&& old(self).cursor() <= k
                &&& forall|j: int| old(self).cursor() <= j < k
                    ==> #[trigger] quiet(old(self).clients_spec()[j], old(self).time_spec())
                &&& Server::tick_step(*old(self), *final(self), k, old(outbox)@, final(outbox)@, r)
            },
            forall|j: int|
                old(self).cursor() <= j < final(self).cursor() && #[trigger] expired(
                    old(self).clients_spec()[j],
                    old(self).time_spec(),
                ) ==> j == final(self).cursor() - 1
                    && r == Some(ServerEvent::ClientDisconnect(old(self).clients_spec()[j]->0.client_id))
                    && final(self).clients_spec()[j] is None,
    {
        let ghost start = *self;
        assert(start == *old(self));
        while self.client_event_idx < self.clients.len()
            invariant
                start == *old(self),
                self.wf(),
                self.same_config(&start),
                start.cursor() <= self.cursor() <= start.clients_spec().len(),
                self.clients_spec() == start.clients_spec(),
                self.challenge_sequence_spec() == start.challenge_sequence_spec(),
                outbox@ == old(outbox)@,
                forall|j: int| start.cursor() <= j < self.cursor()
                    ==> #[trigger] quiet(start.clients_spec()[j], start.time_spec()),
            decreases self.clients_spec().len() - self.cursor(),
        {
            let k = self.client_event_idx;
            let ghost pre = *self;
            let ev = self.tick_client(k, outbox);
            let ghost ticked = *self;
            self.client_event_idx = k + 1;
            assert(self.clients_spec() == ticked.clients_spec());
            assert(self.same_config(&start));
            if ev.is_some() {
                assert(Server::tick_step(start, *self, k as int, old(outbox)@, outbox@, ev));
                proof {
                    assert forall|j: int|
                        start.cursor() <= j < self.cursor() && #[trigger] expired(
                            start.clients_spec()[j],
                            start.time_spec(),
                        ) implies j == self.cursor() - 1 && ev == Some(
                            ServerEvent::ClientDisconnect(start.clients_spec()[j]->0.client_id),
                        ) && self.clients_spec()[j] is None by {
                        if j < k {
                            assert(quiet(start.clients_spec()[j], start.time_spec()));
                        }
                    }
                }
                return ev;
            }
            assert(quiet(start.clients_spec()[k as int], start.time_spec()));
        }
        proof {
            assert forall|j: int|
                start.cursor() <= j < self.cursor() && #[trigger] expired(
                    start.clients_spec()[j],
                    start.time_spec(),
                ) implies false by {
                assert(quiet(start.clients_spec()[j], start.time_spec()));
            }
        }
        None
    }

    /// Advances the virtual clock by `elapsed_ms` milliseconds (stopping at
    /// the largest value) and restarts the tick phase at slot 0.
    pub fn update(&mut self, elapsed_ms: u64)
        requires
            old(self).wf(),
        ensures
            final(self).wf(),
            final(self).time_spec() == if old(self).time_spec() as int + elapsed_ms as int
                <= u64::MAX { (old(self).time_spec() + elapsed_ms) as u64 } else { u64::MAX },
            final(self).cursor() == 0,
            final(self).clients_spec() == old(self).clients_spec(),
            final(self).challenge_sequence_spec() == old(self).challenge_sequence_spec(),
            final(self).listen_addr_spec() == old(self).listen_addr_spec(),
            final(self).protocol_id_spec() == old(self).protocol_id_spec(),
            final(self).connect_key_spec() == old(self).connect_key_spec(),
            final(self).challenge_key_spec() == old(self).challenge_key_spec(),
    {
        if self.time <= u64::MAX - elapsed_ms {
            self.time = self.time + elapsed_ms;
        } else {
            self.time = u64::MAX;
        }
        self.client_event_idx = 0;
    }

    /// Hands out a sequence number on occupied slot `k` and queues `data` as
    /// a payload to its peer; `None` once its counter is spent.
    fn send_payload(&mut self, k: usize, data: Vec<u8>, outbox: &mut Vec<Datagram>) -> (r: Option<
        u64,
    >)
        requires
            old(self).wf(),
            k < old(self).clients_spec().len(),
            old(self).clients_spec()[k as int] is Some,
        ensures
            final(self).wf(),
            final(self).same_config(old(self)),
            final(self).cursor() == old(self).cursor(),
            final(self).challenge_sequence_spec() == old(self).challenge_sequence_spec(),
            ({
                let c = old(self).clients_spec()[k as int]->0;
                if c.channel.next_send_sequence() < u64::MAX {
                    &&& r == Some(c.channel.next_send_sequence())
                    &&& slot_sent(
                        old(self).clients_spec(),
                        final(self).clients_spec(),
                        k as int,
                        old(self).time_spec(),
                        c.state,
                    )
                    &&& sent_one(old(outbox)@, final(outbox)@, final(outbox)@.last())
                    &&& is_payload(final(outbox)@.last(), c, r->0, data@)
                } else {
                    &&& r is None
                    &&& final(self).clients_spec() == old(self).clients_spec()
                    &&& final(outbox)@ == old(outbox)@
                }
            }),
    {
        let ghost before = *self;
        let slot = self.take_slot(k);
        let mut conn = match slot {
            Some(c) => c,
            None => {
                return None;
            },
        };
        let seq = match conn.channel.take_send_sequence(self.time) {
            Some(s) => s,
            None => {
                self.clients.set(k, Some(conn));
                assert(self.clients@ =~= before.clients@);
                return None;
            },
        };
        outbox.push(
            Datagram::Payload {
                to: conn.channel.peer(),
                key: conn.channel.send_key(),
                sequence: seq,
                data,
            },
        );
        self.clients.set(k, Some(conn));
        proof {
            lemma_slot_rewritten(before.clients@, self.clients@, k as int);
        }
        Some(seq)
    }

    /// Queues `packet` as a payload to client `client_id` and returns its
    /// length: `PacketSize` unless it holds 1 to `MAX_PAYLOAD_BYTES` bytes,
    /// `InvalidClientId` when no slot holds the client, `EncodeError` once
    /// the slot's sequence numbers are spent.
    pub fn send(&mut self, client_id: ClientId, packet: &[u8], outbox: &mut Vec<Datagram>) -> (r:
        Result<usize, SendError>)
        requires
            old(self).wf(),
        ensures
            final(self).wf(),
            final(self).same_config(old(self)),
            final(self).cursor() == old(self).cursor(),
            final(self).challenge_sequence_spec() == old(self).challenge_sequence_spec(),
            packet@.len() == 0 || packet@.len() > MAX_PAYLOAD_BYTES ==> r == Err::<usize, SendError>(
                SendError::PacketSize,
            ) && final(self).clients_spec() == old(self).clients_spec() && final(outbox)@ == old(
                outbox,
            )@,
            0 < packet@.len() <= MAX_PAYLOAD_BYTES && !has_id(old(self).clients_spec(), client_id)
                ==> r == Err::<usize, SendError>(SendError::InvalidClientId)
                && final(self).clients_spec() == old(self).clients_spec() && final(outbox)@ == old(
                outbox,
            )@,
            0 < packet@.len() <= MAX_PAYLOAD_BYTES ==> forall|k: int|
                #[trigger] id_at(old(self).clients_spec(), client_id, k) ==> {
                    let c = old(self).clients_spec()[k]->0;
                    if c.channel.next_send_sequence() < u64::MAX {
                        &&& r == Ok::<usize, SendError>(packet@.len() as usize)
                        &&& slot_sent(
                            old(self).clients_spec(),
                            final(self).clients_spec(),
                            k,
                            old(self).time_spec(),
                            c.state,
                        )
                        &&& sent_one(old(outbox)@, final(outbox)@, final(outbox)@.last())
                        &&& is_payload(
                            final(outbox)@.last(),
                            c,
                            c.channel.next_send_sequence(),
                            packet@,
                        )
                    } else {
                        &&& r == Err::<usize, SendError>(SendError::EncodeError)
                        &&& final(self).clients_spec() == old(self).clients_spec()
                        &&& final(outbox)@ == old(outbox)@
                    }
                },
    {
        if packet.len() == 0 || packet.len() > MAX_PAYLOAD_BYTES {
            return Err(SendError::PacketSize);
        }
        let k = match self.find_client_by_id(client_id) {
            Some(k) => k,
            None => {
                return Err(SendError::InvalidClientId);
            },
        };
        let data = vstd::slice::slice_to_vec(packet);
        match self.send_payload(k, data, outbox) {
            Some(_) => Ok(packet.len()),
            None => Err(SendError::EncodeError),
        }
    }

    /// The key that packets from the client in slot `k` are opened with;
    /// `None` for a free or missing slot.
    pub fn client_receive_key(&self, k: usize) -> (r: Option<[u8; KEY_BYTES]>)
        ensures
            k < self.clients_spec().len() && self.clients_spec()[k as int] is Some ==> r == Some(
                self.clients_spec()[k as int]->0.channel.recv_key_spec(),
            ),
            !(k < self.clients_spec().len() && self.clients_spec()[k as int] is Some) ==> r is None,
    {
        if k >= self.clients.len() {
            return None;
        }
        match &self.clients[k] {
            Some(c) => Some(c.channel.recv_key()),
            None => None,
        }
    }

    /// The address the server is bound to.
    pub fn get_local_addr(&self) -> (r: Address)
        ensures
            r == self.listen_addr_spec(),
    {
        self.listen_addr
    }

    pub fn protocol_id(&self) -> (r: u64)
        ensures
            r == self.protocol_id_spec(),
    {
        self.protocol_id
    }

    /// The key connect tokens are opened with.
    pub fn connect_key(&self) -> (r: [u8; KEY_BYTES])
        ensures
            r == self.connect_key_spec(),
    {
        self.connect_key
    }

    /// The key challenge tokens are sealed and opened with.
    pub fn challenge_key(&self) -> (r: [u8; KEY_BYTES])
        ensures
            r == self.challenge_key_spec(),
    {
        self.challenge_key
    }

    /// Number of slots.
    pub fn capacity(&self) -> (r: usize)
        ensures
            r == self.clients_spec().len(),
    {
        self.clients.len()
    }

    /// The slot holding `id`, the lowest one if several do.
    pub fn find_client_by_id(&self, id: ClientId) -> (r: Option<usize>)
        ensures
            r is None <==> !has_id(self.clients_spec(), id),
            r is Some ==> id_at(self.clients_spec(), id, r->0 as int)
                && forall|j: int| 0 <= j < r->0 ==> !id_at(self.clients_spec(), id, j),
    {
        let mut i: usize = 0;
        while i < self.clients.len()
            invariant
                i <= self.clients@.len(),
                forall|j: int| 0 <= j < i ==> !id_at(self.clients@, id, j),
            decreases self.clients@.len() - i,
        {
            match &self.clients[i] {
                Some(c) => {
                    if c.client_id == id {
                        assert(id_at(self.clients@, id, i as int));
                        return Some(i);
                    }
                },
                None => {},
            }
            i = i + 1;
        }
        None
    }

    /// The slot connected to `addr`, the lowest one if several are.
    pub fn find_client_by_addr(&self, addr: &Address) -> (r: Option<usize>)
        ensures
            r is None <==> !has_addr(self.clients_spec(), *addr),
            r is Some ==> addr_at(self.clients_spec(), *addr, r->0 as int)
                && forall|j: int| 0 <= j < r->0 ==> !addr_at(self.clients_spec(), *addr, j),
    {
        let mut i: usize = 0;
        while i < self.clients.len()
            invariant
                i <= self.clients@.len(),
                forall|j: int| 0 <= j < i ==> !addr_at(self.clients@, *addr, j),
            decreases self.clients@.len() - i,
        {
            match &self.clients[i] {
                Some(c) => {
                    if c.channel.peer() == *addr {
                        assert(addr_at(self.clients@, *addr, i as int));
                        return Some(i);
                    }
                },
                None => {},
            }
            i = i + 1;
        }
        None
    }

    /// The lowest free slot.
    fn find_free_slot(&self) -> (r: Option<usize>)
        ensures
            r is None <==> !has_free(self.clients_spec()),
            r is Some ==> first_free(self.clients_spec(), r->0 as int),
    {
        let mut i: usize = 0;
        while i < self.clients.len()
            invariant
                i <= self.clients@.len(),
                forall|j: int| 0 <= j < i ==> !free_at(self.clients@, j),
            decreases self.clients@.len() - i,
        {
            if self.clients[i].is_none() {
                assert(free_at(self.clients@, i as int));
                return Some(i);
            }
            i = i + 1;
        }
        None
    }

    /// Checks a connection request against the version tag, its expiry at
    /// `now_secs` (wall-clock seconds), the opening of its private part and
    /// the token's host list; hands back the private part when all pass.
    pub fn validate_client_token(host: &Address, now_secs: u64, req: ConnectionRequest) -> (r:
        Option<TokenData>)
        ensures
            r is Some <==> token_accepted(req, *host, now_secs),
            r is Some ==> r == req.private_data,
    {
        if !version_matches(&req.version) {
            return None;
        }
        if now_secs > req.token_expire {
            return None;
        }
        match req.private_data {
            Some(v) => {
                if token_lists_host(&v.hosts, host) {
                    Some(v)
                } else {
                    None
                }
            },
            None => None,
        }
    }
}

/// At all times the occupied slots hold pairwise distinct client ids and
/// pairwise distinct peer addresses.
pub proof fn lemma_slot_exclusivity(s: Server)
    requires
        s.wf(),
    ensures
        forall|i: int, j: int|
            0 <= i < s.clients_spec().len() && 0 <= j < s.clients_spec().len() && i != j
                && s.clients_spec()[i] is Some && s.clients_spec()[j] is Some
                ==> #[trigger] s.clients_spec()[i]->0.client_id != #[trigger] s.clients_spec()[j]->0.client_id
                && s.clients_spec()[i]->0.channel.peer_spec() != s.clients_spec()[j]->0.channel.peer_spec(),
{
}

/// A connection request whose token lists no host admitting the bound
/// address is rejected, leaving the server and the outbox as they were; a
/// bound port of 0 lets a listed host with the same IP, on any port, admit it.
pub proof fn lemma_token_host_binding(
    old: Server,
    addr: Address,
    req: ConnectionRequest,
    now_secs: u64,
    ob: Seq<Datagram>,
    new: Server,
    nb: Seq<Datagram>,
    r: Result<Option<ServerEvent>, UpdateError>,
    listed: Address,
)
    requires
        Server::connect_outcome(old, addr, req, now_secs, ob, new, nb, r),
    ensures
        req.private_data is Some && !hosts_admit(req.private_data->0.hosts@, old.listen_addr_spec())
            ==> r == Ok::<Option<ServerEvent>, UpdateError>(Some(ServerEvent::RejectedClient))
            && new == old && nb == ob,
        old.listen_addr_spec().port == 0 && listed.ip == old.listen_addr_spec().ip
            ==> crate::address::host_matches(listed, old.listen_addr_spec()),
{
}

/// Sending the same valid connection request twice for a client whose slot
/// is pending its response challenges that slot both times: no slot is
/// allocated or changed but that one, it stays pending under the same
/// client, and each call that succeeds appends one challenge.
pub proof fn lemma_rerequest_idempotent(
    s0: Server,
    s1: Server,
    s2: Server,
    addr: Address,
    req: ConnectionRequest,
    now_secs: u64,
    b0: Seq<Datagram>,
    b1: Seq<Datagram>,
    b2: Seq<Datagram>,
    r1: Result<Option<ServerEvent>, UpdateError>,
    r2: Result<Option<ServerEvent>, UpdateError>,
    k: int,
)
    requires
        s0.wf(),
        s1.wf(),
        token_accepted(req, s0.listen_addr_spec(), now_secs),
        id_at(s0.clients_spec(), req.private_data->0.client_id, k),
        s0.clients_spec()[k]->0.state == ConnectionState::PendingResponse,
        Server::connect_outcome(s0, addr, req, now_secs, b0, s1, b1, r1),
        Server::connect_outcome(s1, addr, req, now_secs, b1, s2, b2, r2),
    ensures
        s2.clients_spec().len() == s0.clients_spec().len(),
        forall|j: int| 0 <= j < s0.clients_spec().len() && j != k ==> s2.clients_spec()[j] == s0.clients_spec()[j],
        s2.clients_spec()[k] is Some,
        s2.clients_spec()[k]->0.client_id == s0.clients_spec()[k]->0.client_id,
        s2.clients_spec()[k]->0.state == ConnectionState::PendingResponse,
        r1 is Ok ==> r1 == Ok::<Option<ServerEvent>, UpdateError>(None) && b1.len() == b0.len() + 1
            && b1.last() is Challenge,
        r2 is Ok ==> r2 == Ok::<Option<ServerEvent>, UpdateError>(None) && b2.len() == b1.len() + 1
            && b2.last() is Challenge,
        s0.challenge_sequence_spec() < u64::MAX - 1 && s0.clients_spec()[k]->0.channel.next_send_sequence()
            < u64::MAX - 1 ==> r1 == Ok::<Option<ServerEvent>, UpdateError>(None) && r2 == Ok::<
            Option<ServerEvent>,
            UpdateError,
        >(None) && s2.challenge_sequence_spec() == s0.challenge_sequence_spec() + 2,
{
    let id = req.private_data->0.client_id;
    let cs0 = s0.clients_spec();
    assert(has_id(cs0, id));
    let k1 = choose|k1: int| id_at(cs0, id, k1) && #[trigger] Server::challenged(
        s0,
        cs0,
        k1,
        id,
        req.private_data->0.user_data@,
        s1,
        b0,
        b1,
        r1,
    );
    if k1 != k {
        assert(cs0[k1]->0.client_id != cs0[k]->0.client_id);
    }
    let cs1 = s1.clients_spec();
    assert(id_at(cs1, id, k));
    assert(has_id(cs1, id));
    let k2 = choose|k2: int| id_at(cs1, id, k2) && #[trigger] Server::challenged(
        s1,
        cs1,
        k2,
        id,
        req.private_data->0.user_data@,
        s2,
        b1,
        b2,
        r2,
    );
    if k2 != k {
        assert(cs1[k2]->0.client_id != cs1[k]->0.client_id);
    }
}

/// A connection request for the slot's own client that arrives on a slot
/// pending its response, fresh and with a valid token, challenges that slot
/// again: it stays pending under the same client, no other slot changes,
/// and one challenge is appended.
pub proof fn lemma_rerequest_through_slot(
    old: Server,
    k: int,
    data: Seq<u8>,
    req: ConnectionRequest,
    now_secs: u64,
    ob: Seq<Datagram>,
    oo: Seq<u8>,
    new: Server,
    nb: Seq<Datagram>,
    no: Seq<u8>,
    r: Result<Option<ServerEvent>, UpdateError>,
)
    requires
        old.wf(),
        0 <= k < old.clients_spec().len(),
        old.clients_spec()[k] is Some,
        old.clients_spec()[k]->0.state == ConnectionState::PendingResponse,
        header_ok(data),
        old.clients_spec()[k]->0.channel.replay_spec().verdict(header_of(data).sequence)
            == ReplayVerdict::Fresh,
        token_accepted(req, old.listen_addr_spec(), now_secs),
        req.private_data->0.client_id == old.clients_spec()[k]->0.client_id,
        old.challenge_sequence_spec() < u64::MAX,
        old.clients_spec()[k]->0.channel.next_send_sequence() < u64::MAX,
        Server::packet_outcome(
            old,
            k,
            data,
            Some(Packet::ConnectionRequest(req)),
            now_secs,
            ob,
            oo,
            new,
            nb,
            no,
            r,
        ),
    ensures
        r == Ok::<Option<ServerEvent>, UpdateError>(None),
        new.clients_spec().len() == old.clients_spec().len(),
        forall|j: int| 0 <= j < old.clients_spec().len() && j != k ==> new.clients_spec()[j] == old.clients_spec()[j],
        new.clients_spec()[k] is Some,
        new.clients_spec()[k]->0.client_id == old.clients_spec()[k]->0.client_id,
        new.clients_spec()[k]->0.state == ConnectionState::PendingResponse,
        new.challenge_sequence_spec() == old.challenge_sequence_spec() + 1,
        nb.len() == ob.len() + 1,
        nb.last() is Challenge,
{
    let id = req.private_data->0.client_id;
    let seq = header_of(data).sequence;
    let p = Packet::ConnectionRequest(req);
    assert(opened_ok(Some(p)));
    let mid = choose|mid: Server|
        #[trigger] Server::received_at(old, mid, k, seq) && Server::dispatch_outcome(
            mid,
            k,
            p,
            now_secs,
            ob,
            oo,
            new,
            nb,
            no,
            r,
        );
    let c = mid.clients_spec()[k]->0;
    let r2 = choose|r2: Result<Option<ServerEvent>, UpdateError>|
        #[trigger] Server::connect_outcome(mid, c.channel.peer_spec(), req, now_secs, ob, new, nb, r2)
            && r == match r2 {
            Err(e) => Err::<Option<ServerEvent>, UpdateError>(e),
            Ok(_) => Ok::<Option<ServerEvent>, UpdateError>(None),
        };
    let cs = mid.clients_spec();
    assert(id_at(cs, id, k));
    let k1 = choose|k1: int| id_at(cs, id, k1) && #[trigger] Server::challenged(
        mid,
        cs,
        k1,
        id,
        req.private_data->0.user_data@,
        new,
        ob,
        nb,
        r2,
    );
    if k1 != k {
        assert(cs[k1]->0.client_id != cs[k]->0.client_id);
    }
}

} // verus!
