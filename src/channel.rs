use vstd::prelude::*;
use crate::address::Address;
use crate::replay::{ReplayVerdict, ReplayWindow};

verus! {

/// Size of a symmetric key in bytes.
pub const KEY_BYTES: usize = 32;

/// Silence after which a peer is considered gone, in milliseconds.
pub const RECV_TIMEOUT_MS: u64 = 5000;

/// Quiet time after which an idle channel sends a keep-alive, in milliseconds.
pub const KEEP_ALIVE_INTERVAL_MS: u64 = 100;

/// Outcome of one liveness tick of a channel.
#[derive(Debug, Clone, Copy, PartialEq, Eq, Structural)]
pub enum ChannelTick {
    Noop,
    /// A keep-alive is due; it goes out under this sequence number.
    SentKeepAlive(u64),
    Expired,
}

/// The per-peer secure channel: peer address, both keys, the outbound
/// sequence counter, the inbound replay window and activity timestamps.
pub struct Channel {
    peer: Address,
    send_key: [u8; KEY_BYTES],
    recv_key: [u8; KEY_BYTES],
    next_sequence: u64,
    last_send: u64,
    last_recv: u64,
    replay: ReplayWindow,
    slot: usize,
    capacity: usize,
}

/// Time since `since`, as seen at `now`.
pub open spec fn since(now: u64, since: u64) -> int {
    now as int - since as int
}

impl Channel {
    pub closed spec fn peer_spec(&self) -> Address {
        self.peer
    }

    pub closed spec fn send_key_spec(&self) -> [u8; KEY_BYTES] {
        self.send_key
    }

    pub closed spec fn recv_key_spec(&self) -> [u8; KEY_BYTES] {
        self.recv_key
    }

    /// The sequence number the next outbound packet will carry.
    pub closed spec fn next_send_sequence(&self) -> u64 {
        self.next_sequence
    }

    pub closed spec fn last_send_time(&self) -> u64 {
        self.last_send
    }

    pub closed spec fn last_recv_time(&self) -> u64 {
        self.last_recv
    }

    pub closed spec fn replay_spec(&self) -> ReplayWindow {
        self.replay
    }

    pub closed spec fn slot_spec(&self) -> usize {
        self.slot
    }

    pub closed spec fn capacity_spec(&self) -> usize {
        self.capacity
    }

    pub closed spec fn wf(&self) -> bool {
        self.replay.wf() && self.next_sequence >= 1
    }

    /// What a tick at `now` does: expire after `RECV_TIMEOUT_MS` of silence,
    /// else (when keep-alives are enabled) ask for one after
    /// `KEEP_ALIVE_INTERVAL_MS` without sending, while sequence numbers last.
    pub open spec fn tick_spec(&self, now: u64, keep_alive: bool) -> ChannelTick {
        if since(now, self.last_recv_time()) > RECV_TIMEOUT_MS {
            ChannelTick::Expired
        } else if keep_alive && since(now, self.last_send_time()) > KEEP_ALIVE_INTERVAL_MS
            && self.next_send_sequence() < u64::MAX {
            ChannelTick::SentKeepAlive(self.next_send_sequence())
        } else {
            ChannelTick::Noop
        }
    }

    /// `after` is `before` once `s` was handed out for an outbound packet.
    pub open spec fn hands_out(before: Channel, after: Channel, s: u64) -> bool {
        &&& s == before.next_send_sequence()
        &&& after.next_send_sequence() == s + 1
    }

    /// `after` differs from `before` only in its outbound counter and the
    /// time of the last send.
    pub open spec fn same_but_send(before: Channel, after: Channel) -> bool {
        &&& after.wf()
        &&& after.peer_spec() == before.peer_spec()
        &&& after.send_key_spec() == before.send_key_spec()
        &&& after.recv_key_spec() == before.recv_key_spec()
        &&& after.last_recv_time() == before.last_recv_time()
        &&& after.replay_spec() == before.replay_spec()
        &&& after.slot_spec() == before.slot_spec()
        &&& after.capacity_spec() == before.capacity_spec()
        &&& after.next_send_sequence() >= before.next_send_sequence()
    }

    /// `after` comes from `before` by one operation that changes a channel:
    /// a send, a tick, or an inbound packet taken in.
    pub open spec fn step(before: Channel, after: Channel) -> bool {
        Channel::same_but_send(before, after) || exists|s: u64, now: u64|
            #[trigger] Channel::received(before, after, s, now)
    }

    /// `after` is `before` once an authenticated packet numbered `s` came in
    /// at `now`.
    pub open spec fn received(before: Channel, after: Channel, s: u64, now: u64) -> bool {
        &&& after.wf()
        &&& after.replay_spec().accepted() == before.replay_spec().accepted().insert(s)
        &&& after.last_recv_time() == now
        &&& after.last_send_time() == before.last_send_time()
        &&& after.next_send_sequence() == before.next_send_sequence()
        &&& after.peer_spec() == before.peer_spec()
        &&& after.send_key_spec() == before.send_key_spec()
        &&& after.recv_key_spec() == before.recv_key_spec()
        &&& after.slot_spec() == before.slot_spec()
        &&& after.capacity_spec() == before.capacity_spec()
    }

    /// A channel to `peer` that will number its first packet 1.
    pub fn new(
        send_key: [u8; KEY_BYTES],
        recv_key: [u8; KEY_BYTES],
        peer: Address,
        slot: usize,
        capacity: usize,
        now: u64,
    ) -> (r: Channel)
        ensures
            r.wf(),
            r.peer_spec() == peer,
            r.send_key_spec() == send_key,
            r.recv_key_spec() == recv_key,
            r.next_send_sequence() == 1,
            r.last_send_time() == now,
            r.last_recv_time() == now,
            r.replay_spec().accepted() == Set::<u64>::empty(),
            r.replay_spec().highest() == 0,
            r.slot_spec() == slot,
            r.capacity_spec() == capacity,
    {
        Channel {
            peer,
            send_key,
            recv_key,
            next_sequence: 1,
            last_send: now,
            last_recv: now,
            replay: ReplayWindow::new(),
            slot,
            capacity,
        }
    }

    pub fn peer(&self) -> (r: Address)
        ensures
            r == self.peer_spec(),
    {
        self.peer
    }

    pub fn send_key(&self) -> (r: [u8; KEY_BYTES])
        ensures
            r == self.send_key_spec(),
    {
        self.send_key
    }

    pub fn recv_key(&self) -> (r: [u8; KEY_BYTES])
        ensures
            r == self.recv_key_spec(),
    {
        self.recv_key
    }

    pub fn slot(&self) -> (r: usize)
        ensures
            r == self.slot_spec(),
    {
        self.slot
    }

    pub fn capacity(&self) -> (r: usize)
        ensures
            r == self.capacity_spec(),
    {
        self.capacity
    }

    /// Hands out the next outbound sequence number and records the send
    /// time; `None` once the counter is spent.
    pub fn take_send_sequence(&mut self, now: u64) -> (r: Option<u64>)
        requires
            old(self).wf(),
        ensures
            Channel::same_but_send(*old(self), *final(self)),
            Channel::step(*old(self), *final(self)),
            old(self).next_send_sequence() < u64::MAX ==> {
                &&& r == Some(old(self).next_send_sequence())
                &&& Channel::hands_out(*old(self), *final(self), r->0)
                &&& final(self).last_send_time() == now
            },
            old(self).next_send_sequence() == u64::MAX ==> r is None && *final(self) == *old(self),
    {
        if self.next_sequence == u64::MAX {
            return None;
        }
        let s = self.next_sequence;
        self.next_sequence = s + 1;
        self.last_send = now;
        Some(s)
    }

    /// One liveness tick at `now`; on a due keep-alive the sequence number
    /// for it is taken.
    pub fn tick(&mut self, now: u64, keep_alive: bool) -> (r: ChannelTick)
        requires
            old(self).wf(),
        ensures
            r == old(self).tick_spec(now, keep_alive),
            Channel::same_but_send(*old(self), *final(self)),
            Channel::step(*old(self), *final(self)),
            r is SentKeepAlive ==> Channel::hands_out(*old(self), *final(self), r->0)
                && final(self).last_send_time() == now,
            !(r is SentKeepAlive) ==> *final(self) == *old(self),
    {
        if now > self.last_recv && now - self.last_recv > RECV_TIMEOUT_MS {
            return ChannelTick::Expired;
        }
        if keep_alive && now > self.last_send && now - self.last_send > KEEP_ALIVE_INTERVAL_MS {
            match self.take_send_sequence(now) {
                Some(s) => ChannelTick::SentKeepAlive(s),
                None => ChannelTick::Noop,
            }
        } else {
            ChannelTick::Noop
        }
    }

    /// The replay window's verdict on an inbound sequence number.
    pub fn check_inbound(&self, s: u64) -> (r: ReplayVerdict)
        requires
            self.wf(),
        ensures
            r == self.replay_spec().verdict(s),
    {
        self.replay.check(s)
    }

    /// Records an authenticated inbound packet numbered `s`, received at `now`.
    pub fn accept_inbound(&mut self, s: u64, now: u64)
        requires
            old(self).wf(),
            old(self).replay_spec().verdict(s) == ReplayVerdict::Fresh,
        ensures
            Channel::received(*old(self), *final(self), s, now),
            Channel::step(*old(self), *final(self)),
    {
        self.replay.mark(s);
        self.last_recv = now;
    }
}

/// No operation on a channel moves its outbound counter back.
pub proof fn lemma_step_keeps_counter(before: Channel, after: Channel)
    requires
        Channel::step(before, after),
    ensures
        after.next_send_sequence() >= before.next_send_sequence(),
{
    if !Channel::same_but_send(before, after) {
        let (s, now) = choose|s: u64, now: u64| #[trigger] Channel::received(before, after, s, now);
    }
}

proof fn lemma_history_keeps_counter(h: Seq<Channel>, i: int, j: int)
    requires
        0 <= i <= j < h.len(),
        forall|k: int| 0 <= k < h.len() - 1 ==> #[trigger] Channel::step(h[k], h[k + 1]),
    ensures
        h[j].next_send_sequence() >= h[i].next_send_sequence(),
    decreases j - i,
{
    if i < j {
        lemma_history_keeps_counter(h, i, j - 1);
        assert(Channel::step(h[j - 1], h[(j - 1) + 1]));
        lemma_step_keeps_counter(h[j - 1], h[j]);
    }
}

/// Outbound sequence numbers of a channel strictly increase: along any
/// history of operations on it, a number handed out later is greater than
/// one handed out earlier.
pub proof fn lemma_send_sequence_increases(h: Seq<Channel>, i: int, j: int, first: u64, second: u64)
    requires
        0 <= i < j,
        j + 1 < h.len(),
        forall|k: int| 0 <= k < h.len() - 1 ==> #[trigger] Channel::step(h[k], h[k + 1]),
        Channel::hands_out(h[i], h[i + 1], first),
        Channel::hands_out(h[j], h[j + 1], second),
    ensures
        first < second,
{
    lemma_history_keeps_counter(h, i + 1, j);
}

} // verus!
