use vstd::prelude::*;
use crate::address::Address;
use crate::channel::KEY_BYTES;

verus! {

/// Largest application payload, in bytes.
pub const MAX_PAYLOAD_BYTES: usize = 1200;

/// Size of the user data a connect token carries, in bytes.
pub const USER_DATA_BYTES: usize = 256;

/// Length of the protocol version tag, in bytes.
pub const VERSION_BYTES: usize = 13;

pub type ClientId = u64;

/// The protocol version tag: `NETCODE 1.01` followed by a zero byte.
pub open spec fn version_tag() -> Seq<u8> {
    seq![78u8, 69, 84, 67, 79, 68, 69, 32, 49, 46, 48, 49, 0]
}

/// The private part of a connect token, once opened under the server's key.
#[derive(Debug, Clone)]
pub struct TokenData {
    pub client_id: ClientId,
    pub server_to_client_key: [u8; KEY_BYTES],
    pub client_to_server_key: [u8; KEY_BYTES],
    pub user_data: Vec<u8>,
    pub hosts: Vec<Address>,
}

/// A connection request. `private_data` is what opening its sealed blob
/// under the server's private key gave: `None` when that failed.
#[derive(Debug, Clone)]
pub struct ConnectionRequest {
    pub version: Vec<u8>,
    pub protocol_id: u64,
    pub token_expire: u64,
    pub sequence: u64,
    pub private_data: Option<TokenData>,
}

/// A challenge token once opened under the challenge key.
#[derive(Debug, Clone)]
pub struct ChallengeToken {
    pub client_id: ClientId,
    pub user_data: Vec<u8>,
}

/// An inbound packet after opening. `Response` holds `None` when its
/// challenge token did not open under the challenge key.
#[derive(Debug, Clone)]
pub enum Packet {
    ConnectionRequest(ConnectionRequest),
    ConnectionDenied,
    Challenge,
    Response(Option<ChallengeToken>),
    KeepAlive,
    Payload(Vec<u8>),
    Disconnect,
}

/// A datagram the embedder is to seal under `key` and send to `to`.
#[derive(Debug, Clone)]
pub enum Datagram {
    /// Connection denied, under sequence 0.
    Denied { to: Address, key: [u8; KEY_BYTES] },
    /// A challenge carrying a token for `client_id` and `user_data`, to be
    /// sealed under the challenge key with `token_sequence` as nonce.
    Challenge {
        to: Address,
        key: [u8; KEY_BYTES],
        sequence: u64,
        token_sequence: u64,
        client_id: ClientId,
        user_data: Vec<u8>,
    },
    /// A keep-alive telling the client its slot and the server's capacity.
    KeepAlive { to: Address, key: [u8; KEY_BYTES], sequence: u64, slot: usize, capacity: usize },
    /// An application payload.
    Payload { to: Address, key: [u8; KEY_BYTES], sequence: u64, data: Vec<u8> },
}

/// `after` is `before` with its first `src.len()` bytes replaced by `src`.
pub open spec fn written(before: Seq<u8>, after: Seq<u8>, src: Seq<u8>) -> bool {
    &&& after.len() == before.len()
    &&& after.subrange(0, src.len() as int) == src
    &&& after.subrange(src.len() as int, before.len() as int) == before.subrange(
        src.len() as int,
        before.len() as int,
    )
}

/// Copies `src` to the front of `out`.
pub fn write_front(out: &mut Vec<u8>, src: &Vec<u8>)
    requires
        src@.len() <= old(out)@.len(),
    ensures
        written(old(out)@, final(out)@, src@),
{
    let mut i: usize = 0;
    while i < src.len()
        invariant
            src@.len() <= out@.len(),
            out@.len() == old(out)@.len(),
            i <= src@.len(),
            forall|j: int| 0 <= j < i ==> out@[j] == src@[j],
            forall|j: int| i <= j < out@.len() ==> out@[j] == old(out)@[j],
        decreases src@.len() - i,
    {
        out.set(i, src[i]);
        i = i + 1;
    }
    assert(out@.subrange(0, src@.len() as int) =~= src@);
    assert(out@.subrange(src@.len() as int, out@.len() as int) =~= old(out)@.subrange(
        src@.len() as int,
        old(out)@.len() as int,
    ));
}

/// Tells whether `v` is the protocol version tag.
pub fn version_matches(v: &Vec<u8>) -> (r: bool)
    ensures
        r == (v@ == version_tag()),
{
    let tag: [u8; VERSION_BYTES] = [78u8, 69, 84, 67, 79, 68, 69, 32, 49, 46, 48, 49, 0];
    assert(tag@ =~= version_tag());
    if v.len() != VERSION_BYTES {
        return false;
    }
    let mut i: usize = 0;
    while i < VERSION_BYTES
        invariant
            v@.len() == VERSION_BYTES,
            tag@ == version_tag(),
            i <= VERSION_BYTES,
            forall|j: int| 0 <= j < i ==> v@[j] == version_tag()[j],
        decreases VERSION_BYTES - i,
    {
        if v[i] != tag[i] {
            return false;
        }
        i = i + 1;
    }
    assert(v@ =~= version_tag());
    true
}

} // verus!
