//! Server-side state machine of a connectionless secure datagram transport:
//! slot table, token admission, handshake, per-client replay protection and
//! liveness, and the event drain. Sealing, opening and socket I/O are done by
//! the embedder, which hands their outcomes to the functions here.

pub mod address;
pub mod channel;
pub mod packet;
pub mod replay;
pub mod server;
pub mod wire;

pub use address::{Address, IpAddress};
pub use channel::{KEY_BYTES, KEEP_ALIVE_INTERVAL_MS, RECV_TIMEOUT_MS};
pub use replay::{ReplayVerdict, ReplayWindow, REPLAY_WINDOW};
pub use packet::{
    ChallengeToken, ClientId, ConnectionRequest, Datagram, Packet, TokenData, MAX_PAYLOAD_BYTES,
    USER_DATA_BYTES,
};
pub use server::{
    Connection, ConnectionState, CreateError, RecvError, SendError, Server, ServerEvent, UpdateError,
};
pub use wire::{read_header, Header};
