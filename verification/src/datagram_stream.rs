//! One end of a session: the peer it was opened for, and the rule by which
//! it takes or drops what arrives on its socket.

use vstd::prelude::*;

verus! {

/// The shortest datagram that a session reads: an opcode and a block number.
pub const REPLY_MINIMUM: usize = 4;

/// The address and port that a datagram came from or goes to.
#[allow(inconsistent_fields)]
#[derive(Clone, Copy, Debug, PartialEq, Eq, Structural)]
pub enum Endpoint {
    V4 { address: u32, port: u16 },
    V6 { address: u128, port: u16, flow: u32, scope: u32 },
}

impl Endpoint {
    pub open spec fn spec_port(self) -> u16 {
        match self {
            Endpoint::V4 { port, .. } => port,
            Endpoint::V6 { port, .. } => port,
        }
    }

    #[verifier::when_used_as_spec(spec_port)]
    pub fn port(self) -> (port: u16)
        ensures
            port == self.spec_port(),
    {
        match self {
            Endpoint::V4 { port, .. } => port,
            Endpoint::V6 { port, .. } => port,
        }
    }
}

/// What becomes of a datagram that arrived on a session's socket.
#[derive(Clone, Copy, Debug, PartialEq, Eq, Structural)]
pub enum Verdict {
    /// It is from the peer and long enough: the session reads it.
    Accept,
    /// It is from somebody else: dropped.
    Alien,
    /// It is from the peer and too short: dropped.
    Runt,
}

/// The verdict on a datagram of `size` bytes from `source`, for a session
/// with `peer` that reads nothing shorter than `min_size`.
pub open spec fn verdict(peer: Endpoint, source: Endpoint, size: nat, min_size: nat) -> Verdict {
    if source != peer {
        Verdict::Alien
    } else if size < min_size {
        Verdict::Runt
    } else {
        Verdict::Accept
    }
}

/// The peer of one session.
#[derive(Clone, Copy, Debug)]
pub struct DatagramStream {
    pub peer_address: Endpoint,
}

impl DatagramStream {
    pub fn new(peer_address: Endpoint) -> (stream: Self)
        ensures
            stream.peer_address == peer_address,
    {
        Self { peer_address }
    }

    pub fn remote_port(&self) -> (port: u16)
        ensures
            port == self.peer_address.port(),
    {
        self.peer_address.port()
    }

    /// Whether a datagram went out: it did when all its bytes were sent.
    pub fn sent_whole(&self, sent: usize, length: usize) -> (whole: bool)
        ensures
            whole == (sent == length),
    {
        sent == length
    }

    /// Judges a datagram that arrived: only one from the peer, and of at
    /// least `min_size` bytes, is read.
    pub fn judge(&self, source: Endpoint, size: usize, min_size: usize) -> (outcome: Verdict)
        ensures
            outcome == verdict(self.peer_address, source, size as nat, min_size as nat),
    {
        if source != self.peer_address {
            Verdict::Alien
        } else if size < min_size {
            Verdict::Runt
        } else {
            Verdict::Accept
        }
    }
}

} // verus!
