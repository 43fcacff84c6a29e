//! The core of a read-only TFTP server: the wire codec, the option
//! negotiation, the windowed reliable sender, the resolution of backends and
//! the dispatcher of each client address, as logic over plain values whose
//! contracts are proved. Sockets, files, threads and timers live outside.

pub mod async_channel;
pub mod cursor;
pub mod datagram_stream;
pub mod fs;
pub mod fs_watch;
pub mod local_fs;
pub mod messages;
pub mod options;
pub mod peer_handler;
pub mod remote_fs;
pub mod server;
pub mod session;
pub mod text;
pub mod transfer;
pub mod window;
