//! Peer-to-peer LAN file transfer: discovery by broadcast announce, an
//! offer / accept / ready handshake, and two datagram transports (an
//! unacknowledged stream and a stop-and-wait ARQ), all as verified logic that
//! a thin I/O layer drives.

pub mod types;
pub mod cli;
pub mod discovery;
pub mod files;
pub mod offer;
pub mod session;
pub mod size;
pub mod text;
pub mod transfer;
