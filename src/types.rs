use vstd::prelude::*;

verus! {

/// The two modes the program runs in: receiving offers or sending a file.
#[derive(Debug, Clone, Copy, PartialEq, Eq, Structural)]
pub enum ShModes {
    REC,
    SND,
}

/// How file bytes travel once a transfer has been accepted.
#[derive(Debug, Clone, Copy, PartialEq, Eq, Structural)]
pub enum TransferMode {
    /// Raw chunks, no header, no acknowledgement.
    Legacy,
    /// Sequence-numbered chunks, each acknowledged before the next is sent.
    SemiReliable,
}

/// The kind of system the program runs on, as far as interface naming
/// goes.
#[derive(Debug, Clone, Copy, PartialEq, Eq, Structural)]
pub enum Platform {
    Unix,
    Windows,
    Other,
}

/// An IP address as plain numbers: IPv4 as a `u32`, IPv6 as a `u128`, both in
/// network (big-endian) order.
#[derive(Debug, Clone, Copy, PartialEq, Eq, Structural)]
pub enum IpAddress {
    V4(u32),
    V6(u128),
}

/// The local settings that shape an outgoing transfer.
#[derive(Debug, Clone, Copy, PartialEq, Eq, Structural)]
pub struct Config {
    pub send_method: TransferMode,
    pub follow_symlinks: bool,
}

/// A discovered peer: its name and the address its announce came from.
#[derive(Debug, Clone)]
pub struct HostInfo {
    pub name: String,
    pub ip: IpAddress,
}

/// An inbound transfer offer, as received from a sender.
#[derive(Debug, Clone)]
pub struct DM {
    pub host_info: HostInfo,
    pub send_method: TransferMode,
    pub file_path: String,
    pub file_type: String,
    pub file_size: u64,
}

impl ShModes {
    /// The mode's name as the prompt shows it.
    pub fn name(&self) -> (r: &'static str)
        ensures
            r@ == (match *self {
                ShModes::REC => "REC"@,
                ShModes::SND => "SND"@,
            }),
    {
        match self {
            ShModes::REC => "REC",
            ShModes::SND => "SND",
        }
    }
}

impl Config {
    /// The settings in force when nothing has been stored.
    pub fn default_config() -> (r: Config)
        ensures
            r.send_method == TransferMode::SemiReliable,
            !r.follow_symlinks,
    {
        Config { send_method: TransferMode::SemiReliable, follow_symlinks: false }
    }
}

} // verus!
