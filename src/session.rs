use vstd::prelude::*;

use crate::offer::{accept_fields, accepted_by, confirms_send, eq_ignore_ascii_case, is_ready, ready_text};
use crate::text::trim;
use crate::transfer::{be_value, decode_be_u64, ReceiveStep, Receiver};
use crate::types::TransferMode;

verus! {

/// The host an accept message names (meaningful when it is one).
pub open spec fn accepting_host(m: Seq<char>) -> Seq<char> {
    match accept_fields(m) {
        Some(f) => f.1,
        None => Seq::empty(),
    }
}

/// Whether `m` is an accept message for `path`.
pub open spec fn accepts_path(m: Seq<char>, path: Seq<char>) -> bool {
    match accept_fields(m) {
        Some(f) => f.0 == path,
        None => false,
    }
}

/// Where the sending side of a handshake stands.
#[derive(Debug, Clone, Copy, PartialEq, Eq, Structural)]
pub enum SendPhase {
    /// The offer is out; waiting for a matching accept.
    AwaitingAccept,
    /// Accepted; waiting for the sending user's yes or no.
    AwaitingConfirmation,
    /// Ready sent; the file goes out now.
    Transferring,
    /// The sending user said no.
    Cancelled,
    /// No matching accept came in time.
    TimedOut,
}

/// What the sending side does next.
#[derive(Debug, Clone, PartialEq, Eq)]
pub enum SendAction {
    /// Keep waiting for a datagram.
    Wait,
    /// Ask the sending user to confirm; the accept came from this host.
    Confirm(String),
    /// Send the ready message to the accepting peer, then the file.
    SendReady,
    /// Give up on this transfer.
    Abort,
}

/// The sending side of the offer / accept / ready handshake for one file.
pub struct SendHandshake {
    path: String,
    phase: SendPhase,
}

impl SendHandshake {
    /// The offered path.
    pub closed spec fn path_view(&self) -> Seq<char> {
        self.path@
    }

    /// The current phase.
    pub closed spec fn phase_view(&self) -> SendPhase {
        self.phase
    }

    /// A handshake whose offer of `path` has just been sent.
    pub fn new(path: String) -> (r: SendHandshake)
        ensures
            r.path_view() == path@,
            r.phase_view() == SendPhase::AwaitingAccept,
    {
        SendHandshake { path, phase: SendPhase::AwaitingAccept }
    }

    /// The current phase.
    pub fn phase(&self) -> (r: SendPhase)
        ensures
            r == self.phase_view(),
    {
        self.phase
    }

    /// Takes a datagram received while waiting: an accept of the offered path
    /// moves on to confirmation; anything else is ignored.
    pub fn on_datagram(&mut self, message: &str) -> (r: SendAction)
        ensures
            final(self).path_view() == old(self).path_view(),
            ({
                let accepted = old(self).phase_view() == SendPhase::AwaitingAccept && accepts_path(
                    message@,
                    old(self).path_view(),
                );
                if accepted {
                    &&& final(self).phase_view() == SendPhase::AwaitingConfirmation
                    &&& r matches SendAction::Confirm(h) && h@ == accepting_host(message@)
                } else {
                    &&& final(self).phase_view() == old(self).phase_view()
                    &&& r == SendAction::Wait
                }
            }),
    {
        if self.phase != SendPhase::AwaitingAccept {
            return SendAction::Wait;
        }
        match accepted_by(message, self.path.as_str()) {
            Some(host) => {
                self.phase = SendPhase::AwaitingConfirmation;
                SendAction::Confirm(host)
            },
            None => SendAction::Wait,
        }
    }

    /// The wait for an accept ran out: the transfer is given up, with no
    /// retry.
    pub fn on_timeout(&mut self) -> (r: SendAction)
        ensures
            final(self).path_view() == old(self).path_view(),
            old(self).phase_view() == SendPhase::AwaitingAccept ==> final(self).phase_view()
                == SendPhase::TimedOut && r == SendAction::Abort,
            old(self).phase_view() != SendPhase::AwaitingAccept ==> final(self).phase_view()
                == old(self).phase_view() && r == SendAction::Wait,
    {
        if self.phase == SendPhase::AwaitingAccept {
            self.phase = SendPhase::TimedOut;
            SendAction::Abort
        } else {
            SendAction::Wait
        }
    }

    /// Takes the sending user's answer: `y` (any case) sends the ready
    /// message and the file, anything else cancels.
    pub fn on_answer(&mut self, response: &str) -> (r: SendAction)
        ensures
            final(self).path_view() == old(self).path_view(),
            old(self).phase_view() == SendPhase::AwaitingConfirmation ==> if eq_ignore_ascii_case(
                trim(response@),
                "y"@,
            ) {
                final(self).phase_view() == SendPhase::Transferring && r == SendAction::SendReady
            } else {
                final(self).phase_view() == SendPhase::Cancelled && r == SendAction::Abort
            },
            old(self).phase_view() != SendPhase::AwaitingConfirmation ==> final(self).phase_view()
                == old(self).phase_view() && r == SendAction::Wait,
    {
        if self.phase != SendPhase::AwaitingConfirmation {
            return SendAction::Wait;
        }
        if confirms_send(response) {
            self.phase = SendPhase::Transferring;
            SendAction::SendReady
        } else {
            self.phase = SendPhase::Cancelled;
            SendAction::Abort
        }
    }
}

/// Where the receiving side of an accepted offer stands.
#[derive(Debug, Clone, Copy, PartialEq, Eq, Structural)]
pub enum ReceivePhase {
    /// The accept is out; waiting for the ready message.
    AwaitingReady,
    /// Ready came; waiting for the size header.
    AwaitingSize,
    /// Taking chunks.
    Receiving,
    /// Every byte owed has been written.
    Finished,
}

/// The receiving side of one accepted offer: the handshake's last steps,
/// then the transfer in the offer's mode.
#[derive(Debug, Clone, Copy, PartialEq, Eq, Structural)]
pub struct ReceiveSession {
    pub phase: ReceivePhase,
    pub receiver: Receiver,
}

/// The size a size header datagram announces: its first eight bytes, read
/// big-endian, with missing bytes taken as zero.
pub open spec fn header_size(d: Seq<u8>) -> int {
    be_value(Seq::new(8, |i: int| if i < d.len() { d[i] } else { 0u8 }))
}

impl ReceiveSession {
    /// A session for an offer in `mode`, its accept just sent.
    pub fn new(mode: TransferMode) -> (r: ReceiveSession)
        ensures
            r.phase == ReceivePhase::AwaitingReady,
            r.receiver == Receiver::new_spec(mode),
    {
        ReceiveSession { phase: ReceivePhase::AwaitingReady, receiver: Receiver::new(mode, 0) }
    }

    /// Takes a datagram received while waiting for the ready message: the
    /// ready message moves on to the size header; any other datagram is
    /// ignored and the wait goes on.
    pub fn on_reply(&mut self, message: &str)
        requires
            old(self).phase == ReceivePhase::AwaitingReady,
        ensures
            final(self).receiver == old(self).receiver,
            final(self).phase == if trim(message@) == ready_text() {
                ReceivePhase::AwaitingSize
            } else {
                ReceivePhase::AwaitingReady
            },
    {
        if is_ready(message) {
            self.phase = ReceivePhase::AwaitingSize;
        }
    }

    /// Takes the size header: from now on that many bytes are owed.
    pub fn on_size_header(&mut self, header: &[u8])
        requires
            old(self).phase == ReceivePhase::AwaitingSize,
        ensures
            final(self).receiver == (Receiver {
                mode: old(self).receiver.mode,
                remaining: header_size(header@) as u64,
                next_expected: 0,
            }),
            final(self).phase == if header_size(header@) == 0 {
                ReceivePhase::Finished
            } else {
                ReceivePhase::Receiving
            },
    {
        let mut padded: Vec<u8> = Vec::new();
        let mut i: usize = 0;
        while i < 8
            invariant
                i <= 8,
                padded@.len() == i,
                forall|k: int|
                    0 <= k < i ==> padded@[k] == if k < header@.len() {
                        header@[k]
                    } else {
                        0u8
                    },
            decreases 8 - i,
        {
            padded.push(if i < header.len() { header[i] } else { 0 });
            i = i + 1;
        }
        assert(padded@ =~= Seq::new(8, |k: int| if k < header@.len() { header@[k] } else { 0u8 }));
        let size = decode_be_u64(padded.as_slice());
        self.receiver = Receiver::new(self.receiver.mode, size);
        self.phase = if size == 0 {
            ReceivePhase::Finished
        } else {
            ReceivePhase::Receiving
        };
    }

    /// Takes one chunk datagram; the session finishes once nothing more is
    /// owed.
    pub fn on_chunk(&mut self, datagram: &[u8]) -> (step: ReceiveStep)
        requires
            old(self).phase == ReceivePhase::Receiving,
        ensures
            step.write@ == old(self).receiver.written(datagram@),
            step.ack == old(self).receiver.ack(datagram@),
            final(self).receiver == old(self).receiver.next_state(datagram@),
            final(self).phase == if final(self).receiver.remaining == 0 {
                ReceivePhase::Finished
            } else {
                ReceivePhase::Receiving
            },
    {
        let step = self.receiver.on_datagram(datagram);
        if self.receiver.is_complete() {
            self.phase = ReceivePhase::Finished;
        }
        step
    }
}

} // verus!
