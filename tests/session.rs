use snd::offer::encode_accept;
use snd::session::{ReceivePhase, ReceiveSession, SendAction, SendHandshake, SendPhase};
use snd::transfer::encode_be_u64;
use snd::types::TransferMode;

#[test]
fn sender_waits_for_matching_accept() {
    let mut hs = SendHandshake::new("/tmp/notes.txt".to_string());
    assert_eq!(hs.phase(), SendPhase::AwaitingAccept);
    assert_eq!(hs.on_datagram("Hello from x!"), SendAction::Wait);
    assert_eq!(hs.on_datagram(&encode_accept("/tmp/other", "bravo")), SendAction::Wait);
    assert_eq!(hs.phase(), SendPhase::AwaitingAccept);
    assert_eq!(
        hs.on_datagram(&encode_accept("/tmp/notes.txt", "bravo")),
        SendAction::Confirm("bravo".to_string())
    );
    assert_eq!(hs.phase(), SendPhase::AwaitingConfirmation);
    assert_eq!(hs.on_answer("Y\n"), SendAction::SendReady);
    assert_eq!(hs.phase(), SendPhase::Transferring);
}

#[test]
fn sender_cancels_on_no() {
    let mut hs = SendHandshake::new("f".to_string());
    assert_eq!(hs.on_answer("y"), SendAction::Wait);
    hs.on_datagram("ACCEPT: f; FROM: r");
    assert_eq!(hs.on_answer("n"), SendAction::Abort);
    assert_eq!(hs.phase(), SendPhase::Cancelled);
}

#[test]
fn sender_times_out_without_retry() {
    let mut hs = SendHandshake::new("f".to_string());
    assert_eq!(hs.on_timeout(), SendAction::Abort);
    assert_eq!(hs.phase(), SendPhase::TimedOut);
    assert_eq!(hs.on_datagram("ACCEPT: f; FROM: r"), SendAction::Wait);
    assert_eq!(hs.phase(), SendPhase::TimedOut);
}

#[test]
fn receiver_session_runs_to_completion() {
    let mut s = ReceiveSession::new(TransferMode::SemiReliable);
    assert_eq!(s.phase, ReceivePhase::AwaitingReady);
    s.on_reply("FSNT;");
    assert_eq!(s.phase, ReceivePhase::AwaitingSize);
    s.on_size_header(&encode_be_u64(5));
    assert_eq!(s.phase, ReceivePhase::Receiving);
    assert_eq!(s.receiver.remaining, 5);
    let mut p = encode_be_u64(0);
    p.extend_from_slice(&[1, 2, 3]);
    let step = s.on_chunk(&p);
    assert_eq!(step.write, vec![1, 2, 3]);
    assert_eq!(step.ack, Some(0));
    let mut q = encode_be_u64(1);
    q.extend_from_slice(&[4, 5, 6]);
    let step = s.on_chunk(&q);
    assert_eq!(step.write, vec![4, 5]);
    assert_eq!(s.phase, ReceivePhase::Finished);
}

#[test]
fn receiver_session_waits_for_ready_and_empty() {
    let mut s = ReceiveSession::new(TransferMode::Legacy);
    s.on_reply("Hello from late!");
    assert_eq!(s.phase, ReceivePhase::AwaitingReady);
    assert_eq!(s, ReceiveSession::new(TransferMode::Legacy));
    s.on_reply("FSNT;");
    assert_eq!(s.phase, ReceivePhase::AwaitingSize);
    let mut t = ReceiveSession::new(TransferMode::Legacy);
    t.on_reply("FSNT;\n");
    t.on_size_header(&[0; 8]);
    assert_eq!(t.phase, ReceivePhase::Finished);
    let mut u = ReceiveSession::new(TransferMode::Legacy);
    u.on_reply("FSNT;");
    u.on_size_header(&[1]);
    assert_eq!(u.receiver.remaining, 1 << 56);
}
