use snd::transfer::{
    decode_be_u64, encode_be_u64, AckEvent, Receiver, SemiReliableSender, INITIAL_TIMEOUT_MS,
    LEGACY_CHUNK_SIZE, MAX_TIMEOUT_MS, SEMI_RELIABLE_CHUNK_SIZE,
};
use snd::types::TransferMode;

fn sample_file(len: usize) -> Vec<u8> {
    (0..len).map(|i| (i * 7 + 3) as u8).collect()
}

#[test]
fn size_header_is_big_endian() {
    assert_eq!(encode_be_u64(4096), vec![0, 0, 0, 0, 0, 0, 0x10, 0]);
    assert_eq!(encode_be_u64(0x0102030405060708), vec![1, 2, 3, 4, 5, 6, 7, 8]);
    assert_eq!(decode_be_u64(&[0, 0, 0, 0, 0, 0, 0x10, 0]), 4096);
    assert_eq!(decode_be_u64(&encode_be_u64(u64::MAX)), u64::MAX);
    assert_eq!(decode_be_u64(&encode_be_u64(0)), 0);
}

#[test]
fn legacy_lossless_reproduces_file() {
    let file = sample_file(5000);
    let mut rx = Receiver::new(TransferMode::Legacy, file.len() as u64);
    let mut out = Vec::new();
    for chunk in file.chunks(LEGACY_CHUNK_SIZE) {
        assert!(!rx.is_complete());
        let step = rx.on_datagram(chunk);
        assert_eq!(step.ack, None);
        out.extend_from_slice(&step.write);
    }
    assert!(rx.is_complete());
    assert_eq!(out, file);
}

#[test]
fn legacy_truncates_to_declared_size() {
    let mut rx = Receiver::new(TransferMode::Legacy, 3);
    let step = rx.on_datagram(&[9, 8, 7, 6, 5]);
    assert_eq!(step.write, vec![9, 8, 7]);
    assert!(rx.is_complete());
}

fn drive_semi_reliable(file: &[u8], lose_every: usize) -> (Vec<u8>, Vec<usize>, Vec<u64>) {
    let mut tx = SemiReliableSender::new(file.len() as u64);
    let mut rx = Receiver::new(TransferMode::SemiReliable, file.len() as u64);
    let mut out = Vec::new();
    let mut sizes = Vec::new();
    let mut seqs = Vec::new();
    let mut sends = 0usize;
    while !tx.is_done() {
        let len = tx.next_chunk_len();
        let start = tx.sent_bytes as usize;
        let payload = &file[start..start + len];
        let packet = tx.packet(payload);
        sizes.push(len);
        seqs.push(tx.sequence);
        loop {
            sends += 1;
            let lost = lose_every > 0 && sends % lose_every == 0;
            let event = if lost {
                AckEvent::TimedOut
            } else {
                let step = rx.on_datagram(&packet);
                out.extend_from_slice(&step.write);
                match step.ack {
                    Some(seq) => AckEvent::Reply { from_target: true, seq },
                    None => AckEvent::TimedOut,
                }
            };
            if tx.on_event(event, len as u64) {
                break;
            }
        }
    }
    (out, sizes, seqs)
}

#[test]
fn semi_reliable_lossless_reproduces_file() {
    let file = sample_file(10_000);
    let (out, _, _) = drive_semi_reliable(&file, 0);
    assert_eq!(out, file);
}

#[test]
fn semi_reliable_with_loss_reproduces_file() {
    let file = sample_file(7_000);
    let (out, _, _) = drive_semi_reliable(&file, 3);
    assert_eq!(out, file);
}

#[test]
fn semi_reliable_chunks_of_four_kib() {
    let file = sample_file(4096);
    let (out, sizes, seqs) = drive_semi_reliable(&file, 0);
    assert_eq!(sizes, vec![1392, 1392, 1312]);
    assert_eq!(seqs, vec![0, 1, 2]);
    assert_eq!(out, file);
    let tx = SemiReliableSender::new(4096);
    let packet = tx.packet(&file[..SEMI_RELIABLE_CHUNK_SIZE]);
    assert_eq!(packet.len(), 1400);
    assert_eq!(&packet[..8], &[0u8; 8]);
}

#[test]
fn duplicate_chunk_is_acked_not_rewritten() {
    let mut rx = Receiver::new(TransferMode::SemiReliable, 10);
    let mut packet = encode_be_u64(0);
    packet.extend_from_slice(&[1, 2, 3]);
    let first = rx.on_datagram(&packet);
    assert_eq!(first.write, vec![1, 2, 3]);
    assert_eq!(first.ack, Some(0));
    let second = rx.on_datagram(&packet);
    assert!(second.write.is_empty());
    assert_eq!(second.ack, Some(0));
    assert_eq!(rx.remaining, 7);
    assert_eq!(rx.next_expected, 1);
}

#[test]
fn future_chunk_is_dropped() {
    let mut rx = Receiver::new(TransferMode::SemiReliable, 10);
    let mut packet = encode_be_u64(2);
    packet.extend_from_slice(&[1, 2, 3]);
    let step = rx.on_datagram(&packet);
    assert!(step.write.is_empty());
    assert_eq!(step.ack, None);
    assert_eq!(rx.next_expected, 0);
    assert_eq!(rx.remaining, 10);
}

#[test]
fn short_datagram_is_ignored() {
    let mut rx = Receiver::new(TransferMode::SemiReliable, 10);
    let step = rx.on_datagram(&[0, 0, 0]);
    assert!(step.write.is_empty());
    assert_eq!(step.ack, None);
    assert_eq!(rx, Receiver::new(TransferMode::SemiReliable, 10));
}

#[test]
fn timeout_doubles_up_to_cap() {
    let mut tx = SemiReliableSender::new(100);
    assert_eq!(tx.timeout_ms, INITIAL_TIMEOUT_MS);
    let mut seen = Vec::new();
    for _ in 0..6 {
        assert!(!tx.on_event(AckEvent::TimedOut, 100));
        seen.push(tx.timeout_ms);
    }
    assert_eq!(seen, vec![200, 400, 800, 1600, 2000, 2000]);
    assert_eq!(MAX_TIMEOUT_MS, 2000);
    assert!(!tx.on_event(AckEvent::Reply { from_target: false, seq: 0 }, 100));
    assert!(!tx.on_event(AckEvent::Reply { from_target: true, seq: 5 }, 100));
    assert_eq!(tx.sequence, 0);
    assert!(tx.on_event(AckEvent::Reply { from_target: true, seq: 0 }, 100));
    assert_eq!(tx.sequence, 1);
    assert_eq!(tx.sent_bytes, 100);
    assert_eq!(tx.timeout_ms, INITIAL_TIMEOUT_MS);
    assert!(tx.is_done());
}

#[test]
fn empty_file_needs_no_chunks() {
    let tx = SemiReliableSender::new(0);
    assert!(tx.is_done());
    assert_eq!(tx.next_chunk_len(), 0);
    assert!(Receiver::new(TransferMode::SemiReliable, 0).is_complete());
}
