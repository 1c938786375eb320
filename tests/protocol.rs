use snd::discovery::{extract_hostname, HostRegistry};
use snd::offer::{
    accepted_by, confirms_send, encode_accept, encode_offer, is_ready, mode_token, parse_accept,
    parse_mode, parse_offer, ready_message, select_offer, OfferError, OfferRegistry, Selection,
};
use snd::transfer::{encode_be_u64, AckEvent, Receiver, SemiReliableSender};
use snd::types::{IpAddress, TransferMode};

const ALPHA: IpAddress = IpAddress::V4(0xC0A8_0001);

#[test]
fn offer_round_trip() {
    let msg = encode_offer("alpha", "/home/a/notes.txt", "Text file", 4096, TransferMode::SemiReliable);
    assert_eq!(
        msg,
        "DIRECTH: HMCHNE; alpha; WFILE; /home/a/notes.txt; WTYP; Text file; WSZ; 4096; SNDM; semi-reliable"
    );
    let dm = parse_offer(&msg, ALPHA).unwrap();
    assert_eq!(dm.host_info.name, "alpha");
    assert_eq!(dm.host_info.ip, ALPHA);
    assert_eq!(dm.file_path, "/home/a/notes.txt");
    assert_eq!(dm.file_type, "Text file");
    assert_eq!(dm.file_size, 4096);
    assert_eq!(dm.send_method, TransferMode::SemiReliable);
    let legacy = parse_offer(&encode_offer("h", "p", "t", 0, TransferMode::Legacy), ALPHA).unwrap();
    assert_eq!(legacy.send_method, TransferMode::Legacy);
    assert_eq!(legacy.file_size, 0);
}

#[test]
fn offer_host_and_path_may_hold_separators() {
    let msg = "DIRECTH: HMCHNE; a;b ; WFILE; x;  y; WTYP; t; WSZ; 12; SNDM; legacy";
    let dm = parse_offer(msg, ALPHA).unwrap();
    assert_eq!(dm.host_info.name, "a; b");
    assert_eq!(dm.file_path, "x; y");
    assert_eq!(dm.file_size, 12);
}

#[test]
fn offer_bad_size_reads_as_zero() {
    let msg = "DIRECTH: HMCHNE; h; WFILE; p; WTYP; t; WSZ; 12kb; SNDM; legacy";
    assert_eq!(parse_offer(msg, ALPHA).unwrap().file_size, 0);
    let msg = "DIRECTH: HMCHNE; h; WFILE; p; WTYP; t; WSZ; +7; SNDM; legacy";
    assert_eq!(parse_offer(msg, ALPHA).unwrap().file_size, 7);
    let msg = "DIRECTH: HMCHNE; h; WFILE; p; WTYP; t; WSZ; 18446744073709551616; SNDM; legacy";
    assert_eq!(parse_offer(msg, ALPHA).unwrap().file_size, 0);
}

#[test]
fn offer_errors() {
    assert_eq!(parse_offer("Hello from x!", ALPHA).unwrap_err(), OfferError::NotAnOffer);
    assert_eq!(
        parse_offer("DIRECTH: HMCHNE; h; WFILE; p; WTYP; t; SNDM; legacy", ALPHA).unwrap_err(),
        OfferError::MissingMarker
    );
    assert_eq!(
        parse_offer("DIRECTH: HMCHNE; h; WTYP; t; WFILE; p; WSZ; 1; SNDM; legacy", ALPHA).unwrap_err(),
        OfferError::MarkersOutOfOrder
    );
    assert_eq!(
        parse_offer("DIRECTH: HMCHNE; h; WFILE; p; WTYP; t; WSZ; 1; SNDM", ALPHA).unwrap_err(),
        OfferError::MissingMode
    );
}

#[test]
fn mode_tokens() {
    assert_eq!(mode_token(TransferMode::Legacy), "legacy");
    assert_eq!(mode_token(TransferMode::SemiReliable), "semi-reliable");
    assert_eq!(parse_mode("semi-reliable"), TransferMode::SemiReliable);
    assert_eq!(parse_mode("legacy"), TransferMode::Legacy);
    assert_eq!(parse_mode("anything"), TransferMode::Legacy);
}

#[test]
fn accept_and_ready_messages() {
    let msg = encode_accept("notes.txt", "bravo");
    assert_eq!(msg, "ACCEPT: notes.txt; FROM: bravo");
    assert_eq!(parse_accept(&msg), Some(("notes.txt".to_string(), "bravo".to_string())));
    assert_eq!(accepted_by(&msg, "notes.txt"), Some("bravo".to_string()));
    assert_eq!(accepted_by(&msg, "other.txt"), None);
    assert_eq!(parse_accept("FSNT;"), None);
    assert_eq!(parse_accept("ACCEPT: x"), Some(("x".to_string(), String::new())));
    assert_eq!(ready_message(), "FSNT;");
    assert!(is_ready(" FSNT;\n"));
    assert!(!is_ready("FSNT"));
}

#[test]
fn confirmation_answers() {
    assert!(confirms_send("y\n"));
    assert!(confirms_send(" Y "));
    assert!(!confirms_send("yes"));
    assert!(!confirms_send(""));
}

#[test]
fn selecting_offers() {
    assert_eq!(select_offer("1\n", 2), Selection::Offer(0));
    assert_eq!(select_offer(" 2 ", 2), Selection::Offer(1));
    assert_eq!(select_offer("3", 2), Selection::Invalid);
    assert_eq!(select_offer("0", 2), Selection::Invalid);
    assert_eq!(select_offer("one", 2), Selection::Invalid);
    assert_eq!(select_offer("CANCEL", 2), Selection::Cancel);
}

#[test]
fn notes_txt_scenario() {
    // Receiver side: the offer arrives from alpha.
    let offer = encode_offer("alpha", "notes.txt", "file", 4096, TransferMode::SemiReliable);
    let mut offers = OfferRegistry::new();
    assert_eq!(offers.handle_message(&offer, ALPHA), Ok(()));
    assert_eq!(offers.handle_message("garbage", ALPHA), Err(OfferError::NotAnOffer));
    assert_eq!(offers.len(), 1);
    let dm = offers.get(0);
    assert_eq!(dm.host_info.name, "alpha");
    assert_eq!(dm.host_info.ip, ALPHA);
    assert_eq!(dm.file_path, "notes.txt");
    assert_eq!(dm.file_type, "file");
    assert_eq!(dm.file_size, 4096);
    assert_eq!(dm.send_method, TransferMode::SemiReliable);
    // Accepting index 1.
    let Selection::Offer(i) = select_offer("1", offers.len()) else { panic!("not selected") };
    let accept = encode_accept(&offers.get(i).file_path, "bravo");
    assert_eq!(accept, "ACCEPT: notes.txt; FROM: bravo");
    // Sender side: the accept matches its path; it sends the ready message.
    assert_eq!(accepted_by(&accept, "notes.txt"), Some("bravo".to_string()));
    assert!(is_ready(ready_message()));
    assert_eq!(encode_be_u64(4096), vec![0, 0, 0, 0, 0, 0, 16, 0]);
    // Three chunks, each acknowledged before the next.
    let file: Vec<u8> = (0..4096u32).map(|i| (i % 251) as u8).collect();
    let mut tx = SemiReliableSender::new(4096);
    let mut rx = Receiver::new(dm.send_method, dm.file_size);
    let mut out = Vec::new();
    let mut sent = Vec::new();
    while !tx.is_done() {
        let len = tx.next_chunk_len();
        let start = tx.sent_bytes as usize;
        let packet = tx.packet(&file[start..start + len]);
        sent.push((tx.sequence, len));
        let step = rx.on_datagram(&packet);
        out.extend_from_slice(&step.write);
        let ack = step.ack.unwrap();
        assert!(tx.on_event(AckEvent::Reply { from_target: true, seq: ack }, len as u64));
    }
    assert_eq!(sent, vec![(0, 1392), (1, 1392), (2, 1312)]);
    assert_eq!(out, file);
    assert!(rx.is_complete());
}

#[test]
fn announces_keep_first_address() {
    let mut reg = HostRegistry::new();
    assert!(reg.handle_announce("Hello from bravo!", IpAddress::V4(1)));
    assert!(!reg.handle_announce("Hello from bravo!", IpAddress::V4(2)));
    assert!(reg.handle_announce("Hello from charlie!", IpAddress::V4(3)));
    assert_eq!(reg.len(), 2);
    assert_eq!(reg.lookup("bravo"), Some(IpAddress::V4(1)));
    assert_eq!(reg.lookup("charlie"), Some(IpAddress::V4(3)));
    assert_eq!(reg.lookup("delta"), None);
    assert!(reg.contains("bravo"));
    assert_eq!(reg.names(), vec!["bravo".to_string(), "charlie".to_string()]);
    assert_eq!(extract_hostname("Hello from bravo!"), "bravo");
}

#[test]
fn offer_round_trip_with_separators() {
    let msg = encode_offer("lab; box 2", "/srv/a; b/c.txt", "Text file", 77, TransferMode::Legacy);
    let dm = parse_offer(&msg, ALPHA).unwrap();
    assert_eq!(dm.host_info.name, "lab; box 2");
    assert_eq!(dm.file_path, "/srv/a; b/c.txt");
    assert_eq!(dm.file_type, "Text file");
    assert_eq!(dm.file_size, 77);
    assert_eq!(dm.send_method, TransferMode::Legacy);
}
