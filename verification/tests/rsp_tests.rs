use emucap::rsp::{
    ack_reply, ack_step, checksum, frame, packet_pending, scan_packet, unescape, AckOutcome, AckReply,
    AckStep, PacketScan, ACK_ATTEMPTS,
};

#[test]
fn checksum_wraps_at_256() {
    assert_eq!(checksum(b""), 0);
    assert_eq!(checksum(b"?"), 0x3f);
    assert_eq!(checksum(&[0xff, 0x02]), 0x01);
    assert_eq!(checksum(b"g"), 0x67);
}

#[test]
fn frame_appends_lower_case_checksum() {
    assert_eq!(frame(b"?"), b"$?#3f".to_vec());
    assert_eq!(frame(b""), b"$#00".to_vec());
    assert_eq!(frame(b"qSupported"), b"$qSupported#37".to_vec());
}

#[test]
fn scan_reads_a_packet_after_junk_and_keeps_the_rest() {
    let mut buf = b"+junk".to_vec();
    buf.extend_from_slice(&frame(b"OK"));
    buf.extend_from_slice(b"$T05");
    match scan_packet(&buf) {
        PacketScan::Packet { consumed, payload } => {
            assert_eq!(payload, b"OK".to_vec());
            assert_eq!(consumed, 5 + 6);
        }
        _ => panic!("expected a packet"),
    }
}

#[test]
fn scan_accepts_upper_case_and_plus_checksums() {
    assert!(matches!(scan_packet(b"$?#3F"), PacketScan::Packet { consumed: 5, .. }));
    // "+f" reads as 15, as from_str_radix reads it
    let p = [b'$', 0x0f, b'#', b'+', b'f'];
    assert!(matches!(scan_packet(&p), PacketScan::Packet { consumed: 5, .. }));
}

#[test]
fn scan_flags_bad_checksum_and_waits_for_incomplete() {
    assert!(matches!(scan_packet(b"$?#00xx"), PacketScan::BadChecksum { consumed: 5 }));
    assert!(matches!(scan_packet(b"$?#3"), PacketScan::Incomplete));
    assert!(matches!(scan_packet(b"$abc"), PacketScan::Incomplete));
    assert!(matches!(scan_packet(b"noise"), PacketScan::Incomplete));
    assert!(matches!(scan_packet(b"$?#-f"), PacketScan::BadChecksum { consumed: 5 }));
}

#[test]
fn scan_unescapes_payload_but_checks_raw_bytes() {
    // "}]" stands for 0x7d ('}')
    let raw = b"a}]b";
    let f = frame(raw);
    match scan_packet(&f) {
        PacketScan::Packet { payload, .. } => assert_eq!(payload, b"a}b".to_vec()),
        _ => panic!("expected a packet"),
    }
    assert_eq!(unescape(b"x}", 0, 2), b"x}".to_vec());
    assert_eq!(unescape(b"}\x03}\x04", 0, 4), vec![0x23, 0x24]);
}

#[test]
fn pending_and_ack_classification() {
    assert!(packet_pending(b"xx$"));
    assert!(!packet_pending(b"+++"));
    assert_eq!(ack_reply(b'+'), AckReply::Acked);
    assert_eq!(ack_reply(b'-'), AckReply::Resend);
    assert_eq!(ack_reply(b'$'), AckReply::ReplyStarted);
    assert_eq!(ack_reply(b'x'), AckReply::Ignored);
}

#[test]
fn framed_payload_scans_back() {
    for payload in [&b"m8000,4"[..], b"", b"vCont;c", b"$$"] {
        let mut buf = frame(payload);
        buf.extend_from_slice(b"trailing");
        match scan_packet(&buf) {
            PacketScan::Packet { consumed, payload: back } => {
                assert_eq!(back, payload.to_vec());
                assert_eq!(consumed, payload.len() + 4);
            }
            _ => panic!("expected a packet"),
        }
    }
}

#[test]
fn ack_steps_resend_on_nak_and_give_up_after_eight_bytes() {
    assert_eq!(ack_step(1, b'+'), AckStep { resend: false, outcome: AckOutcome::Acknowledged });
    assert_eq!(ack_step(3, b'$'), AckStep { resend: false, outcome: AckOutcome::ReplyBegun });
    assert_eq!(ack_step(1, b'-'), AckStep { resend: true, outcome: AckOutcome::KeepWaiting });
    assert_eq!(ack_step(2, b'x'), AckStep { resend: false, outcome: AckOutcome::KeepWaiting });
    assert_eq!(ACK_ATTEMPTS, 8);
    assert_eq!(ack_step(8, b'-'), AckStep { resend: true, outcome: AckOutcome::NotAcknowledged });
    assert_eq!(ack_step(8, b'x'), AckStep { resend: false, outcome: AckOutcome::NotAcknowledged });
    assert_eq!(ack_step(8, b'+'), AckStep { resend: false, outcome: AckOutcome::Acknowledged });
}

#[test]
fn scanning_skips_bytes_before_the_frame() {
    let mut buf = b"+-+".to_vec();
    buf.extend_from_slice(&frame(b"OK"));
    buf.extend_from_slice(b"$x");
    match scan_packet(&buf) {
        PacketScan::Packet { consumed, payload } => {
            assert_eq!(consumed, 3 + 2 + 4);
            assert_eq!(payload, b"OK".to_vec());
        }
        _ => panic!("expected a packet"),
    }
}
