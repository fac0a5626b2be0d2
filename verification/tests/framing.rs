use solo_pc::error::ServerError;
use solo_pc::frame::{send_response, CONT_DATA_SIZE, INIT_DATA_SIZE, MAX_FRAMED_LEN, PACKET_SIZE};
use solo_pc::reassembly::Reassembly;

fn payload(len: usize) -> Vec<u8> {
    (0..len).map(|i| (i * 7 + 3) as u8).collect()
}

fn reassemble(packets: &[Vec<u8>]) -> Result<(u32, u8, Vec<u8>), ServerError> {
    let mut pending = Reassembly::start(&packets[0])?;
    let mut next = 1;
    while !pending.is_complete() {
        assert!(!pending.sequence_exhausted(&packets[next]));
        pending.accept(&packets[next])?;
        next += 1;
    }
    assert_eq!(next, packets.len());
    Ok(pending.into_parts())
}

#[test]
fn short_response_is_one_packet() {
    let packets = send_response(0x0102_0304, 0x81, &[0xaa, 0xbb, 0xcc]);
    assert_eq!(packets.len(), 1);
    let mut expected = vec![0u8; PACKET_SIZE];
    expected[..7].copy_from_slice(&[0x01, 0x02, 0x03, 0x04, 0x81, 0x00, 0x03]);
    expected[7..10].copy_from_slice(&[0xaa, 0xbb, 0xcc]);
    assert_eq!(packets[0], expected);
}

#[test]
fn empty_response_is_one_zero_length_packet() {
    let packets = send_response(7, 0xbf, &[]);
    assert_eq!(packets.len(), 1);
    assert_eq!(&packets[0][..7], &[0, 0, 0, 7, 0xbf, 0, 0]);
    assert!(packets[0][7..].iter().all(|b| *b == 0));
}

#[test]
fn long_response_uses_continuation_packets() {
    let data = payload(INIT_DATA_SIZE + CONT_DATA_SIZE + 10);
    let packets = send_response(0xffff_ffff, 0x90, &data);
    assert_eq!(packets.len(), 3);
    for p in &packets {
        assert_eq!(p.len(), PACKET_SIZE);
        assert_eq!(&p[..4], &[0xff, 0xff, 0xff, 0xff]);
    }
    assert_eq!(packets[0][4], 0x90);
    assert_eq!(packets[0][5], 0x00);
    assert_eq!(packets[0][6], 126);
    assert_eq!(&packets[0][7..], &data[..57]);
    assert_eq!(packets[1][4], 0);
    assert_eq!(&packets[1][5..], &data[57..116]);
    assert_eq!(packets[2][4], 1);
    assert_eq!(&packets[2][5..15], &data[116..126]);
    assert!(packets[2][15..].iter().all(|b| *b == 0));
}

#[test]
fn length_header_is_big_endian() {
    let data = payload(7609);
    let packets = send_response(1, 0x90, &data);
    assert_eq!(packets[0][5], 0x1d);
    assert_eq!(packets[0][6], 0xb9);
    assert_eq!(packets.len(), 1 + 128);
    assert_eq!(packets.last().unwrap()[4], 127);
}

#[test]
fn framed_messages_reassemble() {
    for len in [0usize, 1, 56, 57, 58, 115, 116, 117, 1000, 7609, MAX_FRAMED_LEN] {
        let data = payload(len);
        let packets = send_response(0xcafe_f00d, 0x86, &data);
        let (cid, cmd, got) = reassemble(&packets).unwrap();
        assert_eq!(cid, 0xcafe_f00d);
        assert_eq!(cmd, 0x06);
        assert_eq!(got, data, "length {len}");
    }
}

#[test]
fn longest_framed_message_uses_all_sequence_numbers() {
    let packets = send_response(5, 0x81, &payload(MAX_FRAMED_LEN));
    assert_eq!(packets.len(), 256);
    assert_eq!(packets[255][4], 254);
}

#[test]
fn continuation_packet_first_is_refused() {
    let mut pkt = vec![0u8; PACKET_SIZE];
    pkt[4] = 0x05;
    assert_eq!(Reassembly::start(&pkt).err(), Some(ServerError::UnexpectedContinuation));
}

#[test]
fn continuation_on_other_channel_is_refused() {
    let data = payload(100);
    let mut packets = send_response(1, 0x90, &data);
    packets[1][3] = 2;
    assert_eq!(reassemble(&packets).err(), Some(ServerError::ChannelMismatch));
}

#[test]
fn continuation_out_of_sequence_is_refused() {
    let data = payload(200);
    let mut packets = send_response(1, 0x90, &data);
    packets[1][4] = 1;
    assert_eq!(
        reassemble(&packets).err(),
        Some(ServerError::BadSequence { expected: 0, got: 1 })
    );
}

#[test]
fn refused_continuation_changes_nothing() {
    let data = payload(200);
    let packets = send_response(9, 0x90, &data);
    let mut pending = Reassembly::start(&packets[0]).unwrap();
    let mut wrong = packets[1].clone();
    wrong[4] = 3;
    assert!(pending.accept(&wrong).is_err());
    pending.accept(&packets[1]).unwrap();
    pending.accept(&packets[2]).unwrap();
    pending.accept(&packets[3]).unwrap();
    assert!(pending.is_complete());
    assert_eq!(pending.into_parts().2, data);
}

#[test]
fn sequence_counter_runs_out_after_255_continuations() {
    let mut init = vec![0u8; PACKET_SIZE];
    init[4] = 0x81;
    init[5] = 0xff;
    init[6] = 0xff;
    let mut pending = Reassembly::start(&init).unwrap();
    for seq in 0..255u8 {
        let mut cont = vec![0u8; PACKET_SIZE];
        cont[4] = seq;
        assert!(!pending.sequence_exhausted(&cont));
        pending.accept(&cont).unwrap();
    }
    assert!(!pending.is_complete());
    let mut last = vec![0u8; PACKET_SIZE];
    last[4] = 255;
    assert!(pending.sequence_exhausted(&last));
    last[0] = 1;
    assert!(!pending.sequence_exhausted(&last));
}

#[test]
fn error_messages() {
    assert_eq!(ServerError::UnexpectedContinuation.message(), "Unexpected continuation packet");
    assert_eq!(ServerError::ChannelMismatch.message(), "CID mismatch");
    assert_eq!(ServerError::RequestTooLarge.message(), "Request too large");
    assert_eq!(
        ServerError::BadSequence { expected: 3, got: 9 }.message(),
        "Bad seq: expected 3, got 9"
    );
    assert_eq!(ServerError::UnknownCommand(0x2a).message(), "Unknown command: 0x2A");
}
