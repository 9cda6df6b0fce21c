use savi::wire::{frame_packet, parse_packet, sub_vec};

#[test]
fn frame_appends_little_endian_sequence() {
    let framed = frame_packet(&vec![0xAB, 0xCD], 1);
    assert_eq!(framed, vec![0xAB, 0xCD, 1, 0, 0, 0, 0, 0, 0, 0]);
}

#[test]
fn frame_large_sequence_number() {
    let framed = frame_packet(&vec![], 0x0102030405060708);
    assert_eq!(framed, vec![0x08, 0x07, 0x06, 0x05, 0x04, 0x03, 0x02, 0x01]);
}

#[test]
fn parse_reconstructs_what_was_framed() {
    let payload = vec![1u8, 2, 3, 4, 5];
    let framed = frame_packet(&payload, 42);
    assert_eq!(framed.len(), payload.len() + 8);
    let (p, seq) = parse_packet(&framed).unwrap();
    assert_eq!(p, payload);
    assert_eq!(seq, 42);
}

#[test]
fn parse_round_trip_many_sequences() {
    for seq in [0u64, 1, 255, 256, 65535, u64::MAX] {
        let payload = vec![9u8; 13];
        let (p, s) = parse_packet(&frame_packet(&payload, seq)).unwrap();
        assert_eq!(p, payload);
        assert_eq!(s, seq);
    }
}

#[test]
fn parse_rejects_short_datagrams() {
    assert!(parse_packet(&vec![]).is_none());
    assert!(parse_packet(&vec![1]).is_none());
    assert!(parse_packet(&vec![1, 2, 3, 4, 5, 6, 7]).is_none());
}

#[test]
fn parse_accepts_bare_sequence_number() {
    let (p, seq) = parse_packet(&vec![7, 0, 0, 0, 0, 0, 0, 0]).unwrap();
    assert!(p.is_empty());
    assert_eq!(seq, 7);
}

#[test]
fn sub_vec_copies_range() {
    let v = vec![10u8, 11, 12, 13, 14];
    assert_eq!(sub_vec(&v, 1, 4), vec![11, 12, 13]);
    assert_eq!(sub_vec(&v, 2, 2), Vec::<u8>::new());
}
