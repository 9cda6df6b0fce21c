use savi::peer::{AudioPeer, DatagramAction, NotReadyError};
use savi::wire::frame_packet;

#[test]
fn send_before_handshake_returns_not_ready() {
    let mut peer = AudioPeer::new();
    assert!(!peer.is_ready());
    assert_eq!(peer.send(vec![1, 2, 3]), Err(NotReadyError));
}

#[test]
fn liveness_byte_completes_handshake_and_asks_for_echo() {
    let mut peer = AudioPeer::new();
    let action = peer.handle_datagram(&vec![1]);
    assert_eq!(action, DatagramAction::ReplyLiveness);
    assert!(peer.is_ready());
}

#[test]
fn send_after_handshake_stamps_increasing_sequence_numbers() {
    let mut peer = AudioPeer::new();
    peer.handle_datagram(&vec![1]);
    let first = peer.send(vec![9, 9]).unwrap();
    assert_eq!(first, vec![9, 9, 0, 0, 0, 0, 0, 0, 0, 0]);
    let second = peer.send(vec![8]).unwrap();
    assert_eq!(second, vec![8, 1, 0, 0, 0, 0, 0, 0, 0]);
}

#[test]
fn liveness_byte_when_ready_is_keepalive() {
    let mut peer = AudioPeer::new();
    peer.handle_datagram(&vec![1]);
    let action = peer.handle_datagram(&vec![1]);
    assert_eq!(action, DatagramAction::Discarded);
    assert_eq!(peer.buffered(), 0);
}

#[test]
fn short_datagram_is_discarded_without_effect() {
    let mut peer = AudioPeer::new();
    peer.handle_datagram(&vec![1]);
    let action = peer.handle_datagram(&vec![2, 3, 4]);
    assert_eq!(action, DatagramAction::Discarded);
    assert_eq!(peer.buffered(), 0);
    assert!(peer.flush().is_empty());
}

#[test]
fn voice_packet_is_tagged_with_volume_and_buffered() {
    let mut peer = AudioPeer::new();
    peer.handle_datagram(&vec![1]);
    peer.change_volume(55);
    let action = peer.handle_datagram(&frame_packet(&vec![10, 20], 0));
    assert_eq!(action, DatagramAction::Buffered);
    assert_eq!(peer.buffered(), 1);
    peer.handle_datagram(&frame_packet(&vec![30], 1));
    let items = peer.flush();
    assert_eq!(items, vec![vec![10, 20, 55], vec![30, 55]]);
}

#[test]
fn out_of_order_burst_is_delivered_ascending() {
    // sequence numbers arrive as [3, 1, 2]; the drain delivers [1, 2, 3]
    let mut peer = AudioPeer::new();
    peer.handle_datagram(&vec![1]);
    peer.handle_datagram(&frame_packet(&vec![3, 3], 3));
    peer.handle_datagram(&frame_packet(&vec![1, 1], 1));
    peer.handle_datagram(&frame_packet(&vec![2, 2], 2));
    assert_eq!(peer.buffered(), 3);
    let items = peer.flush();
    assert_eq!(items, vec![vec![1, 1, 100], vec![2, 2, 100], vec![3, 3, 100]]);
    assert_eq!(peer.buffered(), 0);
}

#[test]
fn flush_holds_back_a_single_packet() {
    let mut peer = AudioPeer::new();
    peer.handle_datagram(&vec![1]);
    peer.handle_datagram(&frame_packet(&vec![5], 0));
    assert_eq!(peer.buffered(), 1);
    assert!(peer.flush().is_empty());
    assert_eq!(peer.buffered(), 1);
}

#[test]
fn data_packets_are_buffered_even_before_handshake() {
    let mut peer = AudioPeer::new();
    let action = peer.handle_datagram(&frame_packet(&vec![7], 0));
    assert_eq!(action, DatagramAction::Buffered);
    assert!(!peer.is_ready());
    assert_eq!(peer.buffered(), 1);
}

#[test]
fn default_volume_is_full() {
    let mut peer = AudioPeer::new();
    peer.handle_datagram(&vec![1]);
    peer.handle_datagram(&frame_packet(&vec![], 0));
    peer.handle_datagram(&frame_packet(&vec![], 1));
    let items = peer.flush();
    assert_eq!(items, vec![vec![100], vec![100]]);
}

#[test]
fn equal_sequence_numbers_are_all_delivered() {
    let mut peer = AudioPeer::new();
    peer.handle_datagram(&vec![1]);
    peer.handle_datagram(&frame_packet(&vec![7], 5));
    peer.handle_datagram(&frame_packet(&vec![8], 5));
    peer.handle_datagram(&frame_packet(&vec![6], 4));
    let items = peer.flush();
    assert_eq!(items.len(), 3);
    assert_eq!(items[0], vec![6, 100]);
    // both packets with the same sequence number survive, in arrival order
    assert_eq!(items[1], vec![7, 100]);
    assert_eq!(items[2], vec![8, 100]);
}
