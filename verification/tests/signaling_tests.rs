use savi::cipher::CryptoError;
use savi::signaling_client::SignalingClient;
use savi::signaling_server::{encrypt_welcome, get_username, welcome_message, PeerTable, SignalingServer};

#[test]
fn username_is_parsed_from_query() {
    assert_eq!(get_username(String::from("username=alice")), Some(String::from("alice")));
    assert_eq!(
        get_username(String::from("a=b&username=bob&c=d")),
        Some(String::from("bob"))
    );
}

#[test]
fn username_is_percent_decoded() {
    assert_eq!(
        get_username(String::from("username=bob%20smith")),
        Some(String::from("bob smith"))
    );
    assert_eq!(
        get_username(String::from("username=caf%C3%A9")),
        Some(String::from("caf\u{E9}"))
    );
}

#[test]
fn missing_username_fails_the_connection() {
    assert_eq!(get_username(String::from("")), None);
    assert_eq!(get_username(String::from("user=alice&name=bob")), None);
}

#[test]
fn last_username_segment_wins() {
    assert_eq!(
        get_username(String::from("username=a&username=b")),
        Some(String::from("b"))
    );
}

#[test]
fn segment_without_equals_is_skipped() {
    assert_eq!(
        get_username(String::from("flag&username=x&alsoflag")),
        Some(String::from("x"))
    );
}

#[test]
fn welcome_message_has_the_fixed_template() {
    assert_eq!(welcome_message(0), "id\u{AC}0\n");
    assert_eq!(welcome_message(1), "id\u{AC}1\n");
    assert_eq!(welcome_message(17), "id\u{AC}17\n");
    assert_eq!(welcome_message(u64::MAX), "id\u{AC}18446744073709551615\n");
}

#[test]
fn first_two_peers_get_ids_zero_and_one() {
    let mut table = PeerTable::new();
    assert_eq!(table.accept_peer(1001, String::from("alice")), 0);
    assert_eq!(table.accept_peer(1002, String::from("bob")), 1);
    assert_eq!(table.len(), 2);
}

#[test]
fn broadcast_targets_every_other_peer() {
    let mut table = PeerTable::new();
    table.accept_peer(1, String::from("a"));
    table.accept_peer(2, String::from("b"));
    table.accept_peer(3, String::from("c"));
    assert_eq!(table.broadcast_targets(2), vec![1, 3]);
    assert_eq!(table.broadcast_targets(9), vec![1, 2, 3]);
}

#[test]
fn removed_peer_is_no_longer_targeted() {
    let mut table = PeerTable::new();
    table.accept_peer(1, String::from("a"));
    table.accept_peer(2, String::from("b"));
    assert!(table.remove_peer(1));
    assert_eq!(table.broadcast_targets(2), Vec::<u64>::new());
    assert_eq!(table.len(), 1);
    assert!(!table.remove_peer(1));
}

#[test]
fn ids_are_never_reused_after_churn() {
    let mut table = PeerTable::new();
    assert_eq!(table.accept_peer(1, String::from("a")), 0);
    assert_eq!(table.accept_peer(2, String::from("b")), 1);
    table.remove_peer(1);
    assert_eq!(table.accept_peer(3, String::from("c")), 2);
}

#[test]
fn server_has_no_key_until_started() {
    let mut server = SignalingServer::new(String::from("[::]"), 8080);
    assert_eq!(server.get_cipher_key(), "");
    let cipher = server.init_cipher();
    assert_eq!(&server.get_cipher_key(), cipher.get_key());
    assert_eq!(server.get_cipher_key().len(), 43);
}

#[test]
fn hosting_peer_welcome_round_trip() {
    // the hosting peer generates a key, encrypts "id<sep>0\n"; a client
    // holding the key decrypts it back
    let mut server = SignalingServer::new(String::from("127.0.0.1"), 8080);
    let cipher = server.init_cipher();
    let key = server.get_cipher_key();
    let blob = encrypt_welcome(&cipher, 0).unwrap();
    let client = SignalingClient::new(key, String::from("bob"), String::from("127.0.0.1"), 8080);
    assert_eq!(client.receive_message(blob), Ok(String::from("id\u{AC}0\n")));
}

#[test]
fn client_messages_round_trip_between_holders_of_one_key() {
    let mut server = SignalingServer::new(String::from("127.0.0.1"), 9000);
    server.init_cipher();
    let key = server.get_cipher_key();
    let alice = SignalingClient::new(key.clone(), String::from("alice"), String::from("h"), 9000);
    let bob = SignalingClient::new(key, String::from("bob"), String::from("h"), 9000);
    let blob = alice.send_message(String::from("peers: 10.0.0.2:4444")).unwrap();
    assert_eq!(bob.receive_message(blob), Ok(String::from("peers: 10.0.0.2:4444")));
}

#[test]
fn wrong_key_client_cannot_read_the_welcome() {
    let mut server = SignalingServer::new(String::from("127.0.0.1"), 9000);
    let cipher = server.init_cipher();
    let blob = encrypt_welcome(&cipher, 3).unwrap();
    let mut other = SignalingServer::new(String::from("127.0.0.1"), 9001);
    other.init_cipher();
    let intruder = SignalingClient::new(
        other.get_cipher_key(),
        String::from("eve"),
        String::from("h"),
        9000,
    );
    assert_eq!(intruder.receive_message(blob), Err(CryptoError));
}

#[test]
fn connect_url_carries_the_encoded_username() {
    let client = SignalingClient::new(
        String::from("k"),
        String::from("bob smith"),
        String::from("127.0.0.1"),
        8080,
    );
    assert_eq!(client.connect_url(), "ws://127.0.0.1:8080?username=bob%20smith");
    let plain = SignalingClient::new(
        String::from("k"),
        String::from("alice"),
        String::from("example.org"),
        443,
    );
    assert_eq!(plain.connect_url(), "ws://example.org:443?username=alice");
}
