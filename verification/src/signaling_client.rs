//! The signaling relay's client side: encrypt-before-send,
//! decrypt-after-receive, and the connection URL carrying the
//! percent-encoded username as a query parameter. The WebSocket and
//! the channels that move the messages live with the caller.
use vstd::prelude::*;
use vstd::utf8::*;
use crate::cipher::{string_from_utf8, AES, CryptoError, decrypt_blob_spec, key_wf, P_MAX_BYTES};
use crate::textenc::{
    dec_digits, is_unreserved, lemma_ascii_block_valid, lemma_dec_digits_ascii,
    lemma_find_byte_unique, pct_decoded, pct_encode, pct_encoded, u64_to_dec,
};

verus! {

broadcast use vstd::utf8::encode_utf8_valid_utf8, vstd::utf8::encode_utf8_decode_utf8;

/// The bytes of `ws://`.
pub open spec fn scheme_bytes() -> Seq<u8> {
    seq![0x77u8, 0x73u8, 0x3Au8, 0x2Fu8, 0x2Fu8]
}

/// The bytes of `?username=`.
pub open spec fn query_prefix_bytes() -> Seq<u8> {
    seq![
        0x3Fu8,
        0x75u8,
        0x73u8,
        0x65u8,
        0x72u8,
        0x6Eu8,
        0x61u8,
        0x6Du8,
        0x65u8,
        0x3Du8,
    ]
}

/// The bytes of the relay connection URL:
/// `ws://<host>:<port>?username=<percent-encoded username>`.
pub open spec fn connect_url_bytes(address: Seq<char>, port: u32, username: Seq<char>) -> Seq<u8> {
    scheme_bytes() + encode_utf8(address) + seq![0x3Au8] + dec_digits(port as nat)
        + query_prefix_bytes() + pct_encoded(encode_utf8(username))
}

/// Percent-encoded output is pure ASCII.
proof fn lemma_pct_encoded_ascii(s: Seq<u8>)
    ensures
        forall|t: int| 0 <= t < pct_encoded(s).len() ==> #[trigger] pct_encoded(s)[t] <= 0x7F,
    decreases s.len(),
{
    if s.len() == 0 {
    } else {
        lemma_pct_encoded_ascii(s.skip(1));
        let head = crate::textenc::pct_encode1(s[0]);
        assert(forall|t: int| 0 <= t < head.len() ==> #[trigger] head[t] <= 0x7F) by {
            if is_unreserved(s[0]) {
            } else {
                assert(head[0] == 0x25u8);
                assert(head.len() == 3);
            }
        }
        assert forall|t: int| 0 <= t < pct_encoded(s).len() implies #[trigger] pct_encoded(
            s,
        )[t] <= 0x7F by {
            if t < head.len() {
                assert(pct_encoded(s)[t] == head[t]);
            } else {
                assert(pct_encoded(s)[t] == pct_encoded(s.skip(1))[t - head.len()]);
            }
        }
    }
}

/// The query string the connection URL carries: everything after `?`.
pub open spec fn url_query_bytes(username: Seq<char>) -> Seq<u8> {
    query_prefix_bytes().skip(1) + pct_encoded(encode_utf8(username))
}

/// The username a client writes into its connection URL is exactly
/// what the relay's query parsing reconstructs: one `username=`
/// segment, whose percent-decoding is the username's UTF-8.
pub proof fn lemma_url_username_round_trip(username: Seq<char>)
    ensures
        crate::signaling_server::user_val(url_query_bytes(username)) == Some(
            pct_encoded(encode_utf8(username)),
        ),
        pct_decoded(pct_encoded(encode_utf8(username))) == encode_utf8(username),
        valid_utf8(encode_utf8(username)),
        decode_utf8(encode_utf8(username)) == username,
{
    let enc = pct_encoded(encode_utf8(username));
    let q = url_query_bytes(username);
    crate::textenc::lemma_pct_decode_encode(encode_utf8(username));
    crate::textenc::lemma_pct_encoded_no_delimiters(encode_utf8(username));
    assert(q.len() == 9 + enc.len());
    assert(forall|t: int| 0 <= t < 9 ==> q[t] == query_prefix_bytes().skip(1)[t]);
    assert forall|t: int| 0 <= t < q.len() implies q[t] != 0x26 by {
        if t >= 9 {
            assert(q[t] == enc[t - 9]);
        }
    }
    lemma_find_byte_unique(q, 0x26, q.len() as int);
    assert forall|t: int| 0 <= t < 8 implies q[t] != 0x3D by {}
    assert(q[8] == 0x3D);
    let seg = q.take(q.len() as int);
    assert(seg =~= q);
    lemma_find_byte_unique(q, 0x3D, 8);
    assert(q.take(8) =~= crate::signaling_server::username_key());
    assert(q.skip(9) =~= enc);
    assert(crate::signaling_server::seg_user_val(q) == Some(enc));
}

/// The signaling client: the identity it announces, where it connects,
/// and the shared cipher securing every message it exchanges.
pub struct SignalingClient {
    username: String,
    address: String,
    port: u32,
    cipher: AES,
}

impl SignalingClient {
    pub closed spec fn username_spec(self) -> Seq<char> {
        self.username@
    }

    pub closed spec fn address_spec(self) -> Seq<char> {
        self.address@
    }

    pub closed spec fn port_spec(self) -> u32 {
        self.port
    }

    pub closed spec fn key_spec(self) -> Seq<char> {
        self.cipher.key_view()
    }

    /// A client holding the session key shared out-of-band by the
    /// hosting peer.
    pub fn new(key: String, username: String, address: String, port: u32) -> (r: SignalingClient)
        ensures
            r.username_spec() == username@,
            r.address_spec() == address@,
            r.port_spec() == port,
            r.key_spec() == key@,
    {
        SignalingClient { username, address, port, cipher: AES::new(Some(key)) }
    }

    /// The WebSocket URL this client connects to, with the username
    /// percent-encoded into the query string.
    pub fn connect_url(&self) -> (r: String)
        ensures
            encode_utf8(r@) == connect_url_bytes(
                self.address_spec(),
                self.port_spec(),
                self.username_spec(),
            ),
    {
        let mut b: Vec<u8> = Vec::new();
        b.push(0x77);
        b.push(0x73);
        b.push(0x3A);
        b.push(0x2F);
        b.push(0x2F);
        let ghost scheme = b@;
        b.extend_from_slice(self.address.as_str().as_bytes());
        b.push(0x3A);
        let mut port_dec = u64_to_dec(self.port as u64);
        b.append(&mut port_dec);
        b.push(0x3F);
        b.push(0x75);
        b.push(0x73);
        b.push(0x65);
        b.push(0x72);
        b.push(0x6E);
        b.push(0x61);
        b.push(0x6D);
        b.push(0x65);
        b.push(0x3D);
        let uname_bytes = self.username.as_str().as_bytes_vec();
        let mut encoded = pct_encode(&uname_bytes);
        b.append(&mut encoded);
        proof {
            assert(scheme =~= scheme_bytes());
            assert(b@ =~= connect_url_bytes(
                self.address_spec(),
                self.port_spec(),
                self.username_spec(),
            ));
            // validity, piece by piece
            lemma_ascii_block_valid(Seq::<u8>::empty(), scheme_bytes());
            assert(valid_utf8(scheme_bytes())) by {
                assert(Seq::<u8>::empty() + scheme_bytes() =~= scheme_bytes());
            }
            let p1 = scheme_bytes() + encode_utf8(self.address_spec());
            vstd::utf8::valid_utf8_concat(scheme_bytes(), encode_utf8(self.address_spec()));
            let colon_digits = seq![0x3Au8] + dec_digits(self.port_spec() as nat);
            lemma_dec_digits_ascii(self.port_spec() as nat);
            assert forall|t: int| 0 <= t < colon_digits.len() implies #[trigger] colon_digits[t]
                <= 0x7F by {
                if t > 0 {
                    assert(colon_digits[t] == dec_digits(self.port_spec() as nat)[t - 1]);
                }
            }
            lemma_ascii_block_valid(p1, colon_digits);
            let p2 = p1 + colon_digits;
            let qtail = query_prefix_bytes() + pct_encoded(encode_utf8(self.username_spec()));
            lemma_pct_encoded_ascii(encode_utf8(self.username_spec()));
            assert forall|t: int| 0 <= t < qtail.len() implies #[trigger] qtail[t] <= 0x7F by {
                if t >= 10 {
                    assert(qtail[t] == pct_encoded(encode_utf8(self.username_spec()))[t - 10]);
                }
            }
            lemma_ascii_block_valid(p2, qtail);
            assert((p2 + qtail) =~= b@);
        }
        let r = string_from_utf8(b);
        match r {
            Some(s) => s,
            None => {
                proof {
                    assert(false);
                }
                String::new()
            },
        }
    }

    /// Encrypt one outgoing plaintext message for the relay; the
    /// caller pushes the blob onto its non-blocking outbound queue.
    /// Succeeds exactly when the shared key is well-formed and the
    /// message fits the cipher's plaintext bound; the blob decrypts
    /// under the same key back to the message.
    pub fn send_message(&self, msg: String) -> (r: Result<String, CryptoError>)
        ensures
            r is Ok <==> key_wf(self.key_spec()) && encode_utf8(msg@).len() <= P_MAX_BYTES,
            r is Ok ==> decrypt_blob_spec(self.key_spec(), r.unwrap()@) == Some(msg@),
    {
        self.cipher.encrypt(msg)
    }

    /// Decrypt one ciphertext frame received from the relay; a blob
    /// that fails to decrypt is dropped, never a crash.
    pub fn receive_message(&self, data: String) -> (r: Result<String, CryptoError>)
        ensures
            r is Ok <==> decrypt_blob_spec(self.key_spec(), data@) is Some,
            r is Ok ==> Some(r.unwrap()@) == decrypt_blob_spec(self.key_spec(), data@),
    {
        self.cipher.decrypt(data)
    }
}

} // verus!
