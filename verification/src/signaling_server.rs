//! The signaling relay's server side: id assignment, the encrypted
//! welcome message, the peer table keyed by network address, and the
//! broadcast rule (every message goes to every *other* peer). The
//! WebSocket listener and the per-connection tasks live with the
//! caller: this module decides, the caller accepts, forwards and
//! closes.
use vstd::prelude::*;
use vstd::utf8::*;
use crate::cipher::{string_from_utf8, AES, CryptoError, decrypt_blob_spec, key_wf, P_MAX_BYTES};
use crate::textenc::{
    bytes_eq, dec_digits, find_byte, lemma_ascii_block_valid, lemma_dec_digits_ascii,
    lemma_find_byte, lemma_find_byte_unique, pct_decode, pct_decoded, u64_to_dec,
};
use crate::wire::sub_vec;

verus! {

broadcast use vstd::utf8::encode_utf8_valid_utf8, vstd::utf8::encode_utf8_decode_utf8;

/// The bytes of the query key that carries the caller's name.
pub open spec fn username_key() -> Seq<u8> {
    seq![0x75u8, 0x73u8, 0x65u8, 0x72u8, 0x6Eu8, 0x61u8, 0x6Du8, 0x65u8]
}

/// The value a `key=value` query segment contributes for the username:
/// the bytes after the first `=`, when the key is `username`.
pub open spec fn seg_user_val(seg: Seq<u8>) -> Option<Seq<u8>> {
    let k = find_byte(seg, 0x3D);
    if k == seg.len() {
        None
    } else if seg.take(k) == username_key() {
        Some(seg.skip(k + 1))
    } else {
        None
    }
}

/// The raw (still percent-encoded) username carried by a query string:
/// segments are split on `&`, a segment without `=` carries nothing,
/// and of several `username` segments the last wins.
pub open spec fn user_val(q: Seq<u8>) -> Option<Seq<u8>>
    decreases q.len(),
{
    let k = find_byte(q, 0x26);
    let here = seg_user_val(q.take(k));
    if k == q.len() {
        here
    } else {
        proof {
            lemma_find_byte(q, 0x26);
        }
        match user_val(q.skip(k + 1)) {
            Some(v) => Some(v),
            None => here,
        }
    }
}

/// A later match wins over what was found so far.
spec fn prefer_later(found: Option<Seq<u8>>, rest: Option<Seq<u8>>) -> Option<Seq<u8>> {
    match rest {
        Some(v) => Some(v),
        None => found,
    }
}

spec fn opt_view(o: Option<Vec<u8>>) -> Option<Seq<u8>> {
    match o {
        Some(v) => Some(v@),
        None => None,
    }
}

/// The decoded username of a query string, when the query carries one
/// whose percent-decoding is UTF-8.
pub open spec fn username_of_query(q: Seq<char>) -> Option<Seq<char>> {
    match user_val(encode_utf8(q)) {
        None => None,
        Some(raw) => if valid_utf8(pct_decoded(raw)) {
            Some(decode_utf8(pct_decoded(raw)))
        } else {
            None
        },
    }
}

fn username_key_vec() -> (r: Vec<u8>)
    ensures
        r@ == username_key(),
{
    let mut r: Vec<u8> = Vec::new();
    r.push(0x75);
    r.push(0x73);
    r.push(0x65);
    r.push(0x72);
    r.push(0x6E);
    r.push(0x61);
    r.push(0x6D);
    r.push(0x65);
    proof {
        assert(r@ =~= username_key());
    }
    r
}

/// Parse the `username` query parameter out of the request URI's query
/// string, percent-decoded. `None` — the connection is refused — when
/// no segment carries one or the decoded name is not UTF-8.
pub fn get_username(query: String) -> (r: Option<String>)
    ensures
        r is Some <==> username_of_query(query@) is Some,
        r is Some ==> r.unwrap()@ == username_of_query(query@).unwrap(),
{
    let bytes: Vec<u8> = query.as_str().as_bytes_vec();
    let ghost q = bytes@;
    let n = bytes.len();
    let mut found: Option<Vec<u8>> = None;
    let ukey = username_key_vec();
    let mut i: usize = 0;
    let mut done = false;
    proof {
        assert(q.skip(0) =~= q);
    }
    while !done
        invariant
            0 <= i <= n,
            n == q.len(),
            q == bytes@,
            q == encode_utf8(query@),
            ukey@ == username_key(),
            !done ==> prefer_later(opt_view(found), user_val(q.skip(i as int))) == user_val(q),
            done ==> opt_view(found) == user_val(q),
        decreases (if done { 0int } else { n - i + 1 }),
    {
        let ghost rest = q.skip(i as int);
        let mut j: usize = i;
        while j < n && bytes[j] != 0x26
            invariant
                i <= j <= n,
                n == bytes@.len(),
                forall|t: int| i <= t < j ==> bytes@[t] != 0x26,
            decreases n - j,
        {
            j = j + 1;
        }
        proof {
            assert forall|t: int| 0 <= t < j - i implies rest[t] != 0x26 by {
                assert(rest[t] == q[i + t]);
            }
            if j < n {
                assert(rest[j - i] == q[j as int]);
            }
            lemma_find_byte_unique(rest, 0x26, j - i);
        }
        let ghost seg = rest.take(j - i);
        let mut e: usize = i;
        while e < j && bytes[e] != 0x3D
            invariant
                i <= e <= j <= n,
                n == bytes@.len(),
                forall|t: int| i <= t < e ==> bytes@[t] != 0x3D,
            decreases j - e,
        {
            e = e + 1;
        }
        proof {
            assert(seg.len() == j - i);
            assert forall|t: int| 0 <= t < e - i implies seg[t] != 0x3D by {
                assert(seg[t] == q[i + t]);
            }
            if e < j {
                assert(seg[e - i] == q[e as int]);
            }
            lemma_find_byte_unique(seg, 0x3D, e - i);
        }
        let ghost here = seg_user_val(seg);
        if e < j {
            let key = sub_vec(&bytes, i, e);
            proof {
                assert(key@ =~= seg.take(e - i));
            }
            if bytes_eq(key.as_slice(), ukey.as_slice()) {
                let value = sub_vec(&bytes, e + 1, j);
                proof {
                    assert(value@ =~= seg.skip(e - i + 1));
                    assert(here == Some(value@));
                }
                found = Some(value);
            } else {
                proof {
                    assert(here is None);
                }
            }
        } else {
            proof {
                assert(here is None);
            }
        }
        proof {
            lemma_find_byte(rest, 0x26);
            if j == n {
                assert(user_val(rest) == here);
            } else {
                assert(rest.skip(j - i + 1) =~= q.skip(j + 1));
                assert(user_val(rest) == prefer_later(here, user_val(q.skip(j + 1))));
            }
        }
        if j == n {
            done = true;
        } else {
            i = j + 1;
        }
    }
    match found {
        None => None,
        Some(v) => {
            let decoded = pct_decode(&v);
            string_from_utf8(decoded)
        },
    }
}

/// The plaintext welcome bytes for an assigned id: `id`, a non-ASCII
/// separator (`¬`, UTF-8 `C2 AC`, chosen to collide with no username
/// or id), the id in decimal, and a newline.
pub open spec fn welcome_bytes(id: nat) -> Seq<u8> {
    seq![0x69u8, 0x64u8, 0xC2u8, 0xACu8] + dec_digits(id) + seq![0x0Au8]
}

/// The decimal digits of `n`, as characters.
pub open spec fn dec_chars(n: nat) -> Seq<char> {
    dec_digits(n).map_values(|b: u8| b as char)
}

/// The welcome message's characters: `id`, the separator, the id in
/// decimal, a newline.
pub open spec fn welcome_chars(id: nat) -> Seq<char> {
    seq!['i', 'd', '\u{AC}'] + dec_chars(id) + seq!['\n']
}

/// Encoding distributes over concatenation of character sequences.
proof fn lemma_encode_utf8_concat(a: Seq<char>, b: Seq<char>)
    ensures
        encode_utf8(a + b) == encode_utf8(a) + encode_utf8(b),
    decreases a.len(),
{
    if a.len() == 0 {
        assert(a + b =~= b);
        assert(encode_utf8(a) + encode_utf8(b) =~= encode_utf8(b));
    } else {
        lemma_encode_utf8_concat(a.drop_first(), b);
        assert((a + b).drop_first() =~= a.drop_first() + b);
        assert((a + b)[0] == a[0]);
        assert(encode_utf8(a) + encode_utf8(b) =~= encode_scalar(a[0] as u32) + (encode_utf8(
            a.drop_first(),
        ) + encode_utf8(b)));
    }
}

/// The welcome bytes are exactly the UTF-8 of the welcome characters,
/// so the message a client decrypts reads `"id¬<id>\n"`.
pub proof fn lemma_welcome_bytes_are_welcome_chars(id: nat)
    ensures
        encode_utf8(welcome_chars(id)) == welcome_bytes(id),
        decode_utf8(welcome_bytes(id)) == welcome_chars(id),
{
    let head = seq!['i', 'd', '\u{AC}'];
    let tail = seq!['\n'];
    lemma_encode_utf8_concat(head, dec_chars(id) + tail);
    lemma_encode_utf8_concat(dec_chars(id), tail);
    assert(welcome_chars(id) =~= head + (dec_chars(id) + tail));
    assert('i' as u32 == 0x69 && 'd' as u32 == 0x64 && '\u{AC}' as u32 == 0xAC && '\n' as u32
        == 0x0A);
    assert(encode_scalar(0x69u32) =~= seq![0x69u8]) by {
        assert((0x69u32 & 0x7F) as u8 == 0x69u8) by (bit_vector);
    }
    assert(encode_scalar(0x64u32) =~= seq![0x64u8]) by {
        assert((0x64u32 & 0x7F) as u8 == 0x64u8) by (bit_vector);
    }
    assert(encode_scalar(0xACu32) =~= seq![0xC2u8, 0xACu8]) by {
        assert(0xC0u8 | ((0xACu32 >> 6) & 0x1F) as u8 == 0xC2u8) by (bit_vector);
        assert(0x80u8 | (0xACu32 & 0x3F) as u8 == 0xACu8) by (bit_vector);
    }
    assert(encode_scalar(0x0Au32) =~= seq![0x0Au8]) by {
        assert((0x0Au32 & 0x7F) as u8 == 0x0Au8) by (bit_vector);
    }
    assert(encode_utf8(Seq::<char>::empty()) =~= Seq::<u8>::empty());
    let sep = seq!['\u{AC}'];
    assert(encode_utf8(sep) =~= seq![0xC2u8, 0xACu8]) by {
        assert(sep.drop_first() =~= Seq::<char>::empty());
        assert(sep[0] == '\u{AC}');
    }
    let dsep = seq!['d', '\u{AC}'];
    assert(encode_utf8(dsep) =~= seq![0x64u8, 0xC2u8, 0xACu8]) by {
        assert(dsep.drop_first() =~= sep);
        assert(dsep[0] == 'd');
    }
    assert(encode_utf8(head) =~= seq![0x69u8, 0x64u8, 0xC2u8, 0xACu8]) by {
        assert(head.drop_first() =~= dsep);
        assert(head[0] == 'i');
    }
    assert(encode_utf8(tail) =~= seq![0x0Au8]) by {
        assert(tail.drop_first() =~= Seq::<char>::empty());
        assert(tail[0] == '\n');
    }
    assert(encode_utf8(dec_chars(id)) =~= dec_digits(id)) by {
        lemma_dec_digits_ascii(id);
        assert(is_ascii_chars(dec_chars(id))) by {
            assert forall|t: int| 0 <= t < dec_chars(id).len() implies '\0' <= #[trigger] dec_chars(
                id,
            )[t] <= '\u{7f}' by {
                assert(dec_chars(id)[t] == dec_digits(id)[t] as char);
                assert(0x30 <= dec_digits(id)[t] <= 0x39);
            }
        }
        is_ascii_chars_encode_utf8(dec_chars(id));
        assert forall|t: int| 0 <= t < dec_digits(id).len() implies encode_utf8(dec_chars(id))[t]
            == dec_digits(id)[t] by {
            assert(encode_utf8(dec_chars(id))[t] == dec_chars(id)[t] as u8);
            assert(dec_chars(id)[t] == dec_digits(id)[t] as char);
        }
    }
    assert(encode_utf8(welcome_chars(id)) =~= welcome_bytes(id));
    encode_utf8_decode_utf8(welcome_chars(id));
}

/// 10 to the `k`.
pub open spec fn pow10(k: nat) -> nat
    decreases k,
{
    if k == 0 {
        1
    } else {
        10 * pow10((k - 1) as nat)
    }
}

/// An integer below `10^k` has at most `k` decimal digits.
proof fn lemma_dec_digits_len(n: nat, k: nat)
    requires
        k >= 1,
        n < pow10(k),
    ensures
        dec_digits(n).len() <= k,
    decreases k,
{
    if n < 10 {
    } else {
        assert(pow10(k) == 10 * pow10((k - 1) as nat));
        assert(n / 10 < pow10((k - 1) as nat)) by (nonlinear_arith)
            requires
                n < pow10(k),
                pow10(k) == 10 * pow10((k - 1) as nat),
                n >= 10,
        ;
        assert(pow10((k - 1) as nat) > 1) by {
            if k - 1 == 0 {
                assert(n / 10 >= 1);
            }
        }
        lemma_dec_digits_len(n / 10, (k - 1) as nat);
    }
}

/// Build the welcome message for an assigned id: the text whose UTF-8
/// bytes are `welcome_bytes(id)` (that is, `"id¬<id>\n"`).
pub fn welcome_message(id: u64) -> (r: String)
    ensures
        encode_utf8(r@) == welcome_bytes(id as nat),
        r@ == welcome_chars(id as nat),
        welcome_bytes(id as nat).len() <= 25,
{
    let mut b: Vec<u8> = Vec::new();
    b.push(0x69);
    b.push(0x64);
    b.push(0xC2);
    b.push(0xAC);
    let ghost head = b@;
    let mut d = u64_to_dec(id);
    b.append(&mut d);
    b.push(0x0A);
    proof {
        assert(b@ =~= welcome_bytes(id as nat));
        lemma_welcome_head_valid();
        assert(valid_utf8(head)) by {
            assert(head =~= seq![0x69u8, 0x64u8, 0xC2u8, 0xACu8]);
        }
        lemma_dec_digits_ascii(id as nat);
        lemma_ascii_block_valid(head, dec_digits(id as nat));
        lemma_ascii_block_valid(head + dec_digits(id as nat), seq![0x0Au8]);
        assert((head + dec_digits(id as nat)) + seq![0x0Au8] =~= welcome_bytes(id as nat));
        reveal_with_fuel(pow10, 21);
        assert(pow10(20) == 100000000000000000000nat);
        lemma_dec_digits_len(id as nat, 20);
        assert(welcome_bytes(id as nat).len() <= 25);
        lemma_welcome_bytes_are_welcome_chars(id as nat);
    }
    let r = string_from_utf8(b);
    match r {
        Some(s) => s,
        None => {
            proof {
                assert(false);
            }
            String::new()
        },
    }
}

/// The four bytes `"id¬"` encodes to are valid UTF-8: two ASCII bytes
/// and one two-byte scalar (`C2 AC`, the separator).
proof fn lemma_welcome_head_valid()
    ensures
        valid_utf8(seq![0x69u8, 0x64u8, 0xC2u8, 0xACu8]),
{
    let sep = seq![0xC2u8, 0xACu8];
    assert(valid_utf8(sep)) by {
        assert(sep.len() == 2 && sep[0] == 0xC2u8 && sep[1] == 0xACu8);
        assert(is_leading_byte_width_2(0xC2u8));
        assert(is_continuation_byte(0xACu8));
        assert(!is_leading_byte_width_1(0xC2u8));
        assert(valid_leading_and_continuation_bytes_first_codepoint(sep));
        assert(length_of_first_codepoint(sep) == 2);
        assert(codepoint_width_2(0xC2u8, 0xACu8) == 0xACu32) by {
            assert(0xC2u8 & 0x1F == 0x02u8) by (bit_vector);
            assert(0xACu8 & 0x3F == 0x2Cu8) by (bit_vector);
            assert(((0x02u8 as u32) << 6) | (0x2Cu8 as u32) == 0xACu32) by (bit_vector);
        }
        assert(decode_first_codepoint(sep) == 0xACu32);
        assert(not_overlong_encoding(0xACu32, 2));
        assert(not_surrogate(0xACu32));
        assert(valid_first_scalar(sep));
        assert(length_of_first_scalar(sep) == 2);
        assert(pop_first_scalar(sep) =~= Seq::<u8>::empty());
        assert(valid_utf8(Seq::<u8>::empty()));
    }
    let ascii = seq![0x69u8, 0x64u8];
    lemma_ascii_block_valid(Seq::<u8>::empty(), ascii);
    assert(valid_utf8(ascii)) by {
        assert(Seq::<u8>::empty() + ascii =~= ascii);
    }
    vstd::utf8::valid_utf8_concat(ascii, sep);
    assert(ascii + sep =~= seq![0x69u8, 0x64u8, 0xC2u8, 0xACu8]);
}

/// The addresses a message from `sender` is relayed to: all of `addrs`
/// but the sender itself, in order.
pub open spec fn others(addrs: Seq<u64>, sender: u64) -> Seq<u64>
    decreases addrs.len(),
{
    if addrs.len() == 0 {
        seq![]
    } else if addrs[0] != sender {
        seq![addrs[0]] + others(addrs.skip(1), sender)
    } else {
        others(addrs.skip(1), sender)
    }
}

/// Whatever `others` keeps was present and is not the sender.
pub proof fn lemma_others_subset(addrs: Seq<u64>, sender: u64, x: u64)
    requires
        others(addrs, sender).contains(x),
    ensures
        addrs.contains(x),
        x != sender,
    decreases addrs.len(),
{
    if addrs.len() == 0 {
    } else {
        let rest = others(addrs.skip(1), sender);
        if addrs[0] != sender && x == addrs[0] {
            assert(addrs.contains(x)) by {
                assert(addrs[0] == x);
            }
        } else {
            assert(rest.contains(x)) by {
                let k = choose|k: int|
                    0 <= k < others(addrs, sender).len() && others(addrs, sender)[k] == x;
                if addrs[0] != sender {
                    assert(others(addrs, sender)[k] == rest[k - 1]);
                }
            }
            lemma_others_subset(addrs.skip(1), sender, x);
            let k = choose|k: int| 0 <= k < addrs.skip(1).len() && addrs.skip(1)[k] == x;
            assert(addrs[k + 1] == x);
        }
    }
}

/// One connected peer as the relay tracks it: the table key is the
/// peer's network address (an opaque token handed in by the listener),
/// beside the assigned id and the username from the handshake.
pub struct TableEntry {
    pub addr: u64,
    pub id: u64,
    pub username: String,
}

/// The shared peer table: one entry per live connection, keyed by
/// address. Ids come from a counter that never reuses a value, so two
/// peers never share an id even across departures.
pub struct PeerTable {
    entries: Vec<TableEntry>,
    next_id: u64,
}

impl PeerTable {
    /// The table's contents: (address, id, username) per entry, in
    /// insertion order.
    pub closed spec fn view_spec(self) -> Seq<(u64, u64, Seq<char>)> {
        self.entries@.map_values(|e: TableEntry| (e.addr, e.id, e.username@))
    }

    /// The addresses present, in insertion order.
    pub open spec fn addrs(self) -> Seq<u64> {
        self.view_spec().map_values(|t: (u64, u64, Seq<char>)| t.0)
    }

    pub open spec fn contains_addr(self, addr: u64) -> bool {
        self.addrs().contains(addr)
    }

    pub closed spec fn next_id_spec(self) -> u64 {
        self.next_id
    }

    /// Addresses are distinct: one table entry per live connection.
    pub open spec fn wf(self) -> bool {
        forall|i: int, j: int|
            0 <= i < j < self.addrs().len() ==> self.addrs()[i] != self.addrs()[j]
    }

    pub fn new() -> (r: PeerTable)
        ensures
            r.wf(),
            r.view_spec() =~= Seq::<(u64, u64, Seq<char>)>::empty(),
            r.next_id_spec() == 0,
    {
        let r = PeerTable { entries: Vec::new(), next_id: 0 };
        proof {
            assert(r.view_spec() =~= Seq::<(u64, u64, Seq<char>)>::empty());
        }
        r
    }

    pub fn len(&self) -> (r: usize)
        ensures
            r == self.view_spec().len(),
    {
        self.entries.len()
    }

    /// Whether a connection is already tracked under this address.
    pub fn has_addr(&self, addr: u64) -> (r: bool)
        ensures
            r == self.contains_addr(addr),
    {
        let n = self.entries.len();
        let mut i: usize = 0;
        while i < n
            invariant
                0 <= i <= n,
                n == self.view_spec().len(),
                forall|t: int| 0 <= t < i ==> self.addrs()[t] != addr,
            decreases n - i,
        {
            if self.entries[i].addr == addr {
                proof {
                    assert(self.addrs()[i as int] == addr);
                }
                return true;
            }
            i = i + 1;
        }
        proof {
            if self.contains_addr(addr) {
                let w = choose|w: int| 0 <= w < self.addrs().len() && self.addrs()[w] == addr;
            }
        }
        false
    }

    /// The id the next accepted connection will receive.
    pub fn next_id(&self) -> (r: u64)
        ensures
            r == self.next_id_spec(),
    {
        self.next_id
    }

    /// Accept one new connection: assign the next id (0 to the first,
    /// 1 to the second, never reused) and record the peer under its
    /// address.
    pub fn accept_peer(&mut self, addr: u64, username: String) -> (id: u64)
        requires
            old(self).wf(),
            !old(self).contains_addr(addr),
            old(self).next_id_spec() < u64::MAX,
            old(self).view_spec().len() < usize::MAX,
        ensures
            final(self).wf(),
            id == old(self).next_id_spec(),
            final(self).next_id_spec() == old(self).next_id_spec() + 1,
            final(self).view_spec() =~= old(self).view_spec().push((addr, id, username@)),
    {
        let id = self.next_id;
        self.next_id = self.next_id + 1;
        self.entries.push(TableEntry { addr, id, username });
        proof {
            assert(self.view_spec() =~= old(self).view_spec().push((addr, id, username@)));
            assert(self.addrs() =~= old(self).addrs().push(addr));
            assert forall|i: int, j: int|
                0 <= i < j < self.addrs().len() implies self.addrs()[i] != self.addrs()[j] by {
                if j == self.addrs().len() - 1 {
                    assert(old(self).addrs().contains(old(self).addrs()[i]));
                }
            }
        }
        id
    }

    /// Drop the peer at an address on stream termination; reports
    /// whether one was present. Later broadcasts no longer target it.
    pub fn remove_peer(&mut self, addr: u64) -> (found: bool)
        requires
            old(self).wf(),
        ensures
            final(self).wf(),
            final(self).next_id_spec() == old(self).next_id_spec(),
            found <==> old(self).contains_addr(addr),
            !found ==> final(self).view_spec() == old(self).view_spec(),
            found ==> exists|k: int|
                0 <= k < old(self).view_spec().len() && old(self).view_spec()[k].0 == addr
                    && final(self).view_spec() =~= old(self).view_spec().remove(k),
            !final(self).contains_addr(addr),
    {
        let n = self.entries.len();
        let mut i: usize = 0;
        while i < n
            invariant
                0 <= i <= n,
                n == self.view_spec().len(),
                *self == *old(self),
                old(self).wf(),
                forall|t: int| 0 <= t < i ==> self.view_spec()[t].0 != addr,
            decreases n - i,
        {
            if self.entries[i].addr == addr {
                self.entries.remove(i);
                proof {
                    let ghost k = i as int;
                    assert(self.view_spec() =~= old(self).view_spec().remove(k));
                    assert(old(self).addrs()[k] == addr);
                    assert(old(self).contains_addr(addr));
                    assert(self.addrs() =~= old(self).addrs().remove(k));
                    assert forall|t: int|
                        0 <= t < self.addrs().len() implies self.addrs()[t] != addr by {
                        if t < k {
                            assert(self.addrs()[t] == old(self).addrs()[t]);
                        } else {
                            assert(self.addrs()[t] == old(self).addrs()[t + 1]);
                            assert(old(self).addrs()[k] != old(self).addrs()[t + 1]);
                        }
                    }
                    assert(!self.contains_addr(addr));
                    assert forall|s: int, t: int|
                        0 <= s < t < self.addrs().len() implies self.addrs()[s]
                        != self.addrs()[t] by {
                        let so: int = if s < k {
                            s
                        } else {
                            s + 1
                        };
                        let to: int = if t < k {
                            t
                        } else {
                            t + 1
                        };
                        assert(self.addrs()[s] == old(self).addrs()[so]);
                        assert(self.addrs()[t] == old(self).addrs()[to]);
                        assert(old(self).addrs()[so] != old(self).addrs()[to]);
                    }
                }
                return true;
            }
            i = i + 1;
        }
        proof {
            if self.contains_addr(addr) {
                let w = choose|w: int| 0 <= w < self.addrs().len() && self.addrs()[w] == addr;
                assert(self.view_spec()[w].0 == addr);
            }
        }
        false
    }

    /// Whom a message from `sender` is relayed to: every *other*
    /// connected peer's address, in table order. The server never
    /// decrypts what it relays.
    pub fn broadcast_targets(&self, sender: u64) -> (r: Vec<u64>)
        ensures
            r@ == others(self.addrs(), sender),
    {
        let mut r: Vec<u64> = Vec::new();
        let n = self.entries.len();
        let mut i: usize = 0;
        proof {
            assert(self.addrs().skip(0) =~= self.addrs());
        }
        while i < n
            invariant
                0 <= i <= n,
                n == self.addrs().len(),
                others(self.addrs(), sender) == r@ + others(self.addrs().skip(i as int), sender),
            decreases n - i,
        {
            let ghost rest = self.addrs().skip(i as int);
            let a = self.entries[i].addr;
            proof {
                assert(rest[0] == self.addrs()[i as int]);
                assert(rest[0] == a);
                assert(rest.skip(1) =~= self.addrs().skip(i + 1));
                if a != sender {
                    assert(others(rest, sender) =~= seq![a] + others(rest.skip(1), sender));
                } else {
                    assert(others(rest, sender) =~= others(rest.skip(1), sender));
                }
            }
            if a != sender {
                r.push(a);
            }
            i = i + 1;
        }
        proof {
            assert(self.addrs().skip(n as int) =~= Seq::<u64>::empty());
            assert(r@ =~= r@ + others(self.addrs().skip(n as int), sender));
        }
        r
    }

    /// An address no longer in the table is targeted by no broadcast.
    pub proof fn lemma_removed_not_targeted(self, addr: u64, sender: u64)
        requires
            !self.contains_addr(addr),
        ensures
            !others(self.addrs(), sender).contains(addr),
    {
        if others(self.addrs(), sender).contains(addr) {
            lemma_others_subset(self.addrs(), sender, addr);
        }
    }
}

/// The signaling relay server: a listen address, and the cipher key it
/// generates for the whole server lifetime when it starts.
pub struct SignalingServer {
    address: String,
    port: u32,
    cipher_key: Option<String>,
}

impl SignalingServer {
    pub closed spec fn address_spec(self) -> Seq<char> {
        self.address@
    }

    pub closed spec fn port_spec(self) -> u32 {
        self.port
    }

    pub closed spec fn cipher_key_spec(self) -> Option<Seq<char>> {
        match self.cipher_key {
            Some(k) => Some(k@),
            None => None,
        }
    }

    pub fn new(listen_addr: String, listen_port: u32) -> (r: SignalingServer)
        ensures
            r.address_spec() == listen_addr@,
            r.port_spec() == listen_port,
            r.cipher_key_spec() is None,
    {
        SignalingServer { address: listen_addr, port: listen_port, cipher_key: None }
    }

    pub fn address(&self) -> (r: &String)
        ensures
            r@ == self.address_spec(),
    {
        &self.address
    }

    pub fn port(&self) -> (r: u32)
        ensures
            r == self.port_spec(),
    {
        self.port
    }

    /// Generate the server's cipher for this lifetime: one fresh
    /// random key, remembered so `get_cipher_key` can show it to the
    /// user for out-of-band sharing.
    pub fn init_cipher(&mut self) -> (r: AES)
        ensures
            key_wf(r.key_view()),
            final(self).cipher_key_spec() == Some(r.key_view()),
            final(self).address_spec() == old(self).address_spec(),
            final(self).port_spec() == old(self).port_spec(),
    {
        let cipher = AES::new(None);
        self.cipher_key = Some(cipher.get_key().clone());
        cipher
    }

    /// The cipher key generated at startup; the empty string while the
    /// server has not been started yet.
    pub fn get_cipher_key(&self) -> (r: String)
        ensures
            self.cipher_key_spec() is Some ==> r@ == self.cipher_key_spec().unwrap(),
            self.cipher_key_spec() is None ==> r@ == Seq::<char>::empty(),
    {
        match &self.cipher_key {
            Some(k) => k.clone(),
            None => String::new(),
        }
    }
}

/// Encrypt the welcome message for an assigned id under the server's
/// cipher. Succeeds exactly when the key is well-formed, and then the
/// blob decrypts under the same key to exactly `welcome_chars(id)`,
/// that is `"id¬<id>\n"`.
pub fn encrypt_welcome(cipher: &AES, id: u64) -> (r: Result<String, CryptoError>)
    ensures
        r is Ok <==> key_wf(cipher.key_view()),
        r is Ok ==> decrypt_blob_spec(cipher.key_view(), r.unwrap()@) == Some(
            welcome_chars(id as nat),
        ),
{
    let msg = welcome_message(id);
    proof {
        assert(encode_utf8(msg@).len() <= P_MAX_BYTES);
    }
    cipher.encrypt(msg)
}

} // verus!
