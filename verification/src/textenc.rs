//! Small text encodings the signaling layer speaks: decimal rendering
//! of peer ids, percent-encoding of usernames for the connection URL,
//! and byte-level string comparison.
use vstd::prelude::*;
use vstd::utf8::*;

verus! {

/// Element-wise equality of two byte slices.
pub fn bytes_eq(a: &[u8], b: &[u8]) -> (r: bool)
    ensures
        r <==> a@ =~= b@,
{
    if a.len() != b.len() {
        return false;
    }
    let n = a.len();
    let mut i: usize = 0;
    while i < n
        invariant
            0 <= i <= n,
            n == a@.len() == b@.len(),
            forall|j: int| 0 <= j < i ==> a@[j] == b@[j],
        decreases n - i,
    {
        if a[i] != b[i] {
            return false;
        }
        i = i + 1;
    }
    proof {
        assert(a@ =~= b@);
    }
    true
}

/// Equality of two strings, decided on their UTF-8 bytes.
pub fn str_eq(a: &str, b: &str) -> (r: bool)
    ensures
        r <==> a@ == b@,
{
    let r = bytes_eq(a.as_bytes(), b.as_bytes());
    proof {
        encode_utf8_decode_utf8(a@);
        encode_utf8_decode_utf8(b@);
    }
    r
}

/// The decimal digits (ASCII) of `n`, most significant first.
pub open spec fn dec_digits(n: nat) -> Seq<u8>
    decreases n,
{
    if n < 10 {
        seq![(0x30 + n) as u8]
    } else {
        dec_digits(n / 10).push((0x30 + n % 10) as u8)
    }
}

/// Render an integer in decimal, as ASCII digit bytes.
pub fn u64_to_dec(n: u64) -> (r: Vec<u8>)
    ensures
        r@ == dec_digits(n as nat),
{
    if n < 10 {
        let mut r: Vec<u8> = Vec::new();
        r.push(0x30 + (n as u8));
        proof {
            assert(r@ =~= dec_digits(n as nat));
        }
        return r;
    }
    let mut out: Vec<u8> = Vec::new();
    let mut m: u64 = n;
    while m > 0
        invariant
            m > 0 ==> dec_digits(n as nat) =~= dec_digits(m as nat) + out@,
            m == 0 ==> dec_digits(n as nat) =~= out@,
        decreases m,
    {
        let d = (m % 10) as u8;
        let ghost pre = out@;
        out.insert(0, 0x30 + d);
        proof {
            assert(out@ =~= seq![(0x30 + (m as nat) % 10) as u8] + pre);
            if m >= 10 {
                assert(dec_digits(m as nat) == dec_digits((m as nat) / 10).push(
                    (0x30 + (m as nat) % 10) as u8,
                ));
                assert(dec_digits((m / 10) as nat) + out@ =~= dec_digits(m as nat) + pre);
            } else {
                assert(dec_digits(m as nat) =~= seq![(0x30 + (m as nat) % 10) as u8]);
                assert(out@ =~= dec_digits(m as nat) + pre);
            }
        }
        m = m / 10;
    }
    out
}

/// Bytes that travel unescaped in percent-encoding: ASCII letters,
/// digits, `-`, `.`, `_` and `~`.
pub open spec fn is_unreserved(b: u8) -> bool {
    ||| 0x41 <= b <= 0x5A
    ||| 0x61 <= b <= 0x7A
    ||| 0x30 <= b <= 0x39
    ||| b == 0x2D
    ||| b == 0x2E
    ||| b == 0x5F
    ||| b == 0x7E
}

/// The uppercase hex digit (ASCII) of a value below 16.
pub open spec fn hex_digit(v: u8) -> u8
    recommends
        v < 16,
{
    if v < 10 {
        (0x30 + v) as u8
    } else {
        (0x41 + (v - 10)) as u8
    }
}

/// The value of one hex digit byte, case-insensitive; `None` on
/// anything that is not a hex digit.
pub open spec fn hex_val(b: u8) -> Option<u8> {
    if 0x30 <= b <= 0x39 {
        Some((b - 0x30) as u8)
    } else if 0x41 <= b <= 0x46 {
        Some((b - 0x41 + 10) as u8)
    } else if 0x61 <= b <= 0x66 {
        Some((b - 0x61 + 10) as u8)
    } else {
        None
    }
}

/// The percent-encoding of one byte: itself when unreserved, else
/// `%` and two uppercase hex digits.
pub open spec fn pct_encode1(b: u8) -> Seq<u8> {
    if is_unreserved(b) {
        seq![b]
    } else {
        seq![0x25u8, hex_digit(b / 16), hex_digit(b % 16)]
    }
}

/// The percent-encoding of a byte sequence.
pub open spec fn pct_encoded(s: Seq<u8>) -> Seq<u8>
    decreases s.len(),
{
    if s.len() == 0 {
        seq![]
    } else {
        pct_encode1(s[0]) + pct_encoded(s.skip(1))
    }
}

/// Percent-decoding: `%` followed by two hex digits becomes one byte;
/// anything else — a lone or malformed escape included — passes
/// through unchanged.
pub open spec fn pct_decoded(s: Seq<u8>) -> Seq<u8>
    decreases s.len(),
{
    if s.len() == 0 {
        seq![]
    } else if s[0] == 0x25 && s.len() >= 3 && hex_val(s[1]) is Some && hex_val(s[2]) is Some {
        seq![(hex_val(s[1]).unwrap() * 16 + hex_val(s[2]).unwrap()) as u8] + pct_decoded(s.skip(3))
    } else {
        seq![s[0]] + pct_decoded(s.skip(1))
    }
}

/// Encoding distributes over concatenation.
pub proof fn lemma_pct_encoded_concat(a: Seq<u8>, b: Seq<u8>)
    ensures
        pct_encoded(a + b) == pct_encoded(a) + pct_encoded(b),
    decreases a.len(),
{
    if a.len() == 0 {
        assert(a + b =~= b);
        assert(pct_encoded(a) + pct_encoded(b) =~= pct_encoded(b));
    } else {
        lemma_pct_encoded_concat(a.skip(1), b);
        assert((a + b).skip(1) =~= a.skip(1) + b);
        assert(pct_encode1((a + b)[0]) == pct_encode1(a[0]));
        assert(pct_encoded(a) + pct_encoded(b) =~= pct_encode1(a[0]) + (pct_encoded(a.skip(1))
            + pct_encoded(b)));
    }
}

/// Percent-encode a byte sequence (the form `urlencoding` produces:
/// unreserved bytes unescaped, uppercase hex escapes otherwise).
pub fn pct_encode(s: &Vec<u8>) -> (r: Vec<u8>)
    ensures
        r@ == pct_encoded(s@),
{
    let mut r: Vec<u8> = Vec::new();
    let n = s.len();
    let mut i: usize = 0;
    proof {
        assert(s@.take(0) =~= Seq::<u8>::empty());
        assert(pct_encoded(s@.take(0)) =~= Seq::<u8>::empty());
    }
    while i < n
        invariant
            0 <= i <= n,
            n == s@.len(),
            r@ == pct_encoded(s@.take(i as int)),
        decreases n - i,
    {
        let b = s[i];
        let unreserved = (0x41 <= b && b <= 0x5A) || (0x61 <= b && b <= 0x7A) || (0x30 <= b && b
            <= 0x39) || b == 0x2D || b == 0x2E || b == 0x5F || b == 0x7E;
        if unreserved {
            r.push(b);
        } else {
            r.push(0x25);
            let hi = b / 16;
            let lo = b % 16;
            r.push(if hi < 10 { 0x30 + hi } else { 0x41 + (hi - 10) });
            r.push(if lo < 10 { 0x30 + lo } else { 0x41 + (lo - 10) });
        }
        proof {
            lemma_pct_encoded_concat(s@.take(i as int), seq![b]);
            assert(s@.take(i + 1) =~= s@.take(i as int) + seq![b]);
            assert(pct_encoded(seq![b]) =~= pct_encode1(b) + pct_encoded(seq![b].skip(1)));
            assert(seq![b].skip(1) =~= Seq::<u8>::empty());
            assert(r@ =~= pct_encoded(s@.take(i as int)) + pct_encode1(b));
        }
        i = i + 1;
    }
    proof {
        assert(s@.take(n as int) =~= s@);
    }
    r
}

/// Percent-decode a byte sequence, escape by escape; malformed escapes
/// pass through unchanged.
pub fn pct_decode(s: &Vec<u8>) -> (r: Vec<u8>)
    ensures
        r@ == pct_decoded(s@),
{
    let mut r: Vec<u8> = Vec::new();
    let n = s.len();
    let mut i: usize = 0;
    proof {
        assert(s@.skip(0) =~= s@);
    }
    while i < n
        invariant
            0 <= i <= n,
            n == s@.len(),
            pct_decoded(s@) == r@ + pct_decoded(s@.skip(i as int)),
        decreases n - i,
    {
        let ghost rest = s@.skip(i as int);
        let b = s[i];
        proof {
            assert(rest[0] == b);
        }
        let mut step: usize = 1;
        if b == 0x25 && n - i > 2 {
            let h1 = hex_val_exec(s[i + 1]);
            let h2 = hex_val_exec(s[i + 2]);
            match (h1, h2) {
                (Some(v1), Some(v2)) => {
                    r.push(v1 * 16 + v2);
                    step = 3;
                    proof {
                        assert(rest.len() >= 3);
                        assert(rest[1] == s@[i + 1] && rest[2] == s@[i + 2]);
                        assert(rest.skip(3) =~= s@.skip(i + 3));
                    }
                },
                _ => {
                    r.push(b);
                    proof {
                        assert(rest[1] == s@[i + 1] && rest[2] == s@[i + 2]);
                        assert(!(rest[0] == 0x25 && rest.len() >= 3 && hex_val(rest[1]) is Some
                            && hex_val(rest[2]) is Some));
                        assert(rest.skip(1) =~= s@.skip(i + 1));
                    }
                },
            }
        } else {
            r.push(b);
            proof {
                assert(!(rest[0] == 0x25 && rest.len() >= 3 && hex_val(rest[1]) is Some
                    && hex_val(rest[2]) is Some));
                assert(rest.skip(1) =~= s@.skip(i + 1));
            }
        }
        i = i + step;
    }
    proof {
        assert(s@.skip(n as int) =~= Seq::<u8>::empty());
        assert(r@ =~= r@ + pct_decoded(s@.skip(n as int)));
    }
    r
}

/// The value of one hex digit byte, case-insensitive.
pub fn hex_val_exec(b: u8) -> (r: Option<u8>)
    ensures
        r == hex_val(b),
{
    if 0x30 <= b && b <= 0x39 {
        Some(b - 0x30)
    } else if 0x41 <= b && b <= 0x46 {
        Some(b - 0x41 + 10)
    } else if 0x61 <= b && b <= 0x66 {
        Some(b - 0x61 + 10)
    } else {
        None
    }
}

/// Every decimal digit byte is an ASCII digit.
pub proof fn lemma_dec_digits_ascii(n: nat)
    ensures
        forall|t: int|
            0 <= t < dec_digits(n).len() ==> 0x30 <= #[trigger] dec_digits(n)[t] <= 0x39,
    decreases n,
{
    if n < 10 {
        assert(dec_digits(n) == seq![(0x30 + n) as u8]);
    } else {
        lemma_dec_digits_ascii(n / 10);
        let prefix = dec_digits(n / 10);
        let last = (0x30 + n % 10) as u8;
        assert(dec_digits(n) == prefix.push(last));
        assert(0x30 <= last <= 0x39);
        assert forall|t: int| 0 <= t < dec_digits(n).len() implies 0x30 <= #[trigger] dec_digits(
            n,
        )[t] <= 0x39 by {
            if t < prefix.len() {
                assert(dec_digits(n)[t] == prefix[t]);
            } else {
                assert(dec_digits(n)[t] == last);
            }
        }
    }
}

/// Appending a block of ASCII bytes keeps UTF-8 validity.
pub proof fn lemma_ascii_block_valid(head: Seq<u8>, block: Seq<u8>)
    requires
        vstd::utf8::valid_utf8(head),
        forall|t: int| 0 <= t < block.len() ==> #[trigger] block[t] <= 0x7F,
    ensures
        vstd::utf8::valid_utf8(head + block),
    decreases block.len(),
{
    if block.len() == 0 {
        assert(head + block =~= head);
    } else {
        let first = block.take(1);
        let b = block[0];
        assert(vstd::utf8::valid_utf8(first)) by {
            assert(vstd::utf8::is_leading_byte_width_1(b));
            assert(first.len() == 1);
            assert(first[0] == b);
            assert(vstd::utf8::not_surrogate(vstd::utf8::codepoint_width_1(b))) by {
                assert(b & 0x7F <= 0x7F) by (bit_vector);
            }
            assert(vstd::utf8::valid_first_scalar(first));
            assert(vstd::utf8::length_of_first_scalar(first) == 1);
            assert(vstd::utf8::pop_first_scalar(first) =~= Seq::<u8>::empty());
            assert(vstd::utf8::valid_utf8(Seq::<u8>::empty()));
        }
        vstd::utf8::valid_utf8_concat(head, first);
        lemma_ascii_block_valid(head + first, block.skip(1));
        assert((head + first) + block.skip(1) =~= head + block);
    }
}

/// The index of the first occurrence of `b` in `s`, or `s.len()` when
/// `s` does not contain `b`.
pub open spec fn find_byte(s: Seq<u8>, b: u8) -> int
    decreases s.len(),
{
    if s.len() == 0 {
        0
    } else if s[0] == b {
        0
    } else {
        1 + find_byte(s.skip(1), b)
    }
}

/// `find_byte` points at the first occurrence, or just past the end.
pub proof fn lemma_find_byte(s: Seq<u8>, b: u8)
    ensures
        0 <= find_byte(s, b) <= s.len(),
        find_byte(s, b) < s.len() ==> s[find_byte(s, b)] == b,
        forall|j: int| 0 <= j < find_byte(s, b) ==> s[j] != b,
    decreases s.len(),
{
    if s.len() == 0 {
    } else if s[0] == b {
    } else {
        lemma_find_byte(s.skip(1), b);
        assert forall|j: int| 0 <= j < find_byte(s, b) implies s[j] != b by {
            if j > 0 {
                assert(s.skip(1)[j - 1] != b);
            }
        }
    }
}

/// Any index with `find_byte`'s characteristics is `find_byte`.
pub proof fn lemma_find_byte_unique(s: Seq<u8>, b: u8, k: int)
    requires
        0 <= k <= s.len(),
        k < s.len() ==> s[k] == b,
        forall|j: int| 0 <= j < k ==> s[j] != b,
    ensures
        find_byte(s, b) == k,
{
    lemma_find_byte(s, b);
    let f = find_byte(s, b);
    if f < k {
        assert(s[f] != b);
    } else if k < f {
        assert(s[k] != b);
    }
}

/// Percent-encoded output never contains a query delimiter: `&` and
/// `=` are not unreserved, and escapes are `%` plus hex digits.
pub proof fn lemma_pct_encoded_no_delimiters(s: Seq<u8>)
    ensures
        forall|t: int|
            0 <= t < pct_encoded(s).len() ==> #[trigger] pct_encoded(s)[t] != 0x26
                && pct_encoded(s)[t] != 0x3D,
    decreases s.len(),
{
    if s.len() == 0 {
    } else {
        lemma_pct_encoded_no_delimiters(s.skip(1));
        let head = pct_encode1(s[0]);
        assert(forall|t: int|
            0 <= t < head.len() ==> #[trigger] head[t] != 0x26 && head[t] != 0x3D) by {
            if !is_unreserved(s[0]) {
                assert(head[0] == 0x25u8);
                assert(head.len() == 3);
            }
        }
        assert forall|t: int| 0 <= t < pct_encoded(s).len() implies #[trigger] pct_encoded(s)[t]
            != 0x26 && pct_encoded(s)[t] != 0x3D by {
            if t < head.len() {
                assert(pct_encoded(s)[t] == head[t]);
            } else {
                assert(pct_encoded(s)[t] == pct_encoded(s.skip(1))[t - head.len()]);
            }
        }
    }
}

/// Decoding inverts encoding: percent-encoding never loses a byte.
pub proof fn lemma_pct_decode_encode(s: Seq<u8>)
    ensures
        pct_decoded(pct_encoded(s)) == s,
    decreases s.len(),
{
    if s.len() == 0 {
        assert(pct_decoded(pct_encoded(s)) =~= s);
    } else {
        lemma_pct_decode_encode(s.skip(1));
        let b = s[0];
        let e = pct_encoded(s);
        assert(e == pct_encode1(b) + pct_encoded(s.skip(1)));
        if is_unreserved(b) {
            assert(e[0] == b);
            assert(b != 0x25);
            assert(e.skip(1) =~= pct_encoded(s.skip(1)));
            assert(pct_decoded(e) =~= seq![b] + pct_decoded(pct_encoded(s.skip(1))));
            assert(pct_decoded(e) =~= s);
        } else {
            assert(e[0] == 0x25);
            assert(e.len() >= 3);
            assert(e[1] == hex_digit(b / 16) && e[2] == hex_digit(b % 16));
            assert(b / 16 < 16 && b % 16 < 16);
            assert(hex_val(hex_digit(b / 16)) == Some((b / 16) as u8));
            assert(hex_val(hex_digit(b % 16)) == Some((b % 16) as u8));
            assert((b / 16) * 16 + b % 16 == b) by (nonlinear_arith)
                requires
                    b < 256,
            ;
            assert(e.skip(3) =~= pct_encoded(s.skip(1)));
            assert(pct_decoded(e) =~= seq![b] + pct_decoded(pct_encoded(s.skip(1))));
            assert(pct_decoded(e) =~= s);
        }
    }
}

} // verus!
