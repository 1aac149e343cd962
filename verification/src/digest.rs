//! Content addressing: SHA-256 digests rendered as lowercase hex.

use sha2::{Digest, Sha256};
use vstd::prelude::*;
use vstd::string::*;
use vstd::utf8::*;

verus! {

/// The SHA-256 digest of a byte sequence, as `sha2` computes it.
pub uninterp spec fn sha256_spec(data: Seq<u8>) -> Seq<u8>;

/// `sha2::Sha256::digest`: the SHA-256 digest of `data`. The contract names
/// the digest and states its documented length of 32 bytes; nothing else
/// about the hash function is claimed.
#[verifier::external_body]
fn sha256(data: &[u8]) -> (r: Vec<u8>)
    ensures
        r@ == sha256_spec(data@),
        r@.len() == 32,
{
    Sha256::digest(data).to_vec()
}

pub open spec fn hex_char(n: u8) -> char {
    if n < 10 {
        (('0' as u8) + n) as char
    } else {
        (('a' as u8) + (n - 10)) as char
    }
}

/// Two lowercase hex digits per byte, most significant nibble first.
pub open spec fn hex_encode(bytes: Seq<u8>) -> Seq<char>
    decreases bytes.len(),
{
    if bytes.len() == 0 {
        Seq::empty()
    } else {
        hex_encode(bytes.drop_last()) + seq![
            hex_char(bytes.last() / 16),
            hex_char(bytes.last() % 16),
        ]
    }
}

/// The lowercase hex rendering of the SHA-256 digest of `bytes`.
pub open spec fn hex_digest_spec(bytes: Seq<u8>) -> Seq<char> {
    hex_encode(sha256_spec(bytes))
}

fn hex_digit(n: u8) -> (r: &'static str)
    requires
        n < 16,
    ensures
        r@ == seq![hex_char(n)],
{
    proof {
        reveal_strlit("0");
        reveal_strlit("1");
        reveal_strlit("2");
        reveal_strlit("3");
        reveal_strlit("4");
        reveal_strlit("5");
        reveal_strlit("6");
        reveal_strlit("7");
        reveal_strlit("8");
        reveal_strlit("9");
        reveal_strlit("a");
        reveal_strlit("b");
        reveal_strlit("c");
        reveal_strlit("d");
        reveal_strlit("e");
        reveal_strlit("f");
    }
    match n {
        0 => "0",
        1 => "1",
        2 => "2",
        3 => "3",
        4 => "4",
        5 => "5",
        6 => "6",
        7 => "7",
        8 => "8",
        9 => "9",
        10 => "a",
        11 => "b",
        12 => "c",
        13 => "d",
        14 => "e",
        _ => "f",
    }
}

/// Lowercase hex rendering of a byte sequence.
pub fn hex_string(bytes: &Vec<u8>) -> (r: String)
    ensures
        r@ == hex_encode(bytes@),
{
    let mut out = String::new();
    let mut i: usize = 0;
    while i < bytes.len()
        invariant
            i <= bytes.len(),
            out@ == hex_encode(bytes@.take(i as int)),
        decreases bytes.len() - i,
    {
        let b = bytes[i];
        out.append(hex_digit(b / 16));
        out.append(hex_digit(b % 16));
        proof {
            let t = bytes@.take(i + 1);
            assert(t.drop_last() =~= bytes@.take(i as int));
            assert(t.last() == b);
        }
        i = i + 1;
    }
    assert(bytes@.take(bytes.len() as int) =~= bytes@);
    out
}

/// The content address of `bytes`: its SHA-256 digest as 64 lowercase hex
/// characters.
pub fn hex_digest(bytes: &[u8]) -> (r: String)
    ensures
        r@ == hex_digest_spec(bytes@),
        r@.len() == 64,
        is_sha256_hex_spec(r@),
{
    let d = sha256(bytes);
    let r = hex_string(&d);
    proof {
        lemma_hex_encode_len(d@);
        lemma_hex_digest_is_sha256_hex(bytes@);
    }
    r
}

pub proof fn lemma_hex_encode_len(bytes: Seq<u8>)
    ensures
        hex_encode(bytes).len() == 2 * bytes.len(),
    decreases bytes.len(),
{
    if bytes.len() > 0 {
        lemma_hex_encode_len(bytes.drop_last());
    }
}

pub proof fn lemma_hex_encode_chars(bytes: Seq<u8>)
    ensures
        forall|i: int|
            0 <= i < hex_encode(bytes).len() ==> is_hex_lower(#[trigger] hex_encode(bytes)[i]),
    decreases bytes.len(),
{
    lemma_hex_encode_len(bytes);
    if bytes.len() > 0 {
        let p = bytes.drop_last();
        lemma_hex_encode_chars(p);
        lemma_hex_encode_len(p);
        let tail = seq![hex_char(bytes.last() / 16), hex_char(bytes.last() % 16)];
        assert forall|i: int| 0 <= i < hex_encode(bytes).len() implies is_hex_lower(
            #[trigger] hex_encode(bytes)[i],
        ) by {
            if i < hex_encode(p).len() {
                assert(hex_encode(bytes)[i] == hex_encode(p)[i]);
            } else {
                assert(hex_encode(bytes)[i] == tail[i - hex_encode(p).len()]);
            }
        }
    }
}

pub open spec fn is_hex_lower(c: char) -> bool {
    ('0' <= c <= '9') || ('a' <= c <= 'f')
}

pub open spec fn is_hex_byte(b: u8) -> bool {
    (48 <= b <= 57) || (65 <= b <= 70) || (97 <= b <= 102)
}

/// A digest as `is_sha256_hex` accepts it: 64 bytes, each an ASCII hex digit
/// of either case.
pub open spec fn is_sha256_hex_spec(s: Seq<char>) -> bool {
    encode_utf8(s).len() == 64 && forall|i: int|
        0 <= i < 64 ==> is_hex_byte(#[trigger] encode_utf8(s)[i])
}

pub fn is_sha256_hex(value: &str) -> (r: bool)
    ensures
        r == is_sha256_hex_spec(value@),
{
    let bytes = value.as_bytes();
    if bytes.len() != 64 {
        return false;
    }
    let mut i: usize = 0;
    while i < 64
        invariant
            i <= 64,
            bytes@ == encode_utf8(value@),
            bytes@.len() == 64,
            forall|k: int| 0 <= k < i ==> is_hex_byte(#[trigger] bytes@[k]),
        decreases 64 - i,
    {
        let b = bytes[i];
        if !((48 <= b && b <= 57) || (65 <= b && b <= 70) || (97 <= b && b <= 102)) {
            return false;
        }
        i = i + 1;
    }
    true
}

proof fn lemma_hex_digest_is_sha256_hex(bytes: Seq<u8>)
    requires
        sha256_spec(bytes).len() == 32,
    ensures
        is_sha256_hex_spec(hex_digest_spec(bytes)),
{
    let h = hex_digest_spec(bytes);
    lemma_hex_encode_len(sha256_spec(bytes));
    lemma_hex_encode_chars(sha256_spec(bytes));
    assert(is_ascii_chars(h));
    is_ascii_chars_encode_utf8(h);
    assert forall|i: int| 0 <= i < 64 implies is_hex_byte(#[trigger] encode_utf8(h)[i]) by {
        assert(is_hex_lower(h[i]));
        assert(h[i] as u8 == encode_utf8(h)[i]);
    }
}

} // verus!
