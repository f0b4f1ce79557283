use vstd::prelude::*;
use vstd::utf8::encode_utf8;

use crate::proxy::{is_plain_decimal, lemma_decimal_is_plain, lemma_parse_decimal, parsed_u32};
use crate::text::{decimal, decimal_string, push_char};

verus! {

/// The MD5 digest of `data`, as `md5::compute` returns it.
pub uninterp spec fn md5(data: Seq<u8>) -> Seq<u8>;

/// Computes the MD5 digest of `data` with `md5::compute`. The contract names the digest and
/// states its length, which the digest's type (`[u8; 16]`) fixes; the algorithm is not stated.
#[verifier::external_body]
fn md5_digest(data: &[u8]) -> (d: Vec<u8>)
    ensures
        d@ == md5(data@),
        d@.len() == 16,
{
    md5::compute(data).0.to_vec()
}

/// The lower-case hexadecimal digit for `d < 16`.
pub open spec fn hex_char(d: nat) -> char {
    if d < 10 {
        crate::text::digit_char(d)
    } else if d == 10 {
        'a'
    } else if d == 11 {
        'b'
    } else if d == 12 {
        'c'
    } else if d == 13 {
        'd'
    } else if d == 14 {
        'e'
    } else {
        'f'
    }
}

/// Each byte as two lower-case hexadecimal digits, high digit first (the `{:x}` format of a
/// digest, which writes every byte with `{:02x}`).
pub open spec fn lower_hex(bytes: Seq<u8>) -> Seq<char>
    decreases bytes.len(),
{
    if bytes.len() == 0 {
        Seq::empty()
    } else {
        lower_hex(bytes.drop_last()).push(hex_char((bytes.last() / 16) as nat)).push(
            hex_char((bytes.last() % 16) as nat),
        )
    }
}

fn hex_digit(d: u8) -> (c: char)
    requires
        d < 16,
    ensures
        c == hex_char(d as nat),
{
    if d == 0 { '0' }
    else if d == 1 { '1' }
    else if d == 2 { '2' }
    else if d == 3 { '3' }
    else if d == 4 { '4' }
    else if d == 5 { '5' }
    else if d == 6 { '6' }
    else if d == 7 { '7' }
    else if d == 8 { '8' }
    else if d == 9 { '9' }
    else if d == 10 { 'a' }
    else if d == 11 { 'b' }
    else if d == 12 { 'c' }
    else if d == 13 { 'd' }
    else if d == 14 { 'e' }
    else { 'f' }
}

fn to_lower_hex(bytes: &Vec<u8>) -> (s: String)
    ensures
        s@ == lower_hex(bytes@),
{
    let mut s = String::new();
    let mut k: usize = 0;
    while k < bytes.len()
        invariant
            0 <= k <= bytes@.len(),
            s@ == lower_hex(bytes@.take(k as int)),
        decreases bytes@.len() - k,
    {
        let b = bytes[k];
        push_char(&mut s, hex_digit(b / 16));
        push_char(&mut s, hex_digit(b % 16));
        assert(bytes@.take(k + 1).drop_last() == bytes@.take(k as int));
        k = k + 1;
    }
    assert(bytes@.take(k as int) == bytes@);
    s
}

/// The session id for partition `n`: the MD5 digest of `n` in decimal, in lower-case hex.
pub open spec fn session_hash(n: u16) -> Seq<char> {
    lower_hex(md5(encode_utf8(decimal(n as nat))))
}

pub struct Hasher {}

impl Hasher {
    /// The MD5 digest of the decimal representation of `n`, as 32 lower-case hex digits.
    pub fn hash(n: u16) -> (s: String)
        ensures
            s@ == session_hash(n),
            s@.len() == 32,
            exists|text: Seq<char>|
                is_plain_decimal(text) && parsed_u32(text) == Some(n as u32) && s@ == lower_hex(
                    md5(encode_utf8(text)),
                ),
    {
        proof {
            lemma_session_hash_digests_the_number(n);
        }
        let text = decimal_string(n as u32);
        let digest = md5_digest(text.as_str().as_bytes());
        let s = to_lower_hex(&digest);
        proof {
            lemma_lower_hex_len(digest@);
        }
        s
    }
}

proof fn lemma_lower_hex_len(bytes: Seq<u8>)
    ensures
        lower_hex(bytes).len() == 2 * bytes.len(),
    decreases bytes.len(),
{
    if bytes.len() > 0 {
        lemma_lower_hex_len(bytes.drop_last());
    }
}

/// The session id of partition `n` is the lower-case hex MD5 digest of `n` written plainly in
/// decimal: a text of digits without leading zeros that reads back as the whole number `n`;
/// so the ids of different partitions are digests of different texts.
pub proof fn lemma_session_hash_digests_the_number(n: u16)
    ensures
        exists|text: Seq<char>|
            is_plain_decimal(text) && parsed_u32(text) == Some(n as u32) && session_hash(n)
                == lower_hex(md5(encode_utf8(text))),
{
    lemma_parse_decimal(n as u32);
    lemma_decimal_is_plain(n as nat);
    let text = decimal((n as u32) as nat);
    assert(is_plain_decimal(text) && parsed_u32(text) == Some(n as u32) && session_hash(n) == lower_hex(
        md5(encode_utf8(text)),
    ));
}

} // verus!
