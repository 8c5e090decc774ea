//! Hashing and encoding.
use vstd::prelude::*;
use base64::Engine;
use sha2::{Digest, Sha256};

verus! {

/// The SHA-256 hash of some bytes, as the `sha2` crate computes it.
pub uninterp spec fn sha256(data: Seq<u8>) -> Seq<u8>;

/// Calls `sha2::Sha256::digest`. Believed of it: the hash is a function of the
/// bytes alone, and it is 32 bytes long. The crate counts the bits of its input
/// in 64 bits, so longer inputs are left out.
#[verifier::external_body]
fn digest(data: &[u8]) -> (hash: Vec<u8>)
    requires
        data@.len() < 0x2000_0000_0000_0000,
    ensures
        hash@ == sha256(data@),
        hash@.len() == 32,
{
    Sha256::digest(data).to_vec()
}

/// The character that stands for six bits in the standard base64 alphabet.
pub open spec fn base64_char(bits: int) -> char {
    if bits < 26 {
        ('A' as int + bits) as char
    } else if bits < 52 {
        ('a' as int + bits - 26) as char
    } else if bits < 62 {
        ('0' as int + bits - 52) as char
    } else if bits == 62 {
        '+'
    } else {
        '/'
    }
}

/// The byte at `i`, with zeros behind the end.
pub open spec fn byte_or_zero(data: Seq<u8>, i: int) -> int {
    if 0 <= i < data.len() {
        data[i] as int
    } else {
        0
    }
}

/// Six bits of `data`: three bytes at a time are read as one number of 24 bits,
/// the first byte on top, and give four groups, the top one first.
pub open spec fn six_bits(data: Seq<u8>, k: int) -> int {
    let first = 3 * (k / 4);
    let group = byte_or_zero(data, first) * 65536 + byte_or_zero(data, first + 1) * 256
        + byte_or_zero(data, first + 2);
    if k % 4 == 0 {
        group / 262144
    } else if k % 4 == 1 {
        (group / 4096) % 64
    } else if k % 4 == 2 {
        (group / 64) % 64
    } else {
        group % 64
    }
}

/// `data` in base64 with the standard alphabet and without padding: as many
/// characters as it takes to hold all bits, zeros filling up the last one.
pub open spec fn base64_spec(data: Seq<u8>) -> Seq<char> {
    Seq::new(((8 * data.len() + 5) / 6) as nat, |k: int| base64_char(six_bits(data, k)))
}

/// Calls `base64::Engine::encode` of the engine
/// `base64::engine::general_purpose::STANDARD_NO_PAD`. Believed of it: the text is
/// the base64 form of the bytes, with the standard alphabet and without padding.
/// Inputs whose text would be too long for an allocation are left out.
#[verifier::external_body]
fn encode(data: &[u8]) -> (text: String)
    requires
        (8 * data@.len() + 5) / 6 <= isize::MAX,
    ensures
        text@ == base64_spec(data@),
{
    base64::engine::general_purpose::STANDARD_NO_PAD.encode(data)
}

/// The hash of a text as it stands in a report: the SHA-256 hash of the text's
/// bytes, in base64.
pub open spec fn fingerprint_spec(text: Seq<char>) -> Seq<char> {
    base64_spec(sha256(vstd::utf8::encode_utf8(text)))
}

/// Hashes a text. The hash is 43 characters of the base64 alphabet.
pub fn fingerprint(text: &str) -> (hash: String)
    requires
        vstd::utf8::encode_utf8(text@).len() < 0x2000_0000_0000_0000,
    ensures
        hash@ == fingerprint_spec(text@),
        hash@.len() == 43,
{
    let bytes = digest(text.as_bytes());
    encode(bytes.as_slice())
}

/// Six bits are less than 64.
pub proof fn lemma_six_bits(data: Seq<u8>, k: int)
    ensures
        0 <= six_bits(data, k) < 64,
{
}

/// No character of the base64 form is a line feed, a carriage return, a colon or
/// a space.
pub proof fn law_base64_is_plain(data: Seq<u8>, k: int)
    requires
        0 <= k < base64_spec(data).len(),
    ensures
        base64_spec(data)[k] != '\n',
        base64_spec(data)[k] != '\r',
        base64_spec(data)[k] != ':',
        base64_spec(data)[k] != ' ',
{
    lemma_six_bits(data, k);
}

/// The six bits that a character of the standard base64 alphabet stands for.
pub open spec fn base64_value(c: char) -> int {
    if 'A' <= c <= 'Z' {
        c as int - 'A' as int
    } else if 'a' <= c <= 'z' {
        c as int - 'a' as int + 26
    } else if '0' <= c <= '9' {
        c as int - '0' as int + 52
    } else if c == '+' {
        62
    } else {
        63
    }
}

proof fn lemma_base64_value(bits: int)
    requires
        0 <= bits < 64,
    ensures
        base64_value(base64_char(bits)) == bits,
{
}

/// Three bytes, read as one number, can be read back from its four groups of six bits.
proof fn lemma_groups(a: u32, b: u32, c: u32)
    requires
        a < 256,
        b < 256,
        c < 256,
    ensures
        ({
            let group = a * 65536 + b * 256 + c;
            &&& a == (group / 262144) * 4 + ((group / 4096) % 64) / 16
            &&& b == (((group / 4096) % 64) % 16) * 16 + ((group / 64) % 64) / 4
            &&& c == (((group / 64) % 64) % 4) * 64 + group % 64
        }),
{
    assert(({
        let group = a * 65536 + b * 256 + c;
        &&& a == (group / 262144) * 4 + ((group / 4096) % 64) / 16
        &&& b == (((group / 4096) % 64) % 16) * 16 + ((group / 64) % 64) / 4
        &&& c == (((group / 64) % 64) % 4) * 64 + group % 64
    })) by (bit_vector)
        requires
            a < 256,
            b < 256,
            c < 256,
    ;
}

/// A fingerprint holds the whole SHA-256 hash of the text's UTF-8 bytes, and nothing
/// else: it has as many characters as it takes to hold all bits, without padding, and
/// each byte of the hash can be read back from the characters, six bits from each.
pub proof fn law_fingerprint_holds_the_hash(text: Seq<char>, i: int)
    ensures
        ({
            let hash = sha256(vstd::utf8::encode_utf8(text));
            let print = fingerprint_spec(text);
            let at = 4 * (i / 3);
            &&& 6 * print.len() >= 8 * hash.len()
            &&& 6 * print.len() < 8 * hash.len() + 6
            &&& 0 <= i < hash.len() ==> hash[i] as int == if i % 3 == 0 {
                base64_value(print[at]) * 4 + base64_value(print[at + 1]) / 16
            } else if i % 3 == 1 {
                (base64_value(print[at + 1]) % 16) * 16 + base64_value(print[at + 2]) / 4
            } else {
                (base64_value(print[at + 2]) % 4) * 64 + base64_value(print[at + 3])
            }
        }),
{
    let hash = sha256(vstd::utf8::encode_utf8(text));
    let print = fingerprint_spec(text);
    if 0 <= i < hash.len() {
        let at = 4 * (i / 3);
        lemma_reads_back(hash, i / 3);
        if i % 3 == 0 {
            assert(at + 1 < print.len());
        } else if i % 3 == 1 {
            assert(at + 2 < print.len());
        } else {
            assert(at + 3 < print.len());
        }
        lemma_six_bits(hash, at);
        lemma_six_bits(hash, at + 1);
        lemma_six_bits(hash, at + 2);
        lemma_six_bits(hash, at + 3);
        lemma_base64_value(six_bits(hash, at));
        lemma_base64_value(six_bits(hash, at + 1));
        lemma_base64_value(six_bits(hash, at + 2));
        lemma_base64_value(six_bits(hash, at + 3));
    }
}

/// The bytes of the `q`th group of three can be read back from its six bits.
proof fn lemma_reads_back(data: Seq<u8>, q: int)
    requires
        0 <= q,
    ensures
        byte_or_zero(data, 3 * q) == six_bits(data, 4 * q) * 4 + six_bits(data, 4 * q + 1) / 16,
        byte_or_zero(data, 3 * q + 1) == (six_bits(data, 4 * q + 1) % 16) * 16 + six_bits(
            data,
            4 * q + 2,
        ) / 4,
        byte_or_zero(data, 3 * q + 2) == (six_bits(data, 4 * q + 2) % 4) * 64 + six_bits(
            data,
            4 * q + 3,
        ),
{
    let a = byte_or_zero(data, 3 * q) as u32;
    let b = byte_or_zero(data, 3 * q + 1) as u32;
    let c = byte_or_zero(data, 3 * q + 2) as u32;
    let group = a * 65536 + b * 256 + c;
    assert((4 * q) / 4 == q && (4 * q) % 4 == 0);
    assert((4 * q + 1) / 4 == q && (4 * q + 1) % 4 == 1);
    assert((4 * q + 2) / 4 == q && (4 * q + 2) % 4 == 2);
    assert((4 * q + 3) / 4 == q && (4 * q + 3) % 4 == 3);
    assert(six_bits(data, 4 * q) == group / 262144);
    assert(six_bits(data, 4 * q + 1) == (group / 4096) % 64);
    assert(six_bits(data, 4 * q + 2) == (group / 64) % 64);
    assert(six_bits(data, 4 * q + 3) == group % 64);
    lemma_groups(a, b, c);
}

}
