//! Digests and their hexadecimal form.
use sha2::Digest;
use vstd::prelude::*;

verus! {

/// The SHA-256 digest of a byte sequence, as `sha2` computes it.
pub uninterp spec fn sha256_of(bytes: Seq<u8>) -> Seq<u8>;

/// The MD5 digest of a byte sequence, as `md5` computes it.
pub uninterp spec fn md5_of(bytes: Seq<u8>) -> Seq<u8>;

/// `sha2::Sha256::digest` depends on the bytes alone and gives 32 bytes.
#[verifier::external_body]
fn sha256(bytes: &[u8]) -> (result: Vec<u8>)
    ensures
        result@ == sha256_of(bytes@),
        result@.len() == 32,
{
    sha2::Sha256::digest(bytes).to_vec()
}

/// `md5::Md5::digest` depends on the bytes alone and gives 16 bytes.
#[verifier::external_body]
fn md5(bytes: &[u8]) -> (result: Vec<u8>)
    ensures
        result@ == md5_of(bytes@),
        result@.len() == 16,
{
    md5::Md5::digest(bytes).to_vec()
}

/// The lower-case hexadecimal digit for a number below 16.
pub open spec fn hex_digit(n: int) -> char {
    if n < 10 {
        ('0' as int + n) as char
    } else {
        ('a' as int + n - 10) as char
    }
}

/// Two lower-case hexadecimal digits for each byte, the high one first.
pub open spec fn hex_text(bytes: Seq<u8>) -> Seq<char> {
    Seq::new(
        2 * bytes.len(),
        |i: int|
            if i % 2 == 0 {
                hex_digit(bytes[i / 2] as int / 16)
            } else {
                hex_digit(bytes[i / 2] as int % 16)
            },
    )
}

proof fn lemma_hex_digit(n: int)
    requires
        0 <= n < 16,
    ensures
        hex_digit(n) as int == if n < 10 {
            48 + n
        } else {
            87 + n
        },
{
}

/// Different byte sequences have different hexadecimal forms.
pub proof fn law_hex_tells_apart(a: Seq<u8>, b: Seq<u8>)
    requires
        hex_text(a) == hex_text(b),
    ensures
        a == b,
{
    assert(hex_text(a).len() == 2 * a.len());
    assert(hex_text(b).len() == 2 * b.len());
    assert forall|i: int| 0 <= i < a.len() implies a[i] == b[i] by {
        assert((2 * i) / 2 == i && (2 * i + 1) / 2 == i && (2 * i) % 2 == 0 && (2 * i + 1) % 2
            == 1);
        assert(hex_text(a)[2 * i] == hex_digit(a[i] as int / 16));
        assert(hex_text(b)[2 * i] == hex_digit(b[i] as int / 16));
        assert(hex_text(a)[2 * i + 1] == hex_digit(a[i] as int % 16));
        assert(hex_text(b)[2 * i + 1] == hex_digit(b[i] as int % 16));
        lemma_hex_digit(a[i] as int / 16);
        lemma_hex_digit(b[i] as int / 16);
        lemma_hex_digit(a[i] as int % 16);
        lemma_hex_digit(b[i] as int % 16);
    }
    assert(a =~= b);
}

/// `hex::encode` writes each byte as two lower-case hexadecimal digits.
#[verifier::external_body]
pub(crate) fn hex_encode(bytes: &[u8]) -> (result: String)
    ensures
        result@ == hex_text(bytes@),
{
    hex::encode(bytes)
}

/// The SHA-256 digest in hexadecimal.
pub fn sha256_hex(bytes: &[u8]) -> (result: String)
    ensures
        result@ == hex_text(sha256_of(bytes@)),
        result@.len() == 64,
{
    let digest = sha256(bytes);
    hex_encode(&digest)
}

/// The MD5 digest in hexadecimal.
pub fn md5_hash(data: &[u8]) -> (result: String)
    ensures
        result@ == hex_text(md5_of(data@)),
        result@.len() == 32,
{
    let digest = md5(data);
    hex_encode(&digest)
}

/// The number that a hexadecimal digit stands for.
pub open spec fn hex_value(c: char) -> int {
    if '0' <= c <= '9' {
        c as int - 48
    } else {
        c as int - 97 + 10
    }
}

/// Each byte is two digits, the higher one first, in lower case.
pub proof fn law_hex_tells_the_bytes(bytes: Seq<u8>, i: int)
    requires
        0 <= i < bytes.len(),
    ensures
        hex_text(bytes).len() == 2 * bytes.len(),
        16 * hex_value(hex_text(bytes)[2 * i]) + hex_value(hex_text(bytes)[2 * i + 1])
            == bytes[i],
        '0' <= hex_text(bytes)[2 * i] <= '9' || 'a' <= hex_text(bytes)[2 * i] <= 'f',
{
}

} // verus!
