//! SHA-256 digests of file contents, written as lowercase hex the way the
//! update server lists them.
use vstd::prelude::*;
use sha2::Digest;

verus! {

/// The SHA-256 digest of `data`.
pub uninterp spec fn spec_sha256(data: Seq<u8>) -> Seq<u8>;

/// Computes the SHA-256 digest of `data`.
///
/// Trusted wrapper around `sha2::Sha256::digest` (the `Digest` trait of
/// the `digest` crate), whose output is a 32-byte array; the contract names
/// that digest as a function of the input bytes and states its length.
#[verifier::external_body]
fn sha256_digest(data: &[u8]) -> (r: Vec<u8>)
    ensures
        r@ == spec_sha256(data@),
        r@.len() == 32,
{
    sha2::Sha256::digest(data).to_vec()
}

/// The lowercase hex digit for a value below 16.
pub open spec fn hex_digit(v: int) -> char {
    if v < 10 {
        (('0' as int) + v) as char
    } else {
        (('a' as int) + (v - 10)) as char
    }
}

/// Lowercase hex of a byte string: two digits per byte, high nibble first
/// (what the `{:x}` format of a digest writes).
pub open spec fn spec_hex_lower(bytes: Seq<u8>) -> Seq<char>
    decreases bytes.len(),
{
    if bytes.len() == 0 {
        seq![]
    } else {
        spec_hex_lower(bytes.drop_last()) + seq![
            hex_digit(bytes.last() as int / 16),
            hex_digit(bytes.last() as int % 16),
        ]
    }
}

/// The lowercase hex digit for `v`.
fn hex_digit_exec(v: u8) -> (c: char)
    requires
        v < 16,
    ensures
        c == hex_digit(v as int),
{
    match v {
        0 => '0',
        1 => '1',
        2 => '2',
        3 => '3',
        4 => '4',
        5 => '5',
        6 => '6',
        7 => '7',
        8 => '8',
        9 => '9',
        10 => 'a',
        11 => 'b',
        12 => 'c',
        13 => 'd',
        14 => 'e',
        _ => 'f',
    }
}

/// Writes `bytes` as lowercase hex.
pub fn hex_lower(bytes: &[u8]) -> (r: String)
    ensures
        r@ == spec_hex_lower(bytes@),
{
    let mut r = String::new();
    let n = bytes.len();
    for i in 0..n
        invariant
            n == bytes@.len(),
            r@ == spec_hex_lower(bytes@.take(i as int)),
    {
        let b = bytes[i];
        crate::text::push_char(&mut r, hex_digit_exec(b / 16));
        crate::text::push_char(&mut r, hex_digit_exec(b % 16));
        assert(bytes@.take(i + 1).drop_last() == bytes@.take(i as int));
    }
    assert(bytes@.take(n as int) == bytes@);
    r
}

/// The SHA-256 digest of a file's contents in lowercase hex.
pub fn calculate_file_hash(data: &[u8]) -> (r: String)
    ensures
        r@ == spec_hex_lower(spec_sha256(data@)),
        r@.len() == 64,
{
    let digest = sha256_digest(data);
    let r = hex_lower(digest.as_slice());
    proof {
        lemma_hex_lower_len(digest@);
    }
    r
}

/// Hex writing doubles the length.
pub proof fn lemma_hex_lower_len(bytes: Seq<u8>)
    ensures
        spec_hex_lower(bytes).len() == 2 * bytes.len(),
    decreases bytes.len(),
{
    if bytes.len() > 0 {
        lemma_hex_lower_len(bytes.drop_last());
    }
}

} // verus!

verus! {

/// The value of a lowercase hex digit, -1 for any other character.
pub open spec fn hex_value(c: char) -> int {
    if '0' <= c && c <= '9' {
        c as int - '0' as int
    } else if 'a' <= c && c <= 'f' {
        c as int - 'a' as int + 10
    } else {
        -1
    }
}

proof fn lemma_hex_digit_value(v: int)
    requires
        0 <= v < 16,
    ensures
        hex_value(hex_digit(v)) == v,
{
    if v < 10 {
        assert(hex_digit(v) as int == '0' as int + v);
    } else {
        assert(hex_digit(v) as int == 'a' as int + (v - 10));
    }
}

/// Hex writing is two lowercase hex digits per byte, the high nibble first:
/// reading each pair of digits back gives the byte.
pub proof fn lemma_hex_lower_laws(bytes: Seq<u8>)
    ensures
        spec_hex_lower(bytes).len() == 2 * bytes.len(),
        forall|i: int|
            0 <= i < bytes.len() ==> hex_value(#[trigger] spec_hex_lower(bytes)[2 * i]) * 16
                + hex_value(spec_hex_lower(bytes)[2 * i + 1]) == bytes[i],
        forall|k: int|
            0 <= k < spec_hex_lower(bytes).len() ==> 0 <= #[trigger] hex_value(
                spec_hex_lower(bytes)[k],
            ) < 16,
    decreases bytes.len(),
{
    lemma_hex_lower_len(bytes);
    if bytes.len() > 0 {
        let p = bytes.drop_last();
        lemma_hex_lower_laws(p);
        let b = bytes.last() as int;
        lemma_hex_digit_value(b / 16);
        lemma_hex_digit_value(b % 16);
        let r = spec_hex_lower(bytes);
        let rp = spec_hex_lower(p);
        assert forall|i: int| 0 <= i < bytes.len() implies hex_value(#[trigger] r[2 * i]) * 16
            + hex_value(r[2 * i + 1]) == bytes[i] by {
            if i < p.len() {
                assert(r[2 * i] == rp[2 * i]);
                assert(r[2 * i + 1] == rp[2 * i + 1]);
                assert(bytes[i] == p[i]);
            }
        }
        assert forall|k: int| 0 <= k < r.len() implies 0 <= #[trigger] hex_value(r[k]) < 16 by {
            if k < rp.len() {
                assert(r[k] == rp[k]);
            }
        }
    }
}

} // verus!
