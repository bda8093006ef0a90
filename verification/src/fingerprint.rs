//! Content fingerprints: the 64-bit XXH3 hash of a file's bytes, written as
//! hexadecimal text of one fixed width.

use crate::text::{digit, digit_text};
use vstd::prelude::*;

verus! {

/// The 64-bit XXH3 hash (seed 0, default secret) of a byte sequence, as the
/// `xxhash_rust` crate computes it.
pub uninterp spec fn xxh3_64_digest(data: Seq<u8>) -> u64;

/// Calls `xxhash_rust::xxh3::xxh3_64`. The hash is a function of the bytes
/// alone; nothing else is claimed of it.
#[verifier::external_body]
fn xxh3_digest(data: &[u8]) -> (h: u64)
    ensures
        h == xxh3_64_digest(data@),
{
    xxhash_rust::xxh3::xxh3_64(data)
}

/// The `count` least significant hexadecimal digits of `value`, most
/// significant first.
pub open spec fn hex_digits(value: nat, count: nat) -> Seq<char>
    decreases count,
{
    if count == 0 {
        Seq::empty()
    } else {
        hex_digits(value / 16, (count - 1) as nat).push(digit((value % 16) as int))
    }
}

/// How many digits every fingerprint shows: as many as the largest 64-bit
/// hash needs.
pub const FINGERPRINT_DIGITS: u8 = 16;

/// The text of a fingerprint: `0x`, then the hash in lower-case hexadecimal,
/// padded with leading zeros to sixteen digits.
pub open spec fn fingerprint_text(hash: u64) -> Seq<char> {
    seq!['0', 'x'] + hex_digits(hash as nat, FINGERPRINT_DIGITS as nat)
}

/// The digits of a value are as many as asked for.
pub proof fn lemma_hex_digits_len(value: nat, count: nat)
    ensures
        hex_digits(value, count).len() == count,
    decreases count,
{
    if count > 0 {
        lemma_hex_digits_len(value / 16, (count - 1) as nat);
    }
}

/// Every fingerprint has the same width: eighteen characters.
pub proof fn lemma_fingerprint_width(hash: u64)
    ensures
        fingerprint_text(hash).len() == 18,
{
    lemma_hex_digits_len(hash as nat, FINGERPRINT_DIGITS as nat);
}

/// Appends the `count` least significant digits of `value` to `out`.
fn push_hex_digits(out: &mut String, value: u64, count: u8)
    ensures
        final(out)@ == old(out)@ + hex_digits(value as nat, count as nat),
    decreases count,
{
    if count > 0 {
        push_hex_digits(out, value / 16, count - 1);
        let d: u8 = (value % 16) as u8;
        out.append(digit_text(d));
        assert(out@ =~= old(out)@ + hex_digits(value as nat, count as nat));
    } else {
        assert(out@ =~= old(out)@ + hex_digits(value as nat, count as nat));
    }
}

/// Writes a hash as fingerprint text. Every text has the same width.
pub fn format_fingerprint(hash: u64) -> (text: String)
    ensures
        text@ == fingerprint_text(hash),
        text@.len() == 18,
{
    proof {
        reveal_strlit("0x");
        lemma_fingerprint_width(hash);
    }
    let mut text = String::from_str("0x");
    assert(text@ =~= seq!['0', 'x']);
    push_hex_digits(&mut text, hash, FINGERPRINT_DIGITS);
    text
}

/// Computes the fingerprint of a file's bytes in one pass over them.
pub fn fingerprint(data: &[u8]) -> (text: String)
    ensures
        text@ == fingerprint_text(xxh3_64_digest(data@)),
        text@.len() == 18,
{
    format_fingerprint(xxh3_digest(data))
}

} // verus!
