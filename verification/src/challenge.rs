//! The MD5 challenge response: a two-pass keyed hash of password, user name
//! and salt, written as `md5` followed by 32 lowercase hexadecimal digits.
//!
//! The hash itself is computed by the `md-5` crate.  Its result is given a
//! name, [`md5_hash`]; everything built on top of it is verified.

use md5::{Digest, Md5};
use vstd::prelude::*;

verus! {

/// The MD5 digest of `data`, as the `md-5` crate computes it.
pub uninterp spec fn md5_hash(data: Seq<u8>) -> Seq<u8>;

/// `Digest::digest` of `Md5`: hashes `data` in one call.  The result is the
/// 16-byte digest, a function of `data` alone.
#[verifier::external_body]
fn md5_digest(data: &[u8]) -> (digest: [u8; 16])
    ensures
        digest@ == md5_hash(data@),
{
    Md5::digest(data).into()
}

/// The ASCII digit for a value below 16: `0` to `9`, then `a` to `f`.
pub open spec fn hex_digit(nibble: int) -> u8 {
    if nibble < 10 {
        ('0' as u8 + nibble) as u8
    } else {
        ('a' as u8 + (nibble - 10)) as u8
    }
}

/// `bytes` in lowercase hexadecimal: two ASCII digits per byte, the high
/// half first.
pub open spec fn lower_hex(bytes: Seq<u8>) -> Seq<u8> {
    Seq::new(
        2 * bytes.len(),
        |i: int|
            if i % 2 == 0 {
                hex_digit(bytes[i / 2] as int / 16)
            } else {
                hex_digit(bytes[i / 2] as int % 16)
            },
    )
}

/// Whether `byte` is an ASCII digit `0`-`9` or a lowercase letter `a`-`f`.
pub open spec fn is_lower_hex(byte: u8) -> bool {
    ('0' as u8 <= byte && byte <= '9' as u8) || ('a' as u8 <= byte && byte <= 'f' as u8)
}

/// The ASCII bytes of the prefix `md5`.
pub open spec fn md5_prefix() -> Seq<u8> {
    seq!['m' as u8, 'd' as u8, '5' as u8]
}

/// The challenge string for a final digest: the prefix, then the digest in
/// lowercase hexadecimal.
pub open spec fn challenge_of(digest: Seq<u8>) -> Seq<u8> {
    md5_prefix() + lower_hex(digest)
}

/// The challenge response for a password, a user name and a salt: the
/// password and user are hashed together, and the hexadecimal form of that
/// digest is hashed again with the salt.
pub open spec fn challenge(password: Seq<u8>, user: Seq<u8>, salt: Seq<u8>) -> Seq<u8> {
    challenge_of(md5_hash(lower_hex(md5_hash(password + user)) + salt))
}

/// A challenge string is `md5` followed by two lowercase hexadecimal digits
/// for each byte of the digest: 35 bytes in all for a 16-byte digest.
pub proof fn lemma_challenge_shape(digest: Seq<u8>)
    ensures
        challenge_of(digest).len() == 3 + 2 * digest.len(),
        challenge_of(digest).take(3) == md5_prefix(),
        forall|i: int| 3 <= i < challenge_of(digest).len() ==> is_lower_hex(challenge_of(digest)[i]),
        digest.len() == 16 ==> challenge_of(digest).len() == 35,
{
    assert forall|i: int| 3 <= i < challenge_of(digest).len() implies is_lower_hex(
        challenge_of(digest)[i],
    ) by {
    }
}

/// The ASCII digit for `nibble`.
fn digit(nibble: u8) -> (c: u8)
    requires
        nibble < 16,
    ensures
        c == hex_digit(nibble as int),
{
    if nibble < 10 {
        '0' as u8 + nibble
    } else {
        'a' as u8 + (nibble - 10)
    }
}

/// Appends `bytes` in lowercase hexadecimal to `out`.
fn push_lower_hex(out: &mut Vec<u8>, bytes: &[u8])
    ensures
        final(out)@ == old(out)@ + lower_hex(bytes@),
{
    let ghost start = out@;
    let mut i: usize = 0;
    while i < bytes.len()
        invariant
            i <= bytes@.len(),
            out@ == start + lower_hex(bytes@.take(i as int)),
        decreases bytes@.len() - i,
    {
        let byte = bytes[i];
        out.push(digit(byte / 16));
        out.push(digit(byte % 16));
        i += 1;
    }
}

/// Writes `bytes` in lowercase hexadecimal.
pub fn to_lower_hex(bytes: &[u8]) -> (hex: Vec<u8>)
    ensures
        hex@ == lower_hex(bytes@),
{
    let mut hex: Vec<u8> = Vec::new();
    push_lower_hex(&mut hex, bytes);
    hex
}

/// Builds the challenge string for a final digest.
pub fn challenge_from_digest(digest: &[u8]) -> (text: Vec<u8>)
    ensures
        text@ == challenge_of(digest@),
{
    let mut text: Vec<u8> = Vec::new();
    text.push('m' as u8);
    text.push('d' as u8);
    text.push('5' as u8);
    push_lower_hex(&mut text, digest);
    text
}

/// The bytes that the second pass hashes: the first digest in lowercase
/// hexadecimal, then the salt.
pub fn second_pass_input(first_digest: &[u8], salt: &[u8]) -> (input: Vec<u8>)
    ensures
        input@ == lower_hex(first_digest@) + salt@,
{
    let mut input = to_lower_hex(first_digest);
    input.extend_from_slice(salt);
    input
}

/// Derives the challenge response for `password`, `user` and `salt`.
///
/// The result depends on the three inputs alone.  It is always `md5`
/// followed by exactly 32 lowercase hexadecimal digits.
pub fn md5_challenge(password: &[u8], user: &[u8], salt: &[u8]) -> (text: Vec<u8>)
    ensures
        text@ == challenge(password@, user@, salt@),
        text@.len() == 35,
        text@.take(3) == md5_prefix(),
        forall|i: int| 3 <= i < 35 ==> is_lower_hex(text@[i]),
{
    let mut keyed: Vec<u8> = Vec::new();
    keyed.extend_from_slice(password);
    keyed.extend_from_slice(user);
    proof {
        assert(keyed@ =~= password@ + user@);
    }
    let first = md5_digest(keyed.as_slice());
    let input = second_pass_input(first.as_slice(), salt);
    let last = md5_digest(input.as_slice());
    proof {
        lemma_challenge_shape(last@);
    }
    challenge_from_digest(last.as_slice())
}

} // verus!
