//! Key material: the passphrase line as the host sends it, and the digest
//! of an optional keyfile that is joined to it.

use vstd::prelude::*;
use vstd::slice::{slice_subrange, slice_to_vec};
use vstd::string::StringExecFns;
use vstd::utf8::encode_utf8;
use sha2::{Digest, Sha256};
use crate::bytes::append_bytes;

verus! {

/// The most keyfile bytes that enter the digest: 64 KiB.
pub const MAX_KEYFILE_SIZE: usize = 65536;

/// Length of a keyfile digest in bytes.
pub const DIGEST_LEN: usize = 32;

/// The SHA-256 digest of a byte string: 32 bytes.
pub uninterp spec fn sha256_digest(data: Seq<u8>) -> Seq<u8>;

/// `Digest::digest` of `sha2::Sha256`: the digest of `data`.
#[verifier::external_body]
fn sha256(data: &[u8]) -> (digest: [u8; DIGEST_LEN])
    ensures
        digest@ == sha256_digest(data@),
{
    Sha256::digest(data).into()
}

/// The part of a keyfile that is hashed: its first 65536 bytes.
pub open spec fn keyfile_prefix(keyfile: Seq<u8>) -> Seq<u8> {
    if keyfile.len() <= MAX_KEYFILE_SIZE {
        keyfile
    } else {
        keyfile.subrange(0, MAX_KEYFILE_SIZE as int)
    }
}

/// The key material of a passphrase and an optional keyfile: the bytes of
/// the passphrase, followed by the digest of the keyfile's prefix if there
/// is a keyfile.
pub open spec fn key_material(passphrase: Seq<u8>, keyfile: Option<Seq<u8>>) -> Seq<u8> {
    match keyfile {
        Some(content) => passphrase + sha256_digest(keyfile_prefix(content)),
        None => passphrase,
    }
}

/// The digest of a keyfile: SHA-256 over at most its first 65536 bytes.
pub fn keyfile_digest(keyfile: &[u8]) -> (digest: [u8; DIGEST_LEN])
    ensures
        digest@ == sha256_digest(keyfile_prefix(keyfile@)),
{
    if keyfile.len() <= MAX_KEYFILE_SIZE {
        sha256(keyfile)
    } else {
        sha256(slice_subrange(keyfile, 0, MAX_KEYFILE_SIZE))
    }
}

/// The view of an optional keyfile.
pub open spec fn keyfile_view(keyfile: Option<Vec<u8>>) -> Option<Seq<u8>> {
    match keyfile {
        Some(content) => Some(content@),
        None => None,
    }
}

/// Joins a passphrase and the digest of an optional keyfile into key
/// material.
pub fn build_key_material(passphrase: &str, keyfile: &Option<Vec<u8>>) -> (material: Vec<u8>)
    ensures
        material@ == key_material(encode_utf8(passphrase@), keyfile_view(*keyfile)),
{
    let mut material = slice_to_vec(passphrase.as_bytes());
    match keyfile {
        Some(content) => {
            let digest = keyfile_digest(content.as_slice());
            append_bytes(&mut material, &digest);
        },
        None => {},
    }
    material
}

/// The passphrase in a line: the line without one trailing line feed and
/// without one carriage return before it.
pub open spec fn trimmed(line: Seq<char>) -> Seq<char> {
    if line.len() > 0 && line.last() == '\n' {
        let rest = line.drop_last();
        if rest.len() > 0 && rest.last() == '\r' {
            rest.drop_last()
        } else {
            rest
        }
    } else {
        line
    }
}

/// `String::pop` of std: removes the last character and returns it;
/// nothing when the string is empty.
#[verifier::external_body]
fn pop_char(text: &mut String) -> (last: Option<char>)
    ensures
        last is None <==> old(text)@.len() == 0,
        last is None ==> final(text)@ == old(text)@,
        last matches Some(c) ==> c == old(text)@.last(),
        last is Some ==> final(text)@ == old(text)@.drop_last(),
{
    text.pop()
}

/// Whether a text is not empty and ends with `c`.
pub open spec fn ends_with(text: Seq<char>, c: char) -> bool {
    text.len() > 0 && text.last() == c
}

/// `str::ends_with` of std with a character: whether the text is not
/// empty and its last character is `c`.
#[verifier::external_body]
fn ends_with_char(text: &str, c: char) -> (yes: bool)
    ensures
        yes == ends_with(text@, c),
{
    text.ends_with(c)
}

/// Takes the passphrase out of the line that the host sent: strips one
/// trailing line feed and one carriage return before it, and rejects an
/// empty passphrase.
pub fn passphrase_from_line(line: String) -> (res: Result<String, String>)
    ensures
        res is Ok <==> trimmed(line@).len() > 0,
        res matches Ok(passphrase) ==> passphrase@ == trimmed(line@),
        res matches Err(message) ==> message@ == "Passphrase is empty"@,
{
    let mut line = line;
    if ends_with_char(line.as_str(), '\n') {
        let _ = pop_char(&mut line);
        if ends_with_char(line.as_str(), '\r') {
            let _ = pop_char(&mut line);
        }
    }
    if line.as_str().is_empty() {
        return Err(String::from_str("Passphrase is empty"));
    }
    Ok(line)
}

} // verus!
