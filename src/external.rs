//! Calls into outside crates and std, each behind a contract.
use vstd::prelude::*;

use sha2::Digest;

use crate::types::Identity;

verus! {

/// The lowercase hexadecimal digit for a value below sixteen.
pub open spec fn hex_digit(v: u8) -> char {
    if v < 10 {
        (('0' as u8) + v) as char
    } else {
        (('a' as u8) + (v - 10)) as char
    }
}

/// Two lowercase hexadecimal digits per byte, high nibble first.
pub open spec fn hex_text(bytes: Seq<u8>) -> Seq<char>
    decreases bytes.len(),
{
    if bytes.len() == 0 {
        Seq::empty()
    } else {
        seq![hex_digit(bytes[0] / 16), hex_digit(bytes[0] % 16)] + hex_text(bytes.drop_first())
    }
}

/// The domain that the `email_address` crate reads out of an address, or
/// `None` where it does not accept the text as an address.
pub uninterp spec fn email_domain_of(address: Seq<char>) -> Option<Seq<char>>;

/// The bytes of the principal whose textual form is `text`, or `None` where
/// `candid` does not accept the text.
pub uninterp spec fn principal_bytes_of(text: Seq<char>) -> Option<Seq<u8>>;

/// The SHA-256 digest of the UTF-8 bytes of `text`.
pub uninterp spec fn sha256_of(text: Seq<char>) -> Seq<u8>;

/// Relies on `hex::encode`: each byte becomes two lowercase hex digits.
#[verifier::external_body]
pub fn hex_encode(bytes: &Vec<u8>) -> (r: String)
    ensures
        r@ == hex_text(bytes@),
{
    hex::encode(bytes)
}

/// Relies on `email_address::EmailAddress::from_str` (which `is_valid` is
/// defined by) and `EmailAddress::domain`: the domain of a valid address.
#[verifier::external_body]
pub fn email_domain(address: &str) -> (r: Option<String>)
    ensures
        r is Some <==> email_domain_of(address@) is Some,
        r is Some ==> r->0@ == email_domain_of(address@)->0,
{
    match <email_address::EmailAddress as std::str::FromStr>::from_str(address) {
        Ok(parsed) => Some(parsed.domain().to_string()),
        Err(_) => None,
    }
}

/// Relies on `candid::Principal::from_text` and `Principal::as_slice`: the
/// bytes of a principal in its textual form, at most 29 of them.
#[verifier::external_body]
pub fn principal_from_text(text: &str) -> (r: Option<Identity>)
    ensures
        r is Some <==> principal_bytes_of(text@) is Some,
        r is Some ==> r->0.bytes@ == principal_bytes_of(text@)->0,
        r is Some ==> r->0.bytes@.len() <= 29,
{
    match candid::Principal::from_text(text) {
        Ok(p) => Some(Identity { bytes: p.as_slice().to_vec() }),
        Err(_) => None,
    }
}

/// Relies on `candid::Principal::anonymous`: the single byte 4.
#[verifier::external_body]
pub fn anonymous_identity() -> (r: Identity)
    ensures
        r.bytes@ == seq![4u8],
{
    Identity { bytes: candid::Principal::anonymous().as_slice().to_vec() }
}

/// Relies on `sha2::Sha256`: the 32-byte digest of the text's bytes.
#[verifier::external_body]
pub fn sha256_digest(text: &str) -> (r: Vec<u8>)
    ensures
        r@ == sha256_of(text@),
        r@.len() == 32,
{
    let mut hasher = sha2::Sha256::new();
    hasher.update(text);
    hasher.finalize().to_vec()
}

} // verus!
