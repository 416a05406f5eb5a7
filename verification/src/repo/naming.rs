use vstd::prelude::*;

verus! {

/// A lower-case hexadecimal digit.
pub open spec fn is_lower_hex_digit(c: char) -> bool {
    ('0' <= c && c <= '9') || ('a' <= c && c <= 'f')
}

/// The hex text of a SHA-256 digest: sixty-four lower-case hex digits.
pub open spec fn is_sha256_text(s: Seq<char>) -> bool {
    &&& s.len() == 64
    &&& forall|i: int| 0 <= i < s.len() ==> is_lower_hex_digit(#[trigger] s[i])
}

/// The text form of a random (version 4) UUID: thirty-six characters,
/// hyphens at positions 8, 13, 18 and 23, lower-case hex digits elsewhere,
/// the version digit `4` at position 14 and a variant digit of `8`, `9`,
/// `a` or `b` at position 19.
pub open spec fn is_uuid_v4_text(s: Seq<char>) -> bool {
    &&& s.len() == 36
    &&& forall|i: int|
        0 <= i < 36 ==> (if i == 8 || i == 13 || i == 18 || i == 23 {
            #[trigger] s[i] == '-'
        } else {
            is_lower_hex_digit(s[i])
        })
    &&& s[14] == '4'
    &&& (s[19] == '8' || s[19] == '9' || s[19] == 'a' || s[19] == 'b')
}

/// The lower-case hex SHA-256 digest of the UTF-8 bytes of `text`.
pub uninterp spec fn sha256_hex(text: Seq<char>) -> Seq<char>;

/// Digests `text` with `sha256::digest`, which hex-encodes (lower case) the
/// SHA-256 digest of the text's UTF-8 bytes. The contract claims that the
/// result is a function of the text alone and is sixty-four lower-case hex
/// digits (thirty-two bytes, `hex::encode`).
#[verifier::external_body]
pub(crate) fn sha256_digest(text: &str) -> (digest: String)
    ensures
        digest@ == sha256_hex(text@),
        is_sha256_text(digest@),
{
    sha256::digest(text)
}

/// Draws a random UUID with `uuid::Uuid::new_v4` and writes it with its
/// `Display` impl. The value is random, so the contract claims only its
/// form, which `Uuid::new_v4` (version and variant bits) and the hyphenated
/// lower-case formatter fix.
#[verifier::external_body]
pub(crate) fn random_uuid_text() -> (text: String)
    ensures
        is_uuid_v4_text(text@),
{
    uuid::Uuid::new_v4().to_string()
}

} // verus!
