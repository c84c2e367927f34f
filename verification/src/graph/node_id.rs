//! Stable node identities: version-4 UUIDs, held as `u128` and written in
//! their hyphenated text form inside persisted records.

use vstd::prelude::*;

verus! {

/// The lower-case hexadecimal digit for `d` (below 16).
pub open spec fn hex_digit(d: nat) -> char {
    seq!['0', '1', '2', '3', '4', '5', '6', '7', '8', '9', 'a', 'b', 'c', 'd', 'e', 'f'][(d % 16) as int]
}

/// The last `len` hexadecimal digits of `n`, most significant first, padded
/// with zeros.
pub open spec fn hex_text(n: nat, len: nat) -> Seq<char>
    decreases len,
{
    if len == 0 {
        Seq::empty()
    } else {
        hex_text(n / 16, (len - 1) as nat).push(hex_digit(n % 16))
    }
}

/// The hyphenated lower-case text that the `uuid` crate writes for an
/// identifier: its 32 hexadecimal digits, most significant first, in
/// groups of 8, 4, 4, 4 and 12 joined by hyphens.
pub open spec fn uuid_text(id: u128) -> Seq<char> {
    let h = hex_text(id as nat, 32);
    h.subrange(0, 8) + seq!['-'] + h.subrange(8, 12) + seq!['-'] + h.subrange(12, 16) + seq!['-']
        + h.subrange(16, 20) + seq!['-'] + h.subrange(20, 32)
}

/// `hex_text` gives exactly `len` digits.
pub proof fn lemma_hex_text_len(n: nat, len: nat)
    ensures
        hex_text(n, len).len() == len,
    decreases len,
{
    if len > 0 {
        lemma_hex_text_len(n / 16, (len - 1) as nat);
    }
}

/// An identifier's text has 36 characters, with hyphens at positions 8,
/// 13, 18 and 23.
pub proof fn lemma_uuid_text_shape(id: u128)
    ensures
        uuid_text(id).len() == 36,
        uuid_text(id)[8] == '-',
        uuid_text(id)[13] == '-',
        uuid_text(id)[18] == '-',
        uuid_text(id)[23] == '-',
{
    lemma_hex_text_len(id as nat, 32);
}

/// What `uuid::Uuid::parse_str` reads from a text, as a `u128`.
pub uninterp spec fn uuid_parse(text: Seq<char>) -> Option<u128>;

/// Wraps `uuid::Uuid::new_v4`: a random identifier. Nothing is stated of
/// its value, which comes from the operating system's random source.
#[verifier::external_body]
pub(crate) fn new_node_id() -> (id: u128) {
    uuid::Uuid::new_v4().as_u128()
}

/// Wraps `Uuid::to_string` (the hyphenated form) on `Uuid::from_u128(id)`,
/// which writes the identifier's bytes most significant first. States that
/// the text is `uuid_text(id)` and that `Uuid::parse_str`
/// reads the same identifier back from it, since it accepts the
/// hyphenated form it writes.
#[verifier::external_body]
pub(crate) fn node_id_to_string(id: u128) -> (text: String)
    ensures
        text@ == uuid_text(id),
        uuid_parse(text@) == Some(id),
{
    uuid::Uuid::from_u128(id).to_string()
}

/// Wraps `uuid::Uuid::parse_str`: the identifier written in `text`, if it is
/// a well-formed UUID.
#[verifier::external_body]
pub(crate) fn parse_node_id(text: &str) -> (id: Option<u128>)
    ensures
        id == uuid_parse(text@),
{
    uuid::Uuid::parse_str(text).ok().map(|u| u.as_u128())
}

} // verus!
