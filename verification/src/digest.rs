//! The outside functions that content addressing rests on: how std shows an
//! optional text, the SHA-256 digest, and base 32 in both directions.
//!
//! Each of them is a function of its argument alone, so each result has a
//! name here, and the contracts of the registry speak of these names.

use crate::codec::opt_text;
use vstd::prelude::*;
use vstd::string::StringExecFns;

verus! {

/// How std's `Debug` shows an optional text: one fixed word where there is
/// none, otherwise the text, escaped, between quotes and brackets.
pub uninterp spec fn debug_text(text: Option<Seq<char>>) -> Seq<char>;

/// The SHA-256 digest of a byte sequence.
pub uninterp spec fn sha2_256(data: Seq<u8>) -> Seq<u8>;

/// The base 32 text of a byte sequence, in the alphabet of RFC 4648 and
/// without padding.
pub uninterp spec fn base32_text(data: Seq<u8>) -> Seq<char>;

/// The bytes that a base 32 text stands for, or `None` where it is no base 32
/// text.
pub uninterp spec fn base32_bytes(text: Seq<char>) -> Option<Seq<u8>>;

/// Whether a character belongs to the base 32 alphabet of RFC 4648: a
/// capital letter, or a digit from 2 to 7.
pub open spec fn is_base32_char(c: char) -> bool {
    ('A' <= c && c <= 'Z') || ('2' <= c && c <= '7')
}

/// Whether a text has the shape of the unpadded base 32 text of `n` bytes:
/// eight characters of the alphabet for every five bytes, rounded up, and
/// no padding behind them.
pub open spec fn is_base32_of(text: Seq<char>, n: nat) -> bool {
    &&& text.len() == (8 * n + 4) / 5
    &&& forall|i: int| 0 <= i < text.len() ==> is_base32_char(#[trigger] text[i])
}

/// `format!("{:?}", ..)` of std on an `Option<String>`: the text that `Debug`
/// writes for it.
#[verifier::external_body]
pub(crate) fn show_opt_text(text: &Option<String>) -> (shown: String)
    ensures
        shown@ == debug_text(opt_text(*text)),
{
    format!("{:?}", text)
}

/// `Code::Sha2_256.digest(..)` of `multihash`, and `Multihash::digest` on what
/// it returns: the SHA-256 digest of `data`, without the multihash header.
/// The outside crate gives the size of this hash as 32 bytes.
#[verifier::external_body]
pub(crate) fn sha256(data: &[u8]) -> (digest: Vec<u8>)
    ensures
        digest@ == sha2_256(data@),
        digest@.len() == 32,
{
    let hash = multihash::MultihashDigest::digest(&multihash::Code::Sha2_256, data);
    Vec::from(hash.digest())
}

/// `base32::encode` with the alphabet of RFC 4648, unpadded. The text that it
/// returns is one that `base32::decode` turns back into `data`: the outside
/// crate's own tests state this of every input. It writes eight characters
/// of the alphabet for every five bytes and cuts off what the last, shorter
/// group does not fill, so `n` bytes give `(8n + 4) / 5` characters.
#[verifier::external_body]
pub(crate) fn base32_encode(data: &[u8]) -> (text: String)
    ensures
        text@ == base32_text(data@),
        base32_bytes(text@) == Some(data@),
        is_base32_of(text@, data@.len()),
{
    base32::encode(base32::Alphabet::RFC4648 { padding: false }, data)
}

/// `base32::decode` with the alphabet of RFC 4648, unpadded: the bytes that
/// `text` stands for, or `None` where it holds a character that the alphabet
/// lacks.
#[verifier::external_body]
pub(crate) fn base32_decode(text: &str) -> (data: Option<Vec<u8>>)
    ensures
        match data {
            Some(bytes) => base32_bytes(text@) == Some(bytes@),
            None => base32_bytes(text@) is None,
        },
{
    base32::decode(base32::Alphabet::RFC4648 { padding: false }, text)
}

/// The text over which a record is hashed: the owner, the value as shown and
/// the lineage as shown, with a full stop between them.
pub open spec fn canonical_join(owner: Seq<char>, value: Seq<char>, lineage: Seq<char>) -> Seq<
    char,
> {
    owner + seq!['.'] + value + seq!['.'] + lineage
}

/// Joins the three parts of a record's canonical text.
pub fn canonical_form(owner: &str, value_shown: &str, lineage_shown: &str) -> (text: String)
    ensures
        text@ == canonical_join(owner@, value_shown@, lineage_shown@),
{
    proof {
        reveal_strlit(".");
        assert("."@ =~= seq!['.']);
    }
    let mut text = String::from_str(owner);
    text.append(".");
    text.append(value_shown);
    text.append(".");
    text.append(lineage_shown);
    text
}

} // verus!
