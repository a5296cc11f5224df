//! The byte framing under which records and settings are kept in the store:
//! integers in little-endian order, a text as its length and its UTF-8 bytes,
//! an optional text behind a one-byte tag.
//!
//! Each `put_*` function appends one item to a buffer. Each `read_*` function
//! reads one item at a position and hands back the position behind it. The
//! spec functions `take_*` say what a reader finds at the head of a byte
//! sequence and what is left behind it.

use vstd::bytes::*;
use vstd::prelude::*;
use vstd::slice::*;
use vstd::utf8::*;

verus! {

/// A byte sequence behind its own length.
pub open spec fn framed(chunk: Seq<u8>) -> Seq<u8> {
    spec_u64_to_le_bytes(chunk.len() as u64) + chunk
}

/// A text as its UTF-8 bytes behind their count.
pub open spec fn framed_text(text: Seq<char>) -> Seq<u8> {
    framed(encode_utf8(text))
}

/// An optional text: the tag 0 alone, or the tag 1 and the framed text.
pub open spec fn framed_opt_text(text: Option<Seq<char>>) -> Seq<u8> {
    match text {
        None => seq![0u8],
        Some(t) => seq![1u8] + framed_text(t),
    }
}

/// Whether a text is short enough for its length to be written in 8 bytes.
/// Every `String` is.
pub open spec fn text_fits(text: Seq<char>) -> bool {
    encode_utf8(text).len() <= u64::MAX
}

/// Whether an optional text, where there is one, is short enough to be
/// framed.
pub open spec fn opt_text_fits(text: Option<Seq<char>>) -> bool {
    text is Some ==> text_fits(text->0)
}

/// The integer in the first 8 bytes, and what follows it.
pub open spec fn take_u64(bytes: Seq<u8>) -> Option<(u64, Seq<u8>)> {
    if bytes.len() < 8 {
        None
    } else {
        Some((spec_u64_from_le_bytes(bytes.subrange(0, 8)), bytes.skip(8)))
    }
}

/// The integer in the first 16 bytes, and what follows it.
pub open spec fn take_u128(bytes: Seq<u8>) -> Option<(u128, Seq<u8>)> {
    if bytes.len() < 16 {
        None
    } else {
        Some((spec_u128_from_le_bytes(bytes.subrange(0, 16)), bytes.skip(16)))
    }
}

/// The bytes that the length in front announces, and what follows them.
/// There is nothing to take where fewer bytes are left than announced.
pub open spec fn take_framed(bytes: Seq<u8>) -> Option<(Seq<u8>, Seq<u8>)> {
    match take_u64(bytes) {
        Some((n, rest)) => if rest.len() < n {
            None
        } else {
            Some((rest.take(n as int), rest.skip(n as int)))
        },
        None => None,
    }
}

/// The framed text in front, and what follows it. There is nothing to take
/// where the framed bytes are no UTF-8.
pub open spec fn take_text(bytes: Seq<u8>) -> Option<(Seq<char>, Seq<u8>)> {
    match take_framed(bytes) {
        Some((chunk, rest)) => if valid_utf8(chunk) {
            Some((decode_utf8(chunk), rest))
        } else {
            None
        },
        None => None,
    }
}

/// The optional text in front, and what follows it. There is nothing to take
/// behind a tag other than 0 and 1.
pub open spec fn take_opt_text(bytes: Seq<u8>) -> Option<(Option<Seq<char>>, Seq<u8>)> {
    if bytes.len() == 0 {
        None
    } else if bytes[0] == 0 {
        Some((None, bytes.skip(1)))
    } else if bytes[0] == 1 {
        match take_text(bytes.skip(1)) {
            Some((text, rest)) => Some((Some(text), rest)),
            None => None,
        }
    } else {
        None
    }
}

/// The UTF-8 bytes of two texts joined are the bytes of the first and then
/// the bytes of the second.
pub proof fn lemma_encode_utf8_concat(a: Seq<char>, b: Seq<char>)
    ensures
        encode_utf8(a + b) == encode_utf8(a) + encode_utf8(b),
    decreases a.len(),
{
    if a.len() == 0 {
        assert(a + b =~= b);
        assert(encode_utf8(a) + encode_utf8(b) =~= encode_utf8(b));
    } else {
        lemma_encode_utf8_concat(a.drop_first(), b);
        assert((a + b).drop_first() =~= a.drop_first() + b);
        assert(encode_utf8(a + b) =~= encode_utf8(a) + encode_utf8(b));
    }
}

/// Two texts with the same UTF-8 bytes are the same text.
pub proof fn lemma_encode_utf8_injective(a: Seq<char>, b: Seq<char>)
    requires
        encode_utf8(a) == encode_utf8(b),
    ensures
        a == b,
{
    encode_utf8_decode_utf8(a);
    encode_utf8_decode_utf8(b);
}

/// A reader finds a written integer again, and behind it what was written
/// next.
pub proof fn lemma_take_u64(value: u64, rest: Seq<u8>)
    ensures
        take_u64(spec_u64_to_le_bytes(value) + rest) == Some((value, rest)),
{
    lemma_auto_spec_u64_to_from_le_bytes();
    let bytes = spec_u64_to_le_bytes(value) + rest;
    assert(bytes.subrange(0, 8) =~= spec_u64_to_le_bytes(value));
    assert(bytes.skip(8) =~= rest);
}

/// The same for an integer of 16 bytes.
pub proof fn lemma_take_u128(value: u128, rest: Seq<u8>)
    ensures
        take_u128(spec_u128_to_le_bytes(value) + rest) == Some((value, rest)),
{
    lemma_auto_spec_u128_to_from_le_bytes();
    let bytes = spec_u128_to_le_bytes(value) + rest;
    assert(bytes.subrange(0, 16) =~= spec_u128_to_le_bytes(value));
    assert(bytes.skip(16) =~= rest);
}

/// A reader finds framed bytes again, and behind them what was written
/// next.
pub proof fn lemma_take_framed(chunk: Seq<u8>, rest: Seq<u8>)
    requires
        chunk.len() <= u64::MAX,
    ensures
        take_framed(framed(chunk) + rest) == Some((chunk, rest)),
{
    let n = chunk.len() as u64;
    lemma_take_u64(n, chunk + rest);
    assert(framed(chunk) + rest =~= spec_u64_to_le_bytes(n) + (chunk + rest));
    assert((chunk + rest).take(n as int) =~= chunk);
    assert((chunk + rest).skip(n as int) =~= rest);
}

/// A reader finds a framed text again, and behind it what was written next.
pub proof fn lemma_take_text(text: Seq<char>, rest: Seq<u8>)
    requires
        text_fits(text),
    ensures
        take_text(framed_text(text) + rest) == Some((text, rest)),
{
    lemma_take_framed(encode_utf8(text), rest);
    encode_utf8_valid_utf8(text);
    encode_utf8_decode_utf8(text);
}

/// A reader finds an optional text again, and behind it what was written
/// next.
pub proof fn lemma_take_opt_text(text: Option<Seq<char>>, rest: Seq<u8>)
    requires
        opt_text_fits(text),
    ensures
        take_opt_text(framed_opt_text(text) + rest) == Some((text, rest)),
{
    let bytes = framed_opt_text(text) + rest;
    match text {
        None => {
            assert(bytes.skip(1) =~= rest);
        },
        Some(t) => {
            lemma_take_text(t, rest);
            assert(bytes.skip(1) =~= framed_text(t) + rest);
        },
    }
}

/// `String::from_utf8` of std: the text that the bytes spell, or `None`
/// where they are no UTF-8. The text that comes back holds exactly the bytes
/// that went in.
#[verifier::external_body]
pub(crate) fn text_from_utf8(bytes: Vec<u8>) -> (text: Option<String>)
    ensures
        text is Some <==> valid_utf8(bytes@),
        text is Some ==> encode_utf8(text->0@) == bytes@,
{
    match String::from_utf8(bytes) {
        Ok(text) => Some(text),
        Err(_) => None,
    }
}

/// Appends an integer, low byte first.
pub fn put_u64(out: &mut Vec<u8>, value: u64)
    ensures
        final(out)@ == old(out)@ + spec_u64_to_le_bytes(value),
{
    let bytes = u64_to_le_bytes(value);
    out.extend_from_slice(bytes.as_slice());
}

/// Appends an integer of 16 bytes, low byte first.
pub fn put_u128(out: &mut Vec<u8>, value: u128)
    ensures
        final(out)@ == old(out)@ + spec_u128_to_le_bytes(value),
{
    let bytes = u128_to_le_bytes(value);
    out.extend_from_slice(bytes.as_slice());
}

/// Appends a text: the count of its UTF-8 bytes, then the bytes.
pub fn put_text(out: &mut Vec<u8>, text: &str)
    ensures
        final(out)@ == old(out)@ + framed_text(text@),
        text_fits(text@),
{
    let bytes = text.as_bytes();
    put_u64(out, bytes.len() as u64);
    out.extend_from_slice(bytes);
    assert(out@ =~= old(out)@ + framed_text(text@));
}

/// Appends an optional text: the tag 0, or the tag 1 and the text.
pub fn put_opt_text(out: &mut Vec<u8>, text: &Option<String>)
    ensures
        final(out)@ == old(out)@ + framed_opt_text(opt_text(*text)),
        opt_text_fits(opt_text(*text)),
{
    match text {
        None => {
            out.push(0u8);
            assert(out@ =~= old(out)@ + framed_opt_text(opt_text(*text)));
        },
        Some(t) => {
            out.push(1u8);
            put_text(out, t.as_str());
            assert(out@ =~= old(out)@ + framed_opt_text(opt_text(*text)));
        },
    }
}

/// The text that an optional `String` stands for.
pub open spec fn opt_text(text: Option<String>) -> Option<Seq<char>> {
    match text {
        None => None,
        Some(t) => Some(t@),
    }
}

/// Reads the integer at `pos`, if 8 bytes are left there.
pub fn read_u64(bytes: &[u8], pos: usize) -> (found: Option<(u64, usize)>)
    requires
        pos <= bytes@.len(),
    ensures
        match found {
            Some((value, next)) => pos <= next <= bytes@.len() && take_u64(bytes@.skip(pos as int))
                == Some((value, bytes@.skip(next as int))),
            None => take_u64(bytes@.skip(pos as int)) is None,
        },
{
    if bytes.len() - pos < 8 {
        return None;
    }
    let value = u64_from_le_bytes(slice_subrange(bytes, pos, pos + 8));
    proof {
        let tail = bytes@.skip(pos as int);
        assert(tail.subrange(0, 8) =~= bytes@.subrange(pos as int, pos + 8));
        assert(tail.skip(8) =~= bytes@.skip(pos + 8));
    }
    Some((value, pos + 8))
}

/// Reads the integer at `pos`, if 16 bytes are left there.
pub fn read_u128(bytes: &[u8], pos: usize) -> (found: Option<(u128, usize)>)
    requires
        pos <= bytes@.len(),
    ensures
        match found {
            Some((value, next)) => pos <= next <= bytes@.len() && take_u128(
                bytes@.skip(pos as int),
            ) == Some((value, bytes@.skip(next as int))),
            None => take_u128(bytes@.skip(pos as int)) is None,
        },
{
    if bytes.len() - pos < 16 {
        return None;
    }
    let value = u128_from_le_bytes(slice_subrange(bytes, pos, pos + 16));
    proof {
        let tail = bytes@.skip(pos as int);
        assert(tail.subrange(0, 16) =~= bytes@.subrange(pos as int, pos + 16));
        assert(tail.skip(16) =~= bytes@.skip(pos + 16));
    }
    Some((value, pos + 16))
}

/// Reads the text at `pos`: `None` where the bytes end too early or are no
/// UTF-8.
pub fn read_text(bytes: &[u8], pos: usize) -> (found: Option<(String, usize)>)
    requires
        pos <= bytes@.len(),
    ensures
        match found {
            Some((text, next)) => pos <= next <= bytes@.len() && take_text(bytes@.skip(pos as int))
                == Some((text@, bytes@.skip(next as int))) && text_fits(text@),
            None => take_text(bytes@.skip(pos as int)) is None,
        },
{
    let (n, start) = match read_u64(bytes, pos) {
        Some(found) => found,
        None => { return None; },
    };
    if ((bytes.len() - start) as u64) < n {
        return None;
    }
    let end: usize = start + n as usize;
    let chunk = slice_to_vec(slice_subrange(bytes, start, end));
    proof {
        let rest = bytes@.skip(start as int);
        assert(rest.take(n as int) =~= chunk@);
        assert(rest.skip(n as int) =~= bytes@.skip(end as int));
    }
    match text_from_utf8(chunk) {
        Some(text) => {
            proof {
                encode_utf8_decode_utf8(text@);
            }
            Some((text, end))
        },
        None => None,
    }
}

/// Reads the optional text at `pos`: `None` where the tag is unknown or the
/// text behind it cannot be read.
pub fn read_opt_text(bytes: &[u8], pos: usize) -> (found: Option<(Option<String>, usize)>)
    requires
        pos <= bytes@.len(),
    ensures
        match found {
            Some((text, next)) => pos <= next <= bytes@.len() && take_opt_text(
                bytes@.skip(pos as int),
            ) == Some((opt_text(text), bytes@.skip(next as int))) && opt_text_fits(opt_text(text)),
            None => take_opt_text(bytes@.skip(pos as int)) is None,
        },
{
    if pos == bytes.len() {
        return None;
    }
    let tag: u8 = bytes[pos];
    proof {
        let tail = bytes@.skip(pos as int);
        assert(tail[0] == tag);
        assert(tail.skip(1) =~= bytes@.skip(pos + 1));
    }
    if tag == 0 {
        Some((None, pos + 1))
    } else if tag == 1 {
        match read_text(bytes, pos + 1) {
            Some((text, next)) => Some((Some(text), next)),
            None => None,
        }
    } else {
        None
    }
}

} // verus!
