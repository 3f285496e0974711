//! Bounded previews of matched lines.
//!
//! A preview is the beginning of a line, cut after a maximum number of
//! characters and never inside one. A line that is not well-formed UTF-8 is
//! shown as a fixed placeholder instead.

use vstd::prelude::*;
use vstd::slice::slice_subrange;
use vstd::string::{StrSliceExecFns, StringExecFns, StringSliceAdditionalSpecFns};
use vstd::utf8::{
    decode_utf8, decode_utf8_encode_utf8, encode_utf8, encode_utf8_decode_utf8,
    encode_utf8_first_scalar, encode_utf8_valid_utf8, is_char_boundary, pop_first_scalar,
    valid_utf8,
};

verus! {

/// `core::str::Utf8Error`: why bytes are no text. Nothing is read from it.
#[verifier::external_type_specification]
#[verifier::external_body]
pub struct ExUtf8Error(core::str::Utf8Error);

/// `core::str::from_utf8`.
///
/// Trusted: it accepts exactly the well-formed UTF-8 byte sequences, and the
/// text it returns is made of the bytes it was given.
pub assume_specification[ core::str::from_utf8 ](v: &[u8]) -> (r: Result<
    &str,
    core::str::Utf8Error,
>)
    ensures
        r is Ok <==> valid_utf8(v@),
        r matches Ok(s) ==> s.spec_bytes() == v@,
;

/// The most characters that a preview holds.
pub const MAXIMUM_PREVIEW_LEN: usize = 125;

/// What is shown for a line that is not well-formed UTF-8.
pub open spec fn invalid_placeholder() -> Seq<char> {
    "<invalid UTF-8>"@
}

/// The preview of a line: its first characters, `MAXIMUM_PREVIEW_LEN` at
/// most, or the placeholder if its bytes are not well-formed.
pub open spec fn preview_text(line: Seq<u8>) -> Seq<char> {
    if valid_utf8(line) {
        let chars = decode_utf8(line);
        if chars.len() > MAXIMUM_PREVIEW_LEN {
            chars.take(MAXIMUM_PREVIEW_LEN as int)
        } else {
            chars
        }
    } else {
        invalid_placeholder()
    }
}

/// The bytes of the first `k` characters of a text are the first bytes of the
/// text, and they end where a character ends.
pub proof fn lemma_prefix_ends_on_boundary(chars: Seq<char>, k: int)
    requires
        0 <= k <= chars.len(),
    ensures
        encode_utf8(chars.take(k)).len() <= encode_utf8(chars).len(),
        encode_utf8(chars).subrange(0, encode_utf8(chars.take(k)).len() as int) == encode_utf8(
            chars.take(k),
        ),
        is_char_boundary(encode_utf8(chars), encode_utf8(chars.take(k)).len() as int),
    decreases k,
{
    let bytes = encode_utf8(chars);
    encode_utf8_valid_utf8(chars);
    if k == 0 {
        assert(chars.take(0) =~= Seq::<char>::empty());
        assert(bytes.subrange(0, 0) =~= encode_utf8(chars.take(0)));
    } else {
        let rest = chars.drop_first();
        let head = chars.take(k);
        encode_utf8_first_scalar(chars);
        encode_utf8_first_scalar(head);
        assert(pop_first_scalar(bytes) =~= encode_utf8(rest));
        assert(head.drop_first() =~= rest.take(k - 1));
        lemma_prefix_ends_on_boundary(rest, k - 1);
        let cut = encode_utf8(head);
        let inner = encode_utf8(rest.take(k - 1));
        assert(bytes.subrange(0, cut.len() as int) =~= cut) by {
            assert(encode_utf8(rest).subrange(0, inner.len() as int) == inner);
            assert forall|t: int| 0 <= t < cut.len() implies bytes[t] == cut[t] by {
                let first = vstd::utf8::encode_scalar(chars[0] as u32);
                if t >= first.len() {
                    assert(encode_utf8(rest).subrange(0, inner.len() as int)[t - first.len()]
                        == inner[t - first.len()]);
                }
            }
        }
    }
}

/// A preview is made of whole characters of its line: the bytes of a preview
/// of well-formed text are the first bytes of the line, up to a place where a
/// character ends, and hold `MAXIMUM_PREVIEW_LEN` characters at most.
pub proof fn lemma_preview_never_splits(line: Seq<u8>)
    requires
        valid_utf8(line),
    ensures
        preview_text(line).len() <= MAXIMUM_PREVIEW_LEN,
        encode_utf8(preview_text(line)).len() <= line.len(),
        line.subrange(0, encode_utf8(preview_text(line)).len() as int) == encode_utf8(
            preview_text(line),
        ),
        is_char_boundary(line, encode_utf8(preview_text(line)).len() as int),
{
    let chars = decode_utf8(line);
    decode_utf8_encode_utf8(line);
    if chars.len() > MAXIMUM_PREVIEW_LEN {
        lemma_prefix_ends_on_boundary(chars, MAXIMUM_PREVIEW_LEN as int);
    } else {
        lemma_prefix_ends_on_boundary(chars, chars.len() as int);
        assert(chars.take(chars.len() as int) =~= chars);
    }
}

/// The preview of `line`.
pub fn preview(line: &[u8]) -> (text: String)
    ensures
        text@ == preview_text(line@),
{
    match core::str::from_utf8(line) {
        Ok(s) => {
            proof {
                encode_utf8_decode_utf8(s@);
            }
            let count = s.unicode_len();
            if count > MAXIMUM_PREVIEW_LEN {
                let head = s.substring_char(0, MAXIMUM_PREVIEW_LEN);
                String::from_str(head)
            } else {
                String::from_str(s)
            }
        },
        Err(_) => String::from_str("<invalid UTF-8>"),
    }
}

/// The preview of the bytes `start..end` of `haystack`.
pub fn preview_of(haystack: &[u8], start: usize, end: usize) -> (text: String)
    requires
        start <= end <= haystack@.len(),
    ensures
        text@ == preview_text(haystack@.subrange(start as int, end as int)),
{
    preview(slice_subrange(haystack, start, end))
}

} // verus!
