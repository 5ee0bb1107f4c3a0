//! Recognisers that the parser borrows from elsewhere: the two line
//! recognisers of `nom`, and the UTF-8 check of the standard library. Their
//! contracts are stated here and taken on trust; everything else in the crate
//! is proved from them.

use vstd::prelude::*;
use vstd::string::*;
use vstd::utf8::*;

verus! {

/// Line feed.
pub const LF: u8 = 0x0a;

/// Carriage return.
pub const CR: u8 = 0x0d;

/// Why a recogniser gave up.
#[derive(Debug, PartialEq, Eq, Clone, Copy)]
pub enum ScanError {
    /// The input does not have the expected shape.
    Mismatch,
    /// The input ends before the shape could be decided.
    Incomplete,
}

/// True for the two bytes that can end a line's content.
pub open spec fn is_break(b: u8) -> bool {
    b == CR || b == LF
}

/// The index of the first carriage return or line feed at or after `from`,
/// or the length of `s` where there is none.
pub open spec fn first_break(s: Seq<u8>, from: int) -> int
    decreases s.len() - from,
{
    if 0 <= from < s.len() && !is_break(s[from]) {
        first_break(s, from + 1)
    } else {
        from
    }
}

/// How many bytes of `input` make up the content of its first line, or why
/// that line is not properly ended. The content runs up to the first carriage
/// return or line feed, or to the end of the input. A carriage return has to
/// be followed by a line feed: one followed by another byte is a mismatch,
/// and one that is the last byte of the input leaves the matter open.
pub open spec fn content_len(input: Seq<u8>) -> Result<int, ScanError> {
    let e = first_break(input, 0);
    if e >= input.len() || input[e] == LF {
        Ok(e)
    } else if e + 1 >= input.len() {
        Err(ScanError::Incomplete)
    } else if input[e + 1] == LF {
        Ok(e)
    } else {
        Err(ScanError::Mismatch)
    }
}

/// How many bytes of line ending `input` starts with: one for a line feed,
/// two for a carriage return and a line feed. An input that is empty, or is a
/// lone carriage return, leaves the matter open; any other is a mismatch.
pub open spec fn ending_len(input: Seq<u8>) -> Result<int, ScanError> {
    if input.len() == 0 {
        Err(ScanError::Incomplete)
    } else if input[0] == LF {
        Ok(1)
    } else if input[0] != CR {
        Err(ScanError::Mismatch)
    } else if input.len() == 1 {
        Err(ScanError::Incomplete)
    } else if input[1] == LF {
        Ok(2)
    } else {
        Err(ScanError::Mismatch)
    }
}

/// Calls `nom::not_line_ending`. On success the second slice is the content
/// of the first line of `input` and the first slice is the rest, which starts
/// with the line ending. Taken on trust from the source of `nom`: it looks
/// for the first carriage return or line feed, hands back the whole input
/// where there is none, and compares what starts at a carriage return with
/// `"\r\n"`.
#[verifier::external_body]
pub(crate) fn not_line_ending(input: &[u8]) -> (r: Result<(&[u8], &[u8]), ScanError>)
    ensures
        match r {
            Ok((rest, content)) => {
                &&& content_len(input@) == Ok::<int, ScanError>(content@.len() as int)
                &&& content@ == input@.subrange(0, content@.len() as int)
                &&& rest@ == input@.subrange(content@.len() as int, input@.len() as int)
            },
            Err(e) => content_len(input@) == Err::<int, ScanError>(e),
        },
{
    match nom::not_line_ending(input) {
        nom::IResult::Done(rest, content) => Ok((rest, content)),
        nom::IResult::Error(_) => Err(ScanError::Mismatch),
        nom::IResult::Incomplete(_) => Err(ScanError::Incomplete),
    }
}

/// Calls `nom::line_ending`. On success the second slice is the line ending
/// that `input` starts with, `"\n"` or `"\r\n"`, and the first slice is what
/// follows it. Taken on trust from the source of `nom`: it compares the input
/// with `"\n"`, then with `"\r\n"`, and reports an input that is a proper
/// prefix of the text it is compared with as incomplete.
#[verifier::external_body]
pub(crate) fn line_ending(input: &[u8]) -> (r: Result<(&[u8], &[u8]), ScanError>)
    ensures
        match r {
            Ok((rest, ending)) => {
                &&& ending_len(input@) == Ok::<int, ScanError>(ending@.len() as int)
                &&& ending@ == input@.subrange(0, ending@.len() as int)
                &&& rest@ == input@.subrange(ending@.len() as int, input@.len() as int)
            },
            Err(e) => ending_len(input@) == Err::<int, ScanError>(e),
        },
{
    match nom::line_ending(input) {
        nom::IResult::Done(rest, ending) => Ok((rest, ending)),
        nom::IResult::Error(_) => Err(ScanError::Mismatch),
        nom::IResult::Incomplete(_) => Err(ScanError::Incomplete),
    }
}

/// The error of `std::str::from_utf8`, which the crate passes on unread.
#[verifier::external_type_specification]
#[verifier::external_body]
pub struct ExUtf8Error(core::str::Utf8Error);

/// `std::str::from_utf8` accepts its argument exactly when the bytes are
/// well-formed UTF-8, and then hands the same bytes back as a string slice.
pub assume_specification[ core::str::from_utf8 ](v: &[u8]) -> (r: Result<
    &str,
    core::str::Utf8Error,
>)
    ensures
        r is Ok <==> valid_utf8(v@),
        r matches Ok(text) ==> text.spec_bytes() == v@,
;

/// The content of a line stops at a line break or at the end of the input,
/// and holds no line break itself.
pub proof fn lemma_first_break(s: Seq<u8>, from: int)
    requires
        0 <= from <= s.len(),
    ensures
        from <= first_break(s, from) <= s.len(),
        first_break(s, from) < s.len() ==> is_break(s[first_break(s, from)]),
        forall|i: int| from <= i < first_break(s, from) ==> !is_break(#[trigger] s[i]),
    decreases s.len() - from,
{
    if from < s.len() && !is_break(s[from]) {
        lemma_first_break(s, from + 1);
    }
}

} // verus!
