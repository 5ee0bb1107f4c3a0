//! The parser: it walks the bytes of a document line by line and hands back
//! the lines that the grammar finds in it.

use crate::grammar::{
    comment_at, content_at, document, find_quote, find_separator, key_value_at,
    lemma_line_advances, line_at, lines_from, quoted_at, separator_at, skip_space, value_at,
    LineView, EQUALS, HASH, QUOTE, SEPARATOR_LEN, SPACE, TAB,
};
use crate::scan::{lemma_first_break, line_ending, not_line_ending, ScanError, CR, LF};
use crate::text::{lemma_ascii_boundaries, lemma_piece_is_valid, text};
use vstd::pervasive::unreached;
use vstd::prelude::*;
use vstd::slice::slice_subrange;
use vstd::std_specs::convert::FromSpecImpl;
use vstd::string::*;
use vstd::utf8::*;

verus! {

/// One line of a document.
#[derive(Debug, PartialEq)]
pub enum Line {
    /// A property name and its value.
    KeyValue(String, String),
    /// The text of a comment, without its `#`.
    Comment(String),
}

impl View for Line {
    type V = LineView;

    open spec fn view(&self) -> LineView {
        match self {
            Line::KeyValue(key, value) => LineView::KeyValue(key@, value@),
            Line::Comment(content) => LineView::Comment(content@),
        }
    }
}

/// What each of `lines` says, in the same order.
pub open spec fn line_views(lines: Seq<Line>) -> Seq<LineView> {
    lines.map_values(|line: Line| line@)
}

/// The one way in which parsing fails.
#[derive(Debug, PartialEq)]
pub enum ParseError {
    /// The text is not a document of the grammar.
    Syntax,
}

impl From<ScanError> for ParseError {
    /// Input that ends too soon is as much a syntax error as input of the
    /// wrong shape.
    fn from(error: ScanError) -> (r: ParseError) {
        ParseError::Syntax
    }
}

impl FromSpecImpl<ScanError> for ParseError {
    open spec fn obeys_from_spec() -> bool {
        true
    }

    open spec fn from_spec(error: ScanError) -> ParseError {
        ParseError::Syntax
    }
}

/// True if `at` is an index of `s`, or its length, at which a character
/// starts.
pub open spec fn is_cut(s: Seq<u8>, at: int) -> bool {
    0 <= at <= s.len() && is_char_boundary(s, at)
}

/// Decodes well-formed UTF-8 into an owned string.
pub fn to_string(bytes: &[u8]) -> (r: String)
    requires
        valid_utf8(bytes@),
    ensures
        r@ == decode_utf8(bytes@),
{
    match core::str::from_utf8(bytes) {
        Ok(decoded) => {
            proof {
                encode_utf8_decode_utf8(decoded@);
            }
            decoded.to_owned()
        },
        Err(_) => unreached(),
    }
}

/// Decodes the bytes of `input` from `from` up to `to`.
fn piece(input: &[u8], from: usize, to: usize) -> (r: String)
    requires
        valid_utf8(input@),
        from <= to,
        is_cut(input@, from as int),
        is_cut(input@, to as int),
    ensures
        r@ == text(input@, from as int, to as int),
{
    proof {
        lemma_piece_is_valid(input@, from as int, to as int);
    }
    to_string(slice_subrange(input, from, to))
}

/// Steps over the white space at `from`.
fn skip_spaces(input: &[u8], from: usize) -> (r: usize)
    requires
        valid_utf8(input@),
        is_cut(input@, from as int),
    ensures
        r == skip_space(input@, from as int),
        from <= r <= input.len(),
        is_cut(input@, r as int),
{
    let mut at: usize = from;
    while at < input.len() && (input[at] == SPACE || input[at] == TAB || input[at] == CR
        || input[at] == LF)
        invariant
            valid_utf8(input@),
            from <= at <= input.len(),
            is_cut(input@, at as int),
            skip_space(input@, from as int) == skip_space(input@, at as int),
        decreases input.len() - at,
    {
        proof {
            lemma_ascii_boundaries(input@, at as int);
        }
        at += 1;
    }
    at
}

/// Looks for the first separator on the line of `from`.
fn seek_separator(input: &[u8], from: usize) -> (r: Option<usize>)
    requires
        from <= input.len(),
    ensures
        r matches Some(sep) ==> find_separator(input@, from as int) == Some(sep as int) && from
            <= sep && sep + SEPARATOR_LEN <= input.len() && separator_at(input@, sep as int),
        r is None ==> find_separator(input@, from as int) is None,
{
    let mut at: usize = from;
    while at < input.len() && input[at] != CR && input[at] != LF
        invariant
            from <= at <= input.len(),
            find_separator(input@, from as int) == find_separator(input@, at as int),
        decreases input.len() - at,
    {
        if input.len() - at >= SEPARATOR_LEN && input[at] == SPACE && input[at + 1] == EQUALS
            && input[at + 2] == SPACE {
            return Some(at);
        }
        at += 1;
    }
    None
}

/// Looks for the first quote at or after `from`.
fn seek_quote(input: &[u8], from: usize) -> (r: Option<usize>)
    requires
        from <= input.len(),
    ensures
        r matches Some(q) ==> find_quote(input@, from as int) == Some(q as int) && from <= q
            < input.len() && input@[q as int] == QUOTE,
        r is None ==> find_quote(input@, from as int) is None,
{
    let mut at: usize = from;
    while at < input.len()
        invariant
            from <= at <= input.len(),
            find_quote(input@, from as int) == find_quote(input@, at as int),
        decreases input.len() - at,
    {
        if input[at] == QUOTE {
            return Some(at);
        }
        at += 1;
    }
    None
}

/// Reads the rest of the line that starts at `from`.
fn take_content(input: &[u8], from: usize) -> (r: Result<(String, usize), ParseError>)
    requires
        valid_utf8(input@),
        is_cut(input@, from as int),
    ensures
        match r {
            Ok((content, stop)) => {
                &&& content_at(input@, from as int) == Some((content@, stop as int))
                &&& from <= stop
                &&& is_cut(input@, stop as int)
            },
            Err(e) => e == ParseError::Syntax && content_at(input@, from as int) is None,
        },
{
    let tail = slice_subrange(input, from, input.len());
    match not_line_ending(tail) {
        Ok((_, content)) => {
            proof {
                lemma_first_break(tail@, 0);
            }
            let stop: usize = from + content.len();
            proof {
                if stop < input.len() {
                    assert(tail@[stop - from] == input@[stop as int]);
                    lemma_ascii_boundaries(input@, stop as int);
                } else {
                    is_char_boundary_start_end_of_seq(input@);
                }
            }
            Ok((piece(input, from, stop), stop))
        },
        Err(e) => Err(ParseError::from(e)),
    }
}

/// Reads the quoted value whose opening quote stands at `open`.
fn take_quoted(input: &[u8], open: usize) -> (r: Result<(String, usize), ParseError>)
    requires
        valid_utf8(input@),
        open < input.len(),
        input@[open as int] == QUOTE,
    ensures
        match r {
            Ok((value, stop)) => {
                &&& quoted_at(input@, open as int) == Some((value@, stop as int))
                &&& open < stop
                &&& is_cut(input@, stop as int)
            },
            Err(e) => e == ParseError::Syntax && quoted_at(input@, open as int) is None,
        },
{
    proof {
        lemma_ascii_boundaries(input@, open as int);
    }
    match seek_quote(input, open + 1) {
        None => Err(ParseError::Syntax),
        Some(close) => {
            proof {
                lemma_ascii_boundaries(input@, close as int);
            }
            let after: usize = close + 1;
            if after == input.len() {
                Ok((piece(input, open + 1, close), after))
            } else {
                let tail = slice_subrange(input, after, input.len());
                match line_ending(tail) {
                    Ok((_, ending)) => {
                        let stop: usize = after + ending.len();
                        proof {
                            assert(tail@[stop - after - 1] == input@[stop - 1]);
                            lemma_ascii_boundaries(input@, stop - 1);
                        }
                        Ok((piece(input, open + 1, close), stop))
                    },
                    Err(e) => Err(ParseError::from(e)),
                }
            }
        },
    }
}

/// Reads the value that starts at `from`, quoted or bare.
fn take_value(input: &[u8], from: usize) -> (r: Result<(String, usize), ParseError>)
    requires
        valid_utf8(input@),
        is_cut(input@, from as int),
    ensures
        match r {
            Ok((value, stop)) => {
                &&& value_at(input@, from as int) == Some((value@, stop as int))
                &&& from <= stop
                &&& is_cut(input@, stop as int)
            },
            Err(e) => e == ParseError::Syntax && value_at(input@, from as int) is None,
        },
{
    if from >= input.len() {
        Err(ParseError::Syntax)
    } else if input[from] == QUOTE {
        take_quoted(input, from)
    } else {
        take_content(input, from)
    }
}

/// Reads the key and the value that start at `from`.
fn take_key_value(input: &[u8], from: usize) -> (r: Result<(Line, usize), ParseError>)
    requires
        valid_utf8(input@),
        is_cut(input@, from as int),
    ensures
        match r {
            Ok((line, stop)) => {
                &&& key_value_at(input@, from as int) == Some((line@, stop as int))
                &&& from <= stop
                &&& is_cut(input@, stop as int)
            },
            Err(e) => e == ParseError::Syntax && key_value_at(input@, from as int) is None,
        },
{
    match seek_separator(input, from) {
        None => Err(ParseError::Syntax),
        Some(sep) => {
            proof {
                lemma_ascii_boundaries(input@, sep as int);
                lemma_ascii_boundaries(input@, sep + 2);
            }
            match take_value(input, sep + SEPARATOR_LEN) {
                Ok((value, stop)) => Ok((Line::KeyValue(piece(input, from, sep), value), stop)),
                Err(e) => Err(e),
            }
        },
    }
}

/// Reads the comment whose `#` stands at `from`.
fn take_comment(input: &[u8], from: usize) -> (r: Result<(Line, usize), ParseError>)
    requires
        valid_utf8(input@),
        from < input.len(),
        input@[from as int] == HASH,
    ensures
        match r {
            Ok((line, stop)) => {
                &&& comment_at(input@, from as int) == Some((line@, stop as int))
                &&& from < stop
                &&& is_cut(input@, stop as int)
            },
            Err(e) => e == ParseError::Syntax && comment_at(input@, from as int) is None,
        },
{
    proof {
        lemma_ascii_boundaries(input@, from as int);
    }
    match take_content(input, from + 1) {
        Ok((content, stop)) => Ok((Line::Comment(content), stop)),
        Err(e) => Err(e),
    }
}

/// Reads the line at `from`, with the white space around it.
fn take_line(input: &[u8], from: usize) -> (r: Result<(Line, usize), ParseError>)
    requires
        valid_utf8(input@),
        from < input.len(),
        is_cut(input@, from as int),
    ensures
        match r {
            Ok((line, next)) => {
                &&& line_at(input@, from as int) == Some((line@, next as int))
                &&& from < next <= input.len()
                &&& is_cut(input@, next as int)
            },
            Err(e) => e == ParseError::Syntax && line_at(input@, from as int) is None,
        },
{
    let start = skip_spaces(input, from);
    if start >= input.len() {
        return Err(ParseError::Syntax);
    }
    let body = if input[start] == HASH {
        take_comment(input, start)
    } else {
        take_key_value(input, start)
    };
    match body {
        Ok((line, stop)) => {
            let next = skip_spaces(input, stop);
            proof {
                lemma_line_advances(input@, from as int);
            }
            Ok((line, next))
        },
        Err(e) => Err(e),
    }
}

/// Parses a document into its lines, in the order in which they stand. The
/// whole text has to be made of lines of the grammar: where any part of it
/// is not, there is no result but the error.
pub fn get_lines(s: &str) -> (r: Result<Vec<Line>, ParseError>)
    ensures
        match r {
            Ok(lines) => document(s.spec_bytes()) == Some(line_views(lines@)),
            Err(e) => e == ParseError::Syntax && document(s.spec_bytes()) is None,
        },
{
    let input = s.as_bytes();
    proof {
        encode_utf8_valid_utf8(s@);
        is_char_boundary_start_end_of_seq(input@);
    }
    let mut lines: Vec<Line> = Vec::new();
    let mut at: usize = 0;
    while at < input.len()
        invariant
            input@ == s.spec_bytes(),
            valid_utf8(input@),
            is_cut(input@, at as int),
            document(input@) == match lines_from(input@, at as int) {
                Some(rest) => Some(line_views(lines@) + rest),
                None => None,
            },
        decreases input.len() - at,
    {
        match take_line(input, at) {
            Ok((line, next)) => {
                proof {
                    let done = line_views(lines@);
                    let rest = lines_from(input@, next as int);
                    assert(line_views(lines@.push(line)) =~= done + seq![line@]);
                    if let Some(rest) = rest {
                        assert((done + seq![line@]) + rest =~= done + (seq![line@] + rest));
                    }
                }
                lines.push(line);
                at = next;
            },
            Err(e) => {
                return Err(e);
            },
        }
    }
    proof {
        assert(line_views(lines@) + Seq::<LineView>::empty() =~= line_views(lines@));
    }
    Ok(lines)
}

} // verus!
