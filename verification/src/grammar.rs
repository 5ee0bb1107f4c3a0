//! The grammar of a configuration document, as functions on its bytes.
//!
//! ```text
//! document  := line*
//! line      := space* (comment | key_value) space*
//! comment   := "#" content
//! key_value := key " = " value
//! value     := quoted | bare
//! quoted    := '"' bytes-without-quote '"' (line-ending | end of input)
//! bare      := content
//! ```
//!
//! `space` is a blank, a tab, a carriage return or a line feed, so the white
//! space after a line takes the line's ending and any blank lines with it.
//! `content` runs to the end of the line. A line whose first byte is `#` is a
//! comment; any other line is a key and a value. The key is what stands
//! before the first `" = "` of its line: it does not run over a line break.

use crate::scan::{
    content_len, ending_len, first_break, is_break, lemma_first_break, CR, LF,
};
use crate::text::text;
use vstd::prelude::*;

verus! {

/// Blank.
pub const SPACE: u8 = 0x20;

/// Horizontal tab.
pub const TAB: u8 = 0x09;

/// The mark that opens a comment.
pub const HASH: u8 = 0x23;

/// The mark that opens and closes a quoted value.
pub const QUOTE: u8 = 0x22;

/// The sign between the two blanks of a separator.
pub const EQUALS: u8 = 0x3d;

/// The length of the separator `" = "`.
pub const SEPARATOR_LEN: usize = 3;

/// What one line of a document says.
pub enum LineView {
    /// A property name and its value.
    KeyValue(Seq<char>, Seq<char>),
    /// The text of a comment, without its `#`.
    Comment(Seq<char>),
}

/// True if each of `lines` is a comment.
pub open spec fn all_comments(lines: Seq<LineView>) -> bool {
    forall|i: int| 0 <= i < lines.len() ==> #[trigger] lines[i] is Comment
}

/// True for the bytes that may surround a line.
pub open spec fn is_space(b: u8) -> bool {
    b == SPACE || b == TAB || b == CR || b == LF
}

/// The index of the first byte at or after `from` that is no white space, or
/// the length of `s` where only white space is left.
pub open spec fn skip_space(s: Seq<u8>, from: int) -> int
    decreases s.len() - from,
{
    if 0 <= from < s.len() && is_space(s[from]) {
        skip_space(s, from + 1)
    } else {
        from
    }
}

/// True if the separator `" = "` stands at `at`.
pub open spec fn separator_at(s: Seq<u8>, at: int) -> bool {
    &&& 0 <= at
    &&& at + SEPARATOR_LEN <= s.len()
    &&& s[at] == SPACE
    &&& s[at + 1] == EQUALS
    &&& s[at + 2] == SPACE
}

/// The index of the first separator at or after `from` on the line that
/// `from` stands in, if that line has one.
pub open spec fn find_separator(s: Seq<u8>, from: int) -> Option<int>
    decreases s.len() - from,
{
    if from < 0 || from >= s.len() || is_break(s[from]) {
        None
    } else if separator_at(s, from) {
        Some(from)
    } else {
        find_separator(s, from + 1)
    }
}

/// The index of the first quote at or after `from`, if there is one.
pub open spec fn find_quote(s: Seq<u8>, from: int) -> Option<int>
    decreases s.len() - from,
{
    if from < 0 || from >= s.len() {
        None
    } else if s[from] == QUOTE {
        Some(from)
    } else {
        find_quote(s, from + 1)
    }
}

/// The content of the line that starts at `from`, and the index at which it
/// stops: at the line's ending or at the end of the input.
pub open spec fn content_at(s: Seq<u8>, from: int) -> Option<(Seq<char>, int)> {
    match content_len(s.subrange(from, s.len() as int)) {
        Ok(n) => Some((text(s, from, from + n), from + n)),
        Err(_) => None,
    }
}

/// The quoted value whose opening quote stands at `open`, and the index
/// after it. The value is what stands between that quote and the next one,
/// line breaks included. The closing quote has to be the last byte of the
/// input or be followed at once by a line ending, which is taken too.
pub open spec fn quoted_at(s: Seq<u8>, open: int) -> Option<(Seq<char>, int)> {
    match find_quote(s, open + 1) {
        None => None,
        Some(close) => if close + 1 == s.len() {
            Some((text(s, open + 1, close), close + 1))
        } else {
            match ending_len(s.subrange(close + 1, s.len() as int)) {
                Ok(n) => Some((text(s, open + 1, close), close + 1 + n)),
                Err(_) => None,
            }
        },
    }
}

/// The value that starts at `from`, and the index at which it stops. There
/// has to be a byte at `from`: a quote opens a quoted value, any other byte
/// a bare one, which is the rest of the line and may be empty.
pub open spec fn value_at(s: Seq<u8>, from: int) -> Option<(Seq<char>, int)> {
    if from < 0 || from >= s.len() {
        None
    } else if s[from] == QUOTE {
        quoted_at(s, from)
    } else {
        content_at(s, from)
    }
}

/// The key and value that start at `from`, and the index at which they stop.
/// The key runs up to the first separator of the line.
pub open spec fn key_value_at(s: Seq<u8>, from: int) -> Option<(LineView, int)> {
    match find_separator(s, from) {
        None => None,
        Some(sep) => match value_at(s, sep + SEPARATOR_LEN) {
            None => None,
            Some((value, stop)) => Some((LineView::KeyValue(text(s, from, sep), value), stop)),
        },
    }
}

/// The comment whose `#` stands at `from`, and the index at which it stops.
pub open spec fn comment_at(s: Seq<u8>, from: int) -> Option<(LineView, int)> {
    match content_at(s, from + 1) {
        None => None,
        Some((content, stop)) => Some((LineView::Comment(content), stop)),
    }
}

/// The line that the grammar finds at `from`, and the index at which the
/// next one may start, or `None` where no line matches.
pub open spec fn line_at(s: Seq<u8>, from: int) -> Option<(LineView, int)> {
    let start = skip_space(s, from);
    if start < 0 || start >= s.len() {
        None
    } else {
        let body = if s[start] == HASH {
            comment_at(s, start)
        } else {
            key_value_at(s, start)
        };
        match body {
            None => None,
            Some((line, stop)) => Some((line, skip_space(s, stop))),
        }
    }
}

/// The lines of the document from `from` on, or `None` where some part of
/// it matches no line. A line that matches takes at least one byte, so the
/// test on `next` never fails: it is there to show that the walk ends.
pub open spec fn lines_from(s: Seq<u8>, from: int) -> Option<Seq<LineView>>
    decreases s.len() - from,
{
    if from < 0 || from >= s.len() {
        Some(Seq::empty())
    } else {
        match line_at(s, from) {
            None => None,
            Some((line, next)) => if next <= from || next > s.len() {
                None
            } else {
                match lines_from(s, next) {
                    None => None,
                    Some(rest) => Some(seq![line] + rest),
                }
            },
        }
    }
}

/// The lines of the document `s`, in the order in which they stand, or
/// `None` where `s` is not a document of the grammar.
pub open spec fn document(s: Seq<u8>) -> Option<Seq<LineView>> {
    lines_from(s, 0)
}

/// White space is skipped up to a byte that is none, or to the end.
pub proof fn lemma_skip_space(s: Seq<u8>, from: int)
    requires
        0 <= from <= s.len(),
    ensures
        from <= skip_space(s, from) <= s.len(),
        skip_space(s, from) < s.len() ==> !is_space(s[skip_space(s, from)]),
        forall|i: int| from <= i < skip_space(s, from) ==> is_space(#[trigger] s[i]),
    decreases s.len() - from,
{
    if from < s.len() && is_space(s[from]) {
        lemma_skip_space(s, from + 1);
    }
}

/// A separator that is found stands on the line of `from`, and is the first
/// one there.
pub proof fn lemma_find_separator(s: Seq<u8>, from: int)
    requires
        0 <= from <= s.len(),
    ensures
        match find_separator(s, from) {
            Some(sep) => {
                &&& from <= sep
                &&& separator_at(s, sep)
                &&& forall|i: int| from <= i < sep ==> !is_break(#[trigger] s[i])
                &&& forall|i: int| from <= i < sep ==> !separator_at(s, i)
            },
            None => forall|i: int|
                from <= i && i + SEPARATOR_LEN <= first_break(s, from)
                    ==> !separator_at(s, i),
        },
    decreases s.len() - from,
{
    if from < s.len() && !is_break(s[from]) && !separator_at(s, from) {
        lemma_find_separator(s, from + 1);
    }
}

/// A quote that is found is the first one at or after `from`.
pub proof fn lemma_find_quote(s: Seq<u8>, from: int)
    requires
        0 <= from <= s.len(),
    ensures
        match find_quote(s, from) {
            Some(q) => {
                &&& from <= q < s.len()
                &&& s[q] == QUOTE
                &&& forall|i: int| from <= i < q ==> #[trigger] s[i] != QUOTE
            },
            None => forall|i: int| from <= i < s.len() ==> #[trigger] s[i] != QUOTE,
        },
    decreases s.len() - from,
{
    if from < s.len() && s[from] != QUOTE {
        lemma_find_quote(s, from + 1);
    }
}

/// A line that matches takes at least one byte, and none beyond the end.
pub proof fn lemma_line_advances(s: Seq<u8>, from: int)
    requires
        0 <= from < s.len(),
    ensures
        line_at(s, from) matches Some((_, next)) ==> from < next <= s.len(),
{
    lemma_skip_space(s, from);
    let start = skip_space(s, from);
    if start < s.len() {
        if s[start] == HASH {
            lemma_content_stop(s, start + 1);
            if let Some((_, stop)) = comment_at(s, start) {
                lemma_skip_space(s, stop);
            }
        } else {
            lemma_find_separator(s, start);
            if let Some(sep) = find_separator(s, start) {
                let v = sep + SEPARATOR_LEN;
                if v < s.len() {
                    if s[v] == QUOTE {
                        lemma_find_quote(s, v + 1);
                    } else {
                        lemma_content_stop(s, v);
                    }
                }
                if let Some((_, stop)) = value_at(s, v) {
                    lemma_skip_space(s, stop);
                }
            }
        }
    }
}

/// The content of a line stops between its start and the end of the input,
/// at a line break where it stops before the end.
pub proof fn lemma_content_stop(s: Seq<u8>, from: int)
    requires
        0 <= from <= s.len(),
    ensures
        content_at(s, from) matches Some((_, stop)) ==> {
            &&& from <= stop <= s.len()
            &&& stop < s.len() ==> is_break(s[stop])
        },
{
    let tail = s.subrange(from, s.len() as int);
    lemma_first_break(tail, 0);
    let e = first_break(tail, 0);
    if e < tail.len() {
        assert(tail[e] == s[from + e]);
    }
}

} // verus!
