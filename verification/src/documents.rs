//! What holds of whole documents: which value a key ends up with, and what
//! becomes of documents that hold nothing but comments.

use crate::grammar::{
    all_comments, comment_at, content_at, document, is_space, lemma_line_advances,
    lemma_skip_space, line_at, lines_from, skip_space, LineView, HASH,
};
use crate::scan::{content_len, first_break, lemma_first_break, CR, LF};
use crate::{fold_lines, is_last_for, lemma_comments_define_nothing, lemma_last_value_wins};
use vstd::prelude::*;

verus! {

/// In the configuration that a document defines, each key that some line
/// gives a value has the value of the last such line.
pub proof fn lemma_document_last_value_wins(s: Seq<u8>, i: int, key: Seq<char>)
    requires
        document(s) matches Some(lines) && is_last_for(lines, i, key),
    ensures
        document(s) matches Some(lines) && fold_lines(lines).contains_key(key) && (
        lines[i] matches LineView::KeyValue(_, value) && fold_lines(lines)[key] == value),
{
    lemma_last_value_wins(document(s).unwrap(), i, key);
}

/// True if a line of `s` starts at `at`: at the first byte, or right after
/// a line feed.
pub open spec fn is_line_start(s: Seq<u8>, at: int) -> bool {
    0 <= at < s.len() && (at == 0 || s[at - 1] == LF)
}

/// True if no line feed stands from `from` up to `to`.
pub open spec fn on_one_line(s: Seq<u8>, from: int, to: int) -> bool {
    forall|k: int| from <= k < to ==> #[trigger] s[k] != LF
}

/// True if only white space stands before `at` on its line.
pub open spec fn in_margin(s: Seq<u8>, at: int) -> bool {
    forall|j: int| 0 <= j < at && #[trigger] on_one_line(s, j, at) ==> is_space(s[j])
}

/// True if every line of `s` that holds more than white space has `#` as
/// its first byte that is no white space.
pub open spec fn is_comment_only(s: Seq<u8>) -> bool {
    forall|at: int| #[trigger]
        is_line_start(s, at) ==> skip_space(s, at) >= s.len() || s[skip_space(s, at)] == HASH
}

/// True if no carriage return of `s` stands alone inside a line: each one is
/// followed by a line feed, or has only white space before it on its line.
pub open spec fn returns_are_paired(s: Seq<u8>) -> bool {
    forall|i: int|
        0 <= i < s.len() && #[trigger] s[i] == CR ==> (i + 1 < s.len() && s[i + 1] == LF)
            || in_margin(s, i)
}

/// True if `s` is empty or holds more than white space.
pub open spec fn is_empty_or_has_line(s: Seq<u8>) -> bool {
    s.len() > 0 ==> skip_space(s, 0) < s.len()
}

/// From a place where a comment comes next, or the end, a document of
/// comments parses into comments.
proof fn lemma_comments_from(s: Seq<u8>, from: int)
    requires
        is_comment_only(s),
        returns_are_paired(s),
        0 <= from <= s.len(),
        from == s.len() || (skip_space(s, from) < s.len() && s[skip_space(s, from)] == HASH),
    ensures
        lines_from(s, from) matches Some(lines) && all_comments(lines),
    decreases s.len() - from,
{
    if from < s.len() {
        lemma_skip_space(s, from);
        let start = skip_space(s, from);
        let tail = s.subrange(start + 1, s.len() as int);
        lemma_first_break(tail, 0);
        let stop = start + 1 + first_break(tail, 0);
        if stop < s.len() {
            assert(tail[stop - start - 1] == s[stop]);
        }
        assert(content_len(tail) is Ok) by {
            if stop < s.len() && s[stop] == CR && !(stop + 1 < s.len() && s[stop + 1] == LF) {
                assert(on_one_line(s, start, stop)) by {
                    assert forall|k: int| start <= k < stop implies #[trigger] s[k] != LF by {
                        if k > start {
                            assert(tail[k - start - 1] == s[k]);
                        }
                    }
                }
                assert(in_margin(s, stop));
                assert(is_space(s[start]));
            } else if stop + 1 < s.len() {
                assert(tail[stop - start] == s[stop + 1]);
            }
        }
        assert(content_at(s, start + 1) matches Some((_, e)) && e == stop);
        let (line, _) = comment_at(s, start).unwrap();
        let next = skip_space(s, stop);
        assert(line_at(s, from) == Some((line, next)));
        lemma_line_advances(s, from);
        lemma_skip_space(s, stop);
        if next < s.len() {
            let after = if s[stop] == LF {
                stop + 1
            } else {
                stop + 2
            };
            assert(skip_space(s, stop) == skip_space(s, after)) by {
                if s[stop] != LF {
                    assert(skip_space(s, stop) == skip_space(s, stop + 1));
                }
            }
            assert(is_line_start(s, after));
            assert(skip_space(s, next) == next);
        }
        lemma_comments_from(s, next);
        let rest = lines_from(s, next).unwrap();
        let lines = seq![line] + rest;
        assert(lines_from(s, from) == Some(lines));
        assert(all_comments(lines)) by {
            assert forall|i: int| 0 <= i < lines.len() implies #[trigger] lines[i] is Comment by {
                if i > 0 {
                    assert(lines[i] == rest[i - 1]);
                }
            }
        }
    }
}

/// A document in which every line that is not blank starts with `#` is a
/// document of the grammar, each of its lines is a comment, and it defines
/// no property. This holds of the empty document too. It does not hold of
/// text that is white space and nothing else, nor of a comment that holds a
/// carriage return without a line feed after it.
pub proof fn lemma_comment_only_document(s: Seq<u8>)
    requires
        is_comment_only(s),
        returns_are_paired(s),
        is_empty_or_has_line(s),
    ensures
        document(s) matches Some(lines) && all_comments(lines) && fold_lines(lines) == Map::<
            Seq<char>,
            Seq<char>,
        >::empty(),
{
    if s.len() > 0 {
        assert(is_line_start(s, 0));
    }
    lemma_comments_from(s, 0);
    lemma_comments_define_nothing(document(s).unwrap());
}

} // verus!
