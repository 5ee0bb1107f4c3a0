//! A line-oriented configuration text parser: `name = value` lines and `#`
//! comments are read into a flat map from property name to value.

pub mod documents;
pub mod grammar;
pub mod parser;
pub mod scan;
pub mod text;

pub use parser::ParseError;

use grammar::{all_comments, document, LineView};
use parser::{get_lines, line_views, Line};
use std::str::FromStr;
use vstd::hash_map::StringHashMap;
use vstd::prelude::*;
use vstd::string::*;

verus! {

/// The properties that a document defines: each name with its value.
pub struct Config {
    map: StringHashMap<String>,
}

/// The map that `lines` define when they are read in order: each key with
/// the value of the last line that has it. Comments add nothing.
pub open spec fn fold_lines(lines: Seq<LineView>) -> Map<Seq<char>, Seq<char>>
    decreases lines.len(),
{
    if lines.len() == 0 {
        Map::empty()
    } else {
        let before = fold_lines(lines.drop_last());
        match lines.last() {
            LineView::KeyValue(key, value) => before.insert(key, value),
            LineView::Comment(_) => before,
        }
    }
}

impl View for Config {
    type V = Map<Seq<char>, Seq<char>>;

    closed spec fn view(&self) -> Map<Seq<char>, Seq<char>> {
        self.map@.map_values(|value: String| value@)
    }
}

impl Config {
    /// The value that goes with `name`, if the configuration has one.
    pub open spec fn lookup(&self, name: Seq<char>) -> Option<Seq<char>> {
        if self@.contains_key(name) {
            Some(self@[name])
        } else {
            None
        }
    }

    /// True if `answer` is what a lookup of `name` has to give.
    pub open spec fn answers(&self, name: Seq<char>, answer: Option<&str>) -> bool {
        match answer {
            Some(value) => self.lookup(name) == Some(value@),
            None => self.lookup(name) is None,
        }
    }

    /// Looks up the value of the property called exactly `property_name`.
    pub fn get(&self, property_name: &str) -> (r: Option<&str>)
        ensures
            self.answers(property_name@, r),
    {
        match self.map.get(property_name) {
            Some(value) => Some(value.as_str()),
            None => None,
        }
    }

    /// Builds the configuration that `lines` define: a later line for a key
    /// overwrites an earlier one, and comments are passed over.
    pub fn from_lines(lines: Vec<Line>) -> (config: Config)
        ensures
            config@ == fold_lines(line_views(lines@)),
    {
        let ghost all = line_views(lines@);
        let mut config = Config { map: StringHashMap::new() };
        assert(config@ =~= fold_lines(all.take(0)));
        for line in iter: lines
            invariant
                line_views(iter.seq()) == all,
                config@ == fold_lines(all.take(iter.index())),
        {
            proof {
                let n = iter.index();
                assert(all.take(n + 1).drop_last() =~= all.take(n));
                assert(all.take(n + 1).last() == line@);
            }
            match line {
                Line::KeyValue(key, value) => {
                    let ghost before = config@;
                    config.map.insert(key, value);
                    assert(config@ =~= before.insert(key@, value@));
                },
                Line::Comment(_) => {},
            }
        }
        assert(all.take(all.len() as int) =~= all);
        config
    }

    /// Parses `text` and builds the configuration that its lines define.
    /// Text that is not a document of the grammar gives the error and no
    /// configuration.
    pub fn parse(text: &str) -> (r: Result<Config, ParseError>)
        ensures
            match r {
                Ok(config) => document(text.spec_bytes()) matches Some(lines) && config@
                    == fold_lines(lines),
                Err(e) => e == ParseError::Syntax && document(text.spec_bytes()) is None,
            },
    {
        match get_lines(text) {
            Ok(lines) => Ok(Config::from_lines(lines)),
            Err(e) => Err(e),
        }
    }
}

/// True if the line at `i` gives `key` its value and no later line does.
pub open spec fn is_last_for(lines: Seq<LineView>, i: int, key: Seq<char>) -> bool {
    &&& 0 <= i < lines.len()
    &&& lines[i] matches LineView::KeyValue(k, _) && k == key
    &&& forall|j: int|
        i < j < lines.len() ==> !(#[trigger] lines[j] matches LineView::KeyValue(k, _) && k == key)
}

/// The last line that gives a key its value decides what a lookup of that
/// key finds.
pub proof fn lemma_last_value_wins(lines: Seq<LineView>, i: int, key: Seq<char>)
    requires
        is_last_for(lines, i, key),
    ensures
        fold_lines(lines).contains_key(key),
        lines[i] matches LineView::KeyValue(_, value) && fold_lines(lines)[key] == value,
    decreases lines.len(),
{
    if i < lines.len() - 1 {
        let before = lines.drop_last();
        assert(is_last_for(before, i, key)) by {
            assert forall|j: int| i < j < before.len() implies !(#[trigger] before[j] matches LineView::KeyValue(
                k,
                _,
            ) && k == key) by {
                assert(before[j] == lines[j]);
            }
        }
        lemma_last_value_wins(before, i, key);
        assert(!(lines[lines.len() - 1] matches LineView::KeyValue(k, _) && k == key));
    }
}

/// A lookup finds a key exactly when some line gives that key a value.
pub proof fn lemma_keys_come_from_lines(lines: Seq<LineView>, key: Seq<char>)
    ensures
        fold_lines(lines).contains_key(key) <==> exists|i: int|
            0 <= i < lines.len() && (#[trigger] lines[i] matches LineView::KeyValue(k, _) && k
                == key),
    decreases lines.len(),
{
    if lines.len() > 0 {
        let before = lines.drop_last();
        let end = lines.len() - 1;
        lemma_keys_come_from_lines(before, key);
        if fold_lines(lines).contains_key(key) {
            if lines[end] matches LineView::KeyValue(k, _) && k == key {
            } else {
                let i = choose|i: int|
                    0 <= i < before.len() && (#[trigger] before[i] matches LineView::KeyValue(
                        k,
                        _,
                    ) && k == key);
                assert(lines[i] == before[i]);
            }
        }
        if exists|i: int|
            0 <= i < lines.len() && (#[trigger] lines[i] matches LineView::KeyValue(k, _) && k
                == key) {
            let i = choose|i: int|
                0 <= i < lines.len() && (#[trigger] lines[i] matches LineView::KeyValue(k, _)
                    && k == key);
            if i < end {
                assert(before[i] == lines[i]);
            }
        }
    }
}

/// Lines that are all comments define no property: every lookup in the
/// configuration built from them finds nothing.
pub proof fn lemma_comments_define_nothing(lines: Seq<LineView>)
    requires
        all_comments(lines),
    ensures
        fold_lines(lines) == Map::<Seq<char>, Seq<char>>::empty(),
    decreases lines.len(),
{
    if lines.len() > 0 {
        let before = lines.drop_last();
        assert(all_comments(before)) by {
            assert forall|i: int| 0 <= i < before.len() implies #[trigger] before[i] is Comment by {
                assert(before[i] == lines[i]);
            }
        }
        lemma_comments_define_nothing(before);
        assert(lines[lines.len() - 1] is Comment);
    }
}

/// What a lookup gives depends on the configuration and the name alone, so
/// asking again gives the same answer.
pub proof fn lemma_get_is_stable(
    config: Config,
    name: Seq<char>,
    first: Option<&str>,
    second: Option<&str>,
)
    requires
        config.answers(name, first),
        config.answers(name, second),
    ensures
        first is Some <==> second is Some,
        first is Some ==> first->0@ == second->0@,
{
}

impl FromStr for Config {
    type Err = ParseError;

    /// Parses `s` as `Config::parse` does: the configuration that the lines
    /// of the document define, or the error where `s` is no document.
    fn from_str(s: &str) -> (r: Result<Config, ParseError>)
        ensures
            match r {
                Ok(config) => document(s.spec_bytes()) matches Some(lines) && config@
                    == fold_lines(lines),
                Err(e) => e == ParseError::Syntax && document(s.spec_bytes()) is None,
            },
    {
        Config::parse(s)
    }
}

} // verus!
