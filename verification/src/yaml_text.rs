//! Lines of configuration text in the one shape in which dsh prints them and the launcher writes
//! them: keys by indentation, scalars plain or quoted.

use crate::model;
use crate::model::CharSet;
use crate::text;
use vstd::prelude::*;

verus! {

/// By how many spaces a line is indented.
pub open spec fn depth(line: Seq<char>) -> int {
    model::first_not_in(line, CharSet::Only(' '), 0)
}

pub fn indent(line: &str) -> (n: usize)
    ensures
        n == depth(line@),
        n <= line@.len(),
{
    text::first_not_in(&text::chars_of(line), CharSet::Only(' '), 0)
}

/// The text between two equal quotes.
pub open spec fn unquoted(s: Seq<char>, quote: char) -> Option<Seq<char>> {
    if s.len() >= 2 && s[0] == quote && s.last() == quote {
        Some(s.subrange(1, s.len() - 1))
    } else {
        None
    }
}

fn unquote(s: &str, quote: char) -> (r: Option<String>)
    ensures
        model::text_of(r) == unquoted(s@, quote),
{
    let v = text::chars_of(s);
    if v.len() >= 2 && v[0] == quote && v[v.len() - 1] == quote {
        Some(text::string_of(&v, 1, v.len() - 1))
    } else {
        None
    }
}

/// What a scalar stands for: quotes are taken off, and a comment behind a plain one is dropped.
pub open spec fn meant(value: Seq<char>) -> Seq<char> {
    let s = model::trim(value);
    match unquoted(s, '\'') {
        Some(inner) => model::replace(inner, "''"@, "'"@),
        None => match unquoted(s, '"') {
            Some(inner) => model::replace(
                model::replace(inner, "\\\""@, "\""@),
                "\\\\"@,
                "\\"@,
            ),
            None => match model::find(s, " #"@) {
                Some(i) => model::trim(s.take(i)),
                None => s,
            },
        },
    }
}

pub fn scalar(value: &str) -> (r: String)
    ensures
        r@ == meant(value@),
{
    proof {
        reveal_strlit("''");
        reveal_strlit("\\\"");
        reveal_strlit("\\\\");
    }
    let s = text::trim(value);
    if let Some(inner) = unquote(s.as_str(), '\'') {
        return text::replace(inner.as_str(), "''", "'");
    }
    if let Some(inner) = unquote(s.as_str(), '"') {
        let once = text::replace(inner.as_str(), "\\\"", "\"");
        return text::replace(once.as_str(), "\\\\", "\\");
    }
    match text::find(s.as_str(), " #") {
        Some(i) => {
            let v = text::chars_of(s.as_str());
            let head = text::string_of(&v, 0, i);
            proof {
                assert(head@ =~= s@.take(i as int));
            }
            text::trim(head.as_str())
        },
        None => s,
    }
}

/// What follows a key and its colon, where the line holds that key.
pub open spec fn field_in(line: Seq<char>, key: Seq<char>) -> Option<Seq<char>> {
    model::strip_prefix(model::trim_start(line, CharSet::Only(' ')), key + ":"@)
}

pub fn field(line: &str, key: &str) -> (r: Option<String>)
    ensures
        model::text_of(r) == field_in(line@, key@),
{
    let rest = text::trim_start(line, CharSet::Only(' '));
    text::strip_prefix(rest.as_str(), text::cat2(key, ":").as_str())
}

/// The indentation of the first line from position `i` on that is not blank.
pub open spec fn level_of(lines: Seq<Seq<char>>, i: int) -> Option<int>
    decreases lines.len() - i,
{
    if i < 0 || i >= lines.len() {
        None
    } else if model::blank(lines[i]) {
        level_of(lines, i + 1)
    } else {
        Some(depth(lines[i]))
    }
}

/// The value of a key from position `i` on, among the lines of the given indentation.
pub open spec fn value_from(lines: Seq<Seq<char>>, level: int, key: Seq<char>, i: int) -> Option<
    Seq<char>,
>
    decreases lines.len() - i,
{
    if i < 0 || i >= lines.len() {
        None
    } else if depth(lines[i]) == level && field_in(lines[i], key) is Some {
        Some(meant(field_in(lines[i], key)->0))
    } else {
        value_from(lines, level, key, i + 1)
    }
}

/// The value of a key of a configuration's own level; an empty value counts as none.
pub open spec fn value_in(config: Seq<char>, key: Seq<char>) -> Option<Seq<char>> {
    let lines = model::lines(config);
    match level_of(lines, 0) {
        None => None,
        Some(level) => match value_from(lines, level, key, 0) {
            Some(v) => if v.len() > 0 {
                Some(v)
            } else {
                None
            },
            None => None,
        },
    }
}

fn find_level(lines: &Vec<String>) -> (r: Option<usize>)
    ensures
        match r {
            Some(n) => level_of(model::texts(lines@), 0) == Some(n as int),
            None => level_of(model::texts(lines@), 0) is None,
        },
{
    let ghost all = model::texts(lines@);
    let mut i: usize = 0;
    while i < lines.len()
        invariant
            all == model::texts(lines@),
            i <= lines.len(),
            level_of(all, 0) == level_of(all, i as int),
        decreases lines.len() - i,
    {
        proof {
            assert(all[i as int] == lines@[i as int]@);
        }
        if !text::blank(lines[i].as_str()) {
            return Some(indent(lines[i].as_str()));
        }
        i += 1;
    }
    None
}

/// The value of a key of a configuration's own level.
pub fn config_scalar(config: &str, key: &str) -> (r: Option<String>)
    ensures
        model::text_of(r) == value_in(config@, key@),
{
    let lines = text::lines(config);
    let ghost all = model::lines(config@);
    let level = match find_level(&lines) {
        Some(level) => level,
        None => {
            return None;
        },
    };
    let mut i: usize = 0;
    while i < lines.len()
        invariant
            all == model::lines(config@),
            model::texts(lines@) == all,
            all.len() == lines@.len(),
            level_of(all, 0) == Some(level as int),
            i <= lines.len(),
            value_from(all, level as int, key@, 0) == value_from(all, level as int, key@, i as int),
        decreases lines.len() - i,
    {
        proof {
            assert(all[i as int] == lines@[i as int]@);
        }
        let line = lines[i].as_str();
        if indent(line) == level {
            if let Some(value) = field(line, key) {
                let found = scalar(value.as_str());
                if found.as_str().is_empty() {
                    return None;
                }
                return Some(found);
            }
        }
        i += 1;
    }
    None
}

/// A line moved to the left by up to `level` spaces and then in by two, without white space at its
/// end.
pub open spec fn shifted(line: Seq<char>, level: int) -> Seq<char> {
    let cut = if depth(line) < level {
        depth(line)
    } else {
        level
    };
    "  "@ + model::trim_end(line.skip(cut), CharSet::White)
}

pub open spec fn shifted_lines(lines: Seq<Seq<char>>, level: int) -> Seq<Seq<char>> {
    lines.map_values(|l: Seq<char>| shifted(l, level))
}

/// A configuration with its own level moved to an indentation of two.
pub open spec fn normalized(raw: Seq<char>) -> Seq<char> {
    let lines = model::lines(raw);
    let level = match level_of(lines, 0) {
        Some(n) => n,
        None => 0,
    };
    model::trim_end(model::join(shifted_lines(lines, level), "\n"@), CharSet::White)
}

pub fn normalize_config(raw: &str) -> (r: String)
    ensures
        r@ == normalized(raw@),
{
    let lines = text::lines(raw);
    let ghost all = model::lines(raw@);
    let level = match find_level(&lines) {
        Some(n) => n,
        None => 0,
    };
    let mut out: Vec<String> = Vec::new();
    let mut i: usize = 0;
    let ghost want = shifted_lines(all, level as int);
    proof {
        assert(model::texts(out@) =~= want.take(0));
    }
    while i < lines.len()
        invariant
            model::texts(lines@) == all,
            all.len() == lines@.len(),
            want == shifted_lines(all, level as int),
            i <= lines.len(),
            model::texts(out@) == want.take(i as int),
        decreases lines.len() - i,
    {
        let line = lines[i].as_str();
        let deep = indent(line);
        let cut = if deep < level {
            deep
        } else {
            level
        };
        let v = text::chars_of(line);
        let rest = text::string_of(&v, cut, v.len());
        proof {
            assert(all[i as int] == lines@[i as int]@);
            assert(rest@ =~= line@.skip(cut as int));
        }
        let ghost before = model::texts(out@);
        out.push(text::cat2("  ", text::trim_end(rest.as_str(), CharSet::White).as_str()));
        i += 1;
        proof {
            assert(model::texts(out@) =~= before.push(want[i - 1]));
            assert(want.take(i as int) =~= before.push(want[i - 1]));
        }
    }
    proof {
        assert(want.take(want.len() as int) =~= want);
    }
    text::trim_end(text::join(&out, "\n").as_str(), CharSet::White)
}

} // verus!
