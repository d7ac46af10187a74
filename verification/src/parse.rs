//! The line-oriented parser: from a raw text to the ordered sequence of
//! normalized `(key, value)` entries, or a failure for the whole text.
//!
//! Comment stripping is not quote-aware: a `#` or `;` anywhere on a data
//! line starts a comment, even inside a quoted value, and truncates the
//! value there. This is deliberate — there is no escape or quote syntax in
//! the format — but it can surprise.

use vstd::prelude::*;

use crate::chars::before_comment;
use crate::chars::is_comment_intro;
use crate::chars::remove_comments;
use crate::chars::remove_spaces;
use crate::chars::split_on;
use crate::chars::split_on_char;
use crate::chars::strip_spaces;
use crate::chars::trim;
use crate::chars::trimmed;
use crate::chars::views_of;
use crate::config::ConfigError;
use crate::strings::chars_to_string;
use crate::strings::lower_of;
use crate::strings::lowercase;
use crate::strings::to_chars;

verus! {

/// A line that produces no entry: blank once trimmed, a comment line, or a
/// section header.
pub open spec fn line_skipped(line: Seq<char>) -> bool {
    let t = trimmed(line);
    t.len() == 0 || is_comment_intro(t[0]) || t[0] == '['
}

/// The part of a line considered for splitting: the trimmed line with any
/// inline comment removed.
pub open spec fn line_body(line: Seq<char>) -> Seq<char> {
    before_comment(trimmed(line))
}

/// The parts of the line body around its `=` separators.
pub open spec fn line_fields(line: Seq<char>) -> Seq<Seq<char>> {
    split_on(line_body(line), '=')
}

/// A data line is well-formed when its body holds exactly one `=`.
pub open spec fn line_valid(line: Seq<char>) -> bool {
    line_skipped(line) || line_fields(line).len() == 2
}

/// The entry a well-formed data line denotes: the key is the part left of
/// the `=` with all spaces removed and case-folded, the value is the part
/// right of it, trimmed.
pub open spec fn line_entry(line: Seq<char>) -> (Seq<char>, Seq<char>) {
    (lower_of(strip_spaces(line_fields(line)[0])), trimmed(line_fields(line)[1]))
}

/// The entries of the given lines in order, or `None` when some line is
/// neither skipped nor well-formed.
pub open spec fn parse_lines(lines: Seq<Seq<char>>) -> Option<Seq<(Seq<char>, Seq<char>)>>
    decreases lines.len(),
{
    if lines.len() == 0 {
        Some(Seq::empty())
    } else {
        match parse_lines(lines.drop_last()) {
            None => None,
            Some(done) => {
                let l = lines.last();
                if line_skipped(l) {
                    Some(done)
                } else if line_valid(l) {
                    Some(done.push(line_entry(l)))
                } else {
                    None
                }
            },
        }
    }
}

/// What parsing a whole text yields: the text is split into physical lines
/// on the newline character and the lines are parsed in order.
pub open spec fn parse_text(text: Seq<char>) -> Option<Seq<(Seq<char>, Seq<char>)>> {
    parse_lines(split_on(text, '\n'))
}

/// Once a prefix of the lines fails to parse, every longer prefix does too.
proof fn lemma_parse_lines_none_mono(lines: Seq<Seq<char>>, i: int, j: int)
    requires
        0 <= i <= j <= lines.len(),
        parse_lines(lines.subrange(0, i)) is None,
    ensures
        parse_lines(lines.subrange(0, j)) is None,
    decreases j - i,
{
    if i < j {
        assert(lines.subrange(0, i + 1).drop_last() =~= lines.subrange(0, i));
        lemma_parse_lines_none_mono(lines, i + 1, j);
    }
}

/// Parses one line: `Ok(None)` for a skipped line, `Ok(Some(entry))` for a
/// well-formed data line, and `InvalidConfig` otherwise.
fn parse_line(line: &Vec<char>) -> (r: Result<Option<(String, String)>, ConfigError>)
    ensures
        match r {
            Ok(opt) => match opt {
                None => line_skipped(line@),
                Some(e) => !line_skipped(line@) && line_valid(line@) && (e.0@, e.1@)
                    == line_entry(line@),
            },
            Err(e) => e == ConfigError::InvalidConfig && !line_valid(line@),
        },
{
    let t = trim(line);
    if t.len() == 0 {
        return Ok(None);
    }
    let c0 = t[0];
    if c0 == '#' || c0 == ';' || c0 == '[' {
        return Ok(None);
    }
    let body = remove_comments(&t);
    let fields = split_on_char(&body, '=');
    if fields.len() != 2 {
        return Err(ConfigError::InvalidConfig);
    }
    proof {
        assert(fields@[0]@ == line_fields(line@)[0]);
        assert(fields@[1]@ == line_fields(line@)[1]);
    }
    let stripped_key = remove_spaces(&fields[0]);
    let key_text = chars_to_string(&stripped_key);
    let key = lowercase(key_text.as_str());
    let trimmed_value = trim(&fields[1]);
    let value = chars_to_string(&trimmed_value);
    Ok(Some((key, value)))
}

/// The views of the entries of a vector of string pairs.
pub open spec fn entry_views(v: Seq<(String, String)>) -> Seq<(Seq<char>, Seq<char>)> {
    Seq::new(v.len(), |i: int| (v[i].0@, v[i].1@))
}

/// Parses a whole text into its entries, or fails with `InvalidConfig`
/// without producing any entry.
pub(crate) fn parse(input: &str) -> (r: Result<Vec<(String, String)>, ConfigError>)
    ensures
        match r {
            Ok(v) => parse_text(input@) == Some(entry_views(v@)),
            Err(e) => e == ConfigError::InvalidConfig && parse_text(input@) is None,
        },
{
    let chars = to_chars(input);
    let lines = split_on_char(&chars, '\n');
    let ghost line_views = views_of(lines@);
    let mut done: Vec<(String, String)> = Vec::new();
    let mut i: usize = 0;
    proof {
        assert(line_views.subrange(0, 0) =~= Seq::<Seq<char>>::empty());
        assert(entry_views(done@) =~= Seq::<(Seq<char>, Seq<char>)>::empty());
    }
    while i < lines.len()
        invariant
            i <= lines.len(),
            line_views == views_of(lines@),
            line_views == split_on(input@, '\n'),
            lines@.len() == line_views.len(),
            parse_lines(line_views.subrange(0, i as int)) == Some(entry_views(done@)),
        decreases lines.len() - i,
    {
        proof {
            assert(line_views.subrange(0, i + 1).drop_last() =~= line_views.subrange(0, i as int));
            assert(line_views.subrange(0, i + 1).last() == lines@[i as int]@);
        }
        match parse_line(&lines[i]) {
            Ok(Some(e)) => {
                let ghost prev = entry_views(done@);
                done.push(e);
                proof {
                    assert(entry_views(done@) =~= prev.push(line_entry(lines@[i as int]@)));
                }
            },
            Ok(None) => {
            },
            Err(e) => {
                proof {
                    assert(parse_lines(line_views.subrange(0, i + 1)) is None);
                    lemma_parse_lines_none_mono(line_views, i + 1, line_views.len() as int);
                    assert(line_views.subrange(0, line_views.len() as int) =~= line_views);
                }
                return Err(e);
            },
        }
        i += 1;
    }
    proof {
        assert(line_views.subrange(0, line_views.len() as int) =~= line_views);
    }
    Ok(done)
}

} // verus!
