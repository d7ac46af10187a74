//! The guarantees the store gives its callers, stated over the parser's and
//! the lookup's models and proved once and for all.

use vstd::prelude::*;

use crate::chars::is_white;
use crate::chars::strip_spaces;
use crate::chars::trim_back;
use crate::chars::trim_front;
use crate::chars::trimmed;
use crate::config::lookup;
use crate::parse::line_entry;
use crate::parse::line_skipped;
use crate::parse::line_valid;
use crate::parse::parse_lines;
use crate::parse::parse_text;
use crate::strings::lower_of;

verus! {

/// Last write wins: when `i` is the position of the last entry for `key`,
/// looking `key` up returns exactly that entry's value, however many older
/// entries share the key.
pub proof fn lemma_last_write_wins(entries: Seq<(Seq<char>, Seq<char>)>, key: Seq<char>, i: int)
    requires
        0 <= i < entries.len(),
        entries[i].0 == key,
        forall|j: int| i < j < entries.len() ==> entries[j].0 != key,
    ensures
        lookup(entries, key) == Some(entries[i].1),
    decreases entries.len(),
{
    if i < entries.len() - 1 {
        assert(entries.last().0 != key);
        lemma_last_write_wins(entries.drop_last(), key, i);
    }
}

/// Successive loads compose by overriding: looking a key up in the
/// concatenation of two entry sequences returns what the later one holds
/// for it, and falls back to the earlier one only when the later has no
/// entry for the key.
pub proof fn lemma_lookup_override(
    early: Seq<(Seq<char>, Seq<char>)>,
    late: Seq<(Seq<char>, Seq<char>)>,
    key: Seq<char>,
)
    ensures
        lookup(early + late, key) == (match lookup(late, key) {
            Some(v) => Some(v),
            None => lookup(early, key),
        }),
    decreases late.len(),
{
    if late.len() == 0 {
        assert(early + late =~= early);
    } else {
        assert((early + late).last() == late.last());
        assert((early + late).drop_last() =~= early + late.drop_last());
        lemma_lookup_override(early, late.drop_last(), key);
    }
}

/// Lookup is case-insensitive: two queried keys with the same case-folded
/// form resolve to the same entry.
pub proof fn lemma_lookup_case_insensitive(
    entries: Seq<(Seq<char>, Seq<char>)>,
    key1: Seq<char>,
    key2: Seq<char>,
)
    requires
        lower_of(key1) == lower_of(key2),
    ensures
        lookup(entries, lower_of(key1)) == lookup(entries, lower_of(key2)),
{
}

/// Skipped lines are inert: inserting a blank line, a comment line or a
/// section header anywhere among the lines changes nothing about what they
/// parse to — in particular a section header has no effect on later keys.
pub proof fn lemma_skipped_line_inert(lines: Seq<Seq<char>>, i: int, line: Seq<char>)
    requires
        0 <= i <= lines.len(),
        line_skipped(line),
    ensures
        parse_lines(lines.insert(i, line)) == parse_lines(lines),
    decreases lines.len(),
{
    let padded = lines.insert(i, line);
    if i == lines.len() {
        assert(padded =~= lines.push(line));
        assert(padded.drop_last() =~= lines);
    } else {
        assert(padded.last() == lines.last());
        assert(padded.drop_last() =~= lines.drop_last().insert(i, line));
        lemma_skipped_line_inert(lines.drop_last(), i, line);
    }
}

proof fn lemma_trim_front_pad(pad: Seq<char>, s: Seq<char>)
    requires
        forall|j: int| 0 <= j < pad.len() ==> is_white(pad[j]),
    ensures
        trim_front(pad + s) == trim_front(s),
    decreases pad.len(),
{
    if pad.len() == 0 {
        assert(pad + s =~= s);
    } else {
        assert((pad + s).drop_first() =~= pad.drop_first() + s);
        lemma_trim_front_pad(pad.drop_first(), s);
    }
}

proof fn lemma_trim_back_pad(s: Seq<char>, pad: Seq<char>)
    requires
        forall|j: int| 0 <= j < pad.len() ==> is_white(pad[j]),
    ensures
        trim_back(s + pad) == trim_back(s),
    decreases pad.len(),
{
    if pad.len() == 0 {
        assert(s + pad =~= s);
    } else {
        assert((s + pad).last() == pad.last());
        assert((s + pad).drop_last() =~= s + pad.drop_last());
        lemma_trim_back_pad(s, pad.drop_last());
    }
}

proof fn lemma_trim_front_concat(s: Seq<char>, rest: Seq<char>)
    ensures
        trim_front(s + rest) == (if trim_front(s).len() == 0 {
            trim_front(rest)
        } else {
            trim_front(s) + rest
        }),
    decreases s.len(),
{
    if s.len() == 0 {
        assert(s + rest =~= rest);
    } else if is_white(s[0]) {
        assert((s + rest).drop_first() =~= s.drop_first() + rest);
        lemma_trim_front_concat(s.drop_first(), rest);
    }
}

/// Whitespace at the ends of a line is inert: a line padded with leading
/// and trailing whitespace trims to the same characters, so it is skipped,
/// accepted and read exactly as the unpadded line is. The same holds of the
/// value part of a data line, which is trimmed the same way.
pub proof fn lemma_outer_whitespace_inert(lead: Seq<char>, line: Seq<char>, tail: Seq<char>)
    requires
        forall|j: int| 0 <= j < lead.len() ==> is_white(lead[j]),
        forall|j: int| 0 <= j < tail.len() ==> is_white(tail[j]),
    ensures
        trimmed(lead + line + tail) == trimmed(line),
        line_skipped(lead + line + tail) == line_skipped(line),
        line_valid(lead + line + tail) == line_valid(line),
        line_entry(lead + line + tail) == line_entry(line),
{
    assert(lead + line + tail =~= lead + (line + tail));
    lemma_trim_front_pad(lead, line + tail);
    lemma_trim_front_concat(line, tail);
    if trim_front(line).len() == 0 {
        lemma_trim_front_pad(tail, Seq::empty());
        assert(tail + Seq::<char>::empty() =~= tail);
        assert(trim_front(tail).len() == 0);
    } else {
        lemma_trim_back_pad(trim_front(line), tail);
    }
}

/// Spaces in the key part of a data line are inert wherever they stand:
/// inserting a space anywhere among the key's characters leaves the
/// normalized key unchanged.
pub proof fn lemma_key_space_inert(left: Seq<char>, right: Seq<char>)
    ensures
        strip_spaces(left + seq![' '] + right) == strip_spaces(left + right),
    decreases left.len(),
{
    if left.len() == 0 {
        assert((left + seq![' '] + right).drop_first() =~= right);
        assert(left + right =~= right);
    } else {
        assert((left + seq![' '] + right).drop_first() =~= left.drop_first() + seq![' '] + right);
        assert((left + right).drop_first() =~= left.drop_first() + right);
        lemma_key_space_inert(left.drop_first(), right);
        assert((left + seq![' '] + right)[0] == left[0]);
        assert((left + right)[0] == left[0]);
    }
}

/// Parsing is deterministic: one text has one sequence of entries, so two
/// stores loaded from the same text hold identical entries.
pub proof fn lemma_parse_deterministic(
    text: Seq<char>,
    first: Seq<(Seq<char>, Seq<char>)>,
    second: Seq<(Seq<char>, Seq<char>)>,
)
    requires
        parse_text(text) == Some(first),
        parse_text(text) == Some(second),
    ensures
        first == second,
{
}

} // verus!
