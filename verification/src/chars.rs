//! Character classes and character-sequence scanning used by the parser:
//! trimming, space removal, comment stripping, and splitting on a separator.

use vstd::prelude::*;

verus! {

/// A character that counts as whitespace when lines and values are trimmed:
/// exactly the Unicode `White_Space` set.
pub open spec fn is_white(c: char) -> bool {
    let u = c as u32;
    (0x9 <= u && u <= 0xD) || u == 0x20 || u == 0x85 || u == 0xA0 || u == 0x1680 || (0x2000 <= u
        && u <= 0x200A) || u == 0x2028 || u == 0x2029 || u == 0x202F || u == 0x205F || u == 0x3000
}

/// One of the two characters that introduce a comment.
pub open spec fn is_comment_intro(c: char) -> bool {
    c == '#' || c == ';'
}

/// `s` without its leading whitespace.
pub open spec fn trim_front(s: Seq<char>) -> Seq<char>
    decreases s.len(),
{
    if s.len() > 0 && is_white(s[0]) {
        trim_front(s.drop_first())
    } else {
        s
    }
}

/// `s` without its trailing whitespace.
pub open spec fn trim_back(s: Seq<char>) -> Seq<char>
    decreases s.len(),
{
    if s.len() > 0 && is_white(s[s.len() - 1]) {
        trim_back(s.drop_last())
    } else {
        s
    }
}

/// `s` without leading and trailing whitespace.
pub open spec fn trimmed(s: Seq<char>) -> Seq<char> {
    trim_back(trim_front(s))
}

/// `s` with every space character removed.
pub open spec fn strip_spaces(s: Seq<char>) -> Seq<char>
    decreases s.len(),
{
    if s.len() == 0 {
        s
    } else if s[0] == ' ' {
        strip_spaces(s.drop_first())
    } else {
        seq![s[0]] + strip_spaces(s.drop_first())
    }
}

/// The prefix of `s` before its first comment-introducer character.
pub open spec fn before_comment(s: Seq<char>) -> Seq<char>
    decreases s.len(),
{
    if s.len() == 0 {
        s
    } else if is_comment_intro(s[0]) {
        Seq::empty()
    } else {
        seq![s[0]] + before_comment(s.drop_first())
    }
}

/// `s` split on the separator `sep`: the parts between occurrences of the
/// separator, in order. A sequence without the separator is one part; every
/// occurrence of the separator starts a new, possibly empty, part.
pub open spec fn split_on(s: Seq<char>, sep: char) -> Seq<Seq<char>>
    decreases s.len(),
{
    if s.len() == 0 {
        seq![Seq::<char>::empty()]
    } else {
        let parts = split_on(s.drop_last(), sep);
        if s.last() == sep {
            parts.push(Seq::<char>::empty())
        } else {
            parts.drop_last().push(parts.last().push(s.last()))
        }
    }
}

/// Exec form of `is_white`.
pub(crate) fn is_white_char(c: char) -> (r: bool)
    ensures
        r == is_white(c),
{
    let u = c as u32;
    (0x9 <= u && u <= 0xD) || u == 0x20 || u == 0x85 || u == 0xA0 || u == 0x1680 || (0x2000 <= u
        && u <= 0x200A) || u == 0x2028 || u == 0x2029 || u == 0x202F || u == 0x205F || u == 0x3000
}

proof fn lemma_trim_front_skip(s: Seq<char>, i: int)
    requires
        0 <= i <= s.len(),
        forall|j: int| 0 <= j < i ==> is_white(s[j]),
    ensures
        trim_front(s) == trim_front(s.subrange(i, s.len() as int)),
    decreases i,
{
    if i > 0 {
        assert(s.drop_first() =~= s.subrange(1, s.len() as int));
        lemma_trim_front_skip(s.drop_first(), i - 1);
        assert(s.drop_first().subrange(i - 1, s.drop_first().len() as int) =~= s.subrange(
            i,
            s.len() as int,
        ));
    } else {
        assert(s.subrange(0, s.len() as int) =~= s);
    }
}

proof fn lemma_trim_back_skip(s: Seq<char>, e: int)
    requires
        0 <= e <= s.len(),
        forall|j: int| e <= j < s.len() ==> is_white(s[j]),
    ensures
        trim_back(s) == trim_back(s.subrange(0, e)),
    decreases s.len() - e,
{
    if e < s.len() {
        assert(s.drop_last() =~= s.subrange(0, s.len() - 1));
        lemma_trim_back_skip(s.drop_last(), e);
        assert(s.drop_last().subrange(0, e) =~= s.subrange(0, e));
    } else {
        assert(s.subrange(0, s.len() as int) =~= s);
    }
}

/// The number of leading whitespace characters of `v`.
fn white_prefix(v: &Vec<char>) -> (i: usize)
    ensures
        i <= v.len(),
        forall|j: int| 0 <= j < i ==> is_white(v@[j]),
        i < v.len() ==> !is_white(v@[i as int]),
{
    let mut k: usize = 0;
    while k < v.len()
        invariant
            k <= v.len(),
            forall|j: int| 0 <= j < k ==> is_white(v@[j]),
        decreases v.len() - k,
    {
        if !is_white_char(v[k]) {
            return k;
        }
        k += 1;
    }
    k
}

/// The index after which, from `start` on, only trailing whitespace follows.
fn white_suffix(v: &Vec<char>, start: usize) -> (e: usize)
    requires
        start <= v.len(),
    ensures
        start <= e <= v.len(),
        forall|j: int| e <= j < v@.len() ==> is_white(v@[j]),
        e > start ==> !is_white(v@[e - 1]),
{
    let mut k: usize = v.len();
    while k > start
        invariant
            start <= k <= v.len(),
            forall|j: int| k <= j < v@.len() ==> is_white(v@[j]),
        decreases k,
    {
        if !is_white_char(v[k - 1]) {
            return k;
        }
        k -= 1;
    }
    k
}

/// Removes leading and trailing whitespace.
pub(crate) fn trim(v: &Vec<char>) -> (r: Vec<char>)
    ensures
        r@ == trimmed(v@),
{
    let start = white_prefix(v);
    let end = white_suffix(v, start);
    proof {
        lemma_trim_front_skip(v@, start as int);
        let t = v@.subrange(start as int, v@.len() as int);
        assert(trim_front(t) == t);
        lemma_trim_back_skip(t, end - start);
        assert(t.subrange(0, end - start) =~= v@.subrange(start as int, end as int));
        assert(trim_back(t.subrange(0, end - start)) == t.subrange(0, end - start));
        assert(trimmed(v@) == v@.subrange(start as int, end as int));
    }
    let mut out: Vec<char> = Vec::new();
    let mut i: usize = start;
    while i < end
        invariant
            start <= i <= end <= v.len(),
            out@ == v@.subrange(start as int, i as int),
        decreases end - i,
    {
        out.push(v[i]);
        proof {
            assert(out@ =~= v@.subrange(start as int, i + 1));
        }
        i += 1;
    }
    out
}

/// Removes every space character.
pub(crate) fn remove_spaces(v: &Vec<char>) -> (r: Vec<char>)
    ensures
        r@ == strip_spaces(v@),
{
    let mut out: Vec<char> = Vec::new();
    let mut i: usize = 0;
    proof {
        assert(v@.subrange(0, v@.len() as int) =~= v@);
        assert(Seq::<char>::empty() + strip_spaces(v@) =~= strip_spaces(v@));
    }
    while i < v.len()
        invariant
            i <= v.len(),
            strip_spaces(v@) == out@ + strip_spaces(v@.subrange(i as int, v@.len() as int)),
        decreases v.len() - i,
    {
        let c = v[i];
        proof {
            let rest = v@.subrange(i as int, v@.len() as int);
            assert(rest[0] == c);
            assert(rest.drop_first() =~= v@.subrange(i + 1, v@.len() as int));
        }
        if c != ' ' {
            proof {
                let rest = v@.subrange(i as int, v@.len() as int);
                assert(out@ + (seq![c] + strip_spaces(rest.drop_first())) =~= out@.push(c)
                    + strip_spaces(rest.drop_first()));
            }
            out.push(c);
        }
        i += 1;
    }
    proof {
        assert(v@.subrange(v@.len() as int, v@.len() as int) =~= Seq::<char>::empty());
        assert(out@ + Seq::<char>::empty() =~= out@);
    }
    out
}

proof fn lemma_before_comment_take(s: Seq<char>, i: int)
    requires
        0 <= i <= s.len(),
        forall|j: int| 0 <= j < i ==> !is_comment_intro(s[j]),
        i == s.len() || is_comment_intro(s[i]),
    ensures
        before_comment(s) == s.subrange(0, i),
    decreases i,
{
    if i == 0 {
        if s.len() == 0 {
            assert(s.subrange(0, 0) =~= s);
        } else {
            assert(s.subrange(0, 0) =~= Seq::<char>::empty());
        }
    } else {
        assert(!is_comment_intro(s[0]));
        assert(s.drop_first() =~= s.subrange(1, s.len() as int));
        lemma_before_comment_take(s.drop_first(), i - 1);
        assert(seq![s[0]] + s.drop_first().subrange(0, i - 1) =~= s.subrange(0, i));
    }
}

/// Truncates at the first comment-introducer character.
pub(crate) fn remove_comments(v: &Vec<char>) -> (r: Vec<char>)
    ensures
        r@ == before_comment(v@),
{
    let mut out: Vec<char> = Vec::new();
    let mut i: usize = 0;
    while i < v.len()
        invariant
            i <= v.len(),
            out@ == v@.subrange(0, i as int),
            forall|j: int| 0 <= j < i ==> !is_comment_intro(v@[j]),
        decreases v.len() - i,
    {
        let c = v[i];
        if c == '#' || c == ';' {
            proof {
                lemma_before_comment_take(v@, i as int);
            }
            return out;
        }
        out.push(c);
        proof {
            assert(out@ =~= v@.subrange(0, i + 1));
        }
        i += 1;
    }
    proof {
        lemma_before_comment_take(v@, v@.len() as int);
        assert(v@.subrange(0, v@.len() as int) =~= v@);
    }
    out
}

/// The views of the elements of a vector of character vectors.
pub open spec fn views_of(v: Seq<Vec<char>>) -> Seq<Seq<char>> {
    Seq::new(v.len(), |i: int| v[i]@)
}

proof fn lemma_views_of_push(a: Seq<Vec<char>>, b: Vec<char>)
    ensures
        views_of(a.push(b)) == views_of(a).push(b@),
{
    assert(views_of(a.push(b)) =~= views_of(a).push(b@));
}

/// Splits on the separator character `sep`.
pub(crate) fn split_on_char(v: &Vec<char>, sep: char) -> (r: Vec<Vec<char>>)
    ensures
        views_of(r@) == split_on(v@, sep),
        r.len() >= 1,
{
    let mut done: Vec<Vec<char>> = Vec::new();
    let mut cur: Vec<char> = Vec::new();
    let mut i: usize = 0;
    proof {
        assert(v@.subrange(0, 0) =~= Seq::<char>::empty());
        assert(views_of(done@).push(cur@) =~= seq![Seq::<char>::empty()]);
    }
    while i < v.len()
        invariant
            i <= v.len(),
            split_on(v@.subrange(0, i as int), sep) == views_of(done@).push(cur@),
        decreases v.len() - i,
    {
        let c = v[i];
        proof {
            let here = v@.subrange(0, i + 1);
            assert(here.drop_last() =~= v@.subrange(0, i as int));
            assert(here.last() == c);
        }
        if c == sep {
            proof {
                lemma_views_of_push(done@, cur);
            }
            done.push(cur);
            cur = Vec::new();
        } else {
            let ghost parts = views_of(done@).push(cur@);
            cur.push(c);
            proof {
                assert(parts.drop_last() =~= views_of(done@));
                assert(parts.drop_last().push(parts.last().push(c)) =~= views_of(done@).push(
                    cur@,
                ));
            }
        }
        i += 1;
    }
    proof {
        assert(v@.subrange(0, v@.len() as int) =~= v@);
        lemma_views_of_push(done@, cur);
    }
    done.push(cur);
    done
}

} // verus!
