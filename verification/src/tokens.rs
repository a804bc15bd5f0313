//! Splitting configuration names on a delimiter while honoring a SQL
//! escape character, and the trims the structure fetcher needs.

use vstd::prelude::*;
use crate::text::{has_prefix, has_suffix};

verus! {

/// The tokens of `s[i..]` split on `delim` outside escapes, given the token
/// collected so far and whether the scan stands inside an escape.
pub open spec fn split_rec(
    s: Seq<char>,
    delim: char,
    esc: char,
    i: int,
    cur: Seq<char>,
    inq: bool,
    acc: Seq<Seq<char>>,
) -> Seq<Seq<char>>
    decreases s.len() - i,
{
    if i < 0 || i >= s.len() {
        acc.push(cur)
    } else {
        let c = s[i];
        if c == esc {
            split_rec(s, delim, esc, i + 1, cur.push(c), !inq, acc)
        } else if c == delim && !inq {
            split_rec(s, delim, esc, i + 1, Seq::empty(), inq, acc.push(cur))
        } else {
            split_rec(s, delim, esc, i + 1, cur.push(c), inq, acc)
        }
    }
}

/// The tokens of a name split on a delimiter, with delimiters inside the
/// escape character ignored. The escape characters stay in the tokens.
pub open spec fn split_tokens(s: Seq<char>, delim: char, esc: char) -> Seq<Seq<char>> {
    split_rec(s, delim, esc, 0, Seq::empty(), false, Seq::empty())
}

/// Splits a name on a delimiter, honoring the escape character.
pub fn parse_tokens(s: &str, delim: char, esc: char) -> (r: Vec<String>)
    ensures
        r@.map_values(|t: String| t@) == split_tokens(s@, delim, esc),
{
    let len = s.unicode_len();
    let mut acc: Vec<String> = Vec::new();
    let mut start: usize = 0;
    let mut inq = false;
    let mut i: usize = 0;
    proof {
        assert(s@.subrange(0, 0) =~= Seq::<char>::empty());
        assert(acc@.map_values(|t: String| t@) =~= Seq::<Seq<char>>::empty());
    }
    while i < len
        invariant
            0 <= start <= i <= len,
            len == s@.len(),
            split_tokens(s@, delim, esc) == split_rec(
                s@,
                delim,
                esc,
                i as int,
                s@.subrange(start as int, i as int),
                inq,
                acc@.map_values(|t: String| t@),
            ),
        decreases len - i,
    {
        let c = s.get_char(i);
        let ghost cur = s@.subrange(start as int, i as int);
        let ghost accm = acc@.map_values(|t: String| t@);
        let ghost inq0 = inq;
        proof {
            assert(cur.push(s@[i as int]) =~= s@.subrange(start as int, i + 1 as int));
        }
        if c == esc {
            inq = !inq;
            proof {
                assert(split_rec(s@, delim, esc, i as int, cur, inq0, accm) == split_rec(
                    s@,
                    delim,
                    esc,
                    i + 1,
                    cur.push(c),
                    !inq0,
                    accm,
                ));
            }
        } else if c == delim && !inq {
            let tok = s.substring_char(start, i).to_owned();
            acc.push(tok);
            proof {
                assert(acc@.map_values(|t: String| t@) =~= accm.push(cur));
                assert(s@.subrange(i + 1 as int, i + 1 as int) =~= Seq::<char>::empty());
                assert(split_rec(s@, delim, esc, i as int, cur, inq0, accm) == split_rec(
                    s@,
                    delim,
                    esc,
                    i + 1,
                    Seq::<char>::empty(),
                    inq0,
                    accm.push(cur),
                ));
            }
            start = i + 1;
        } else {
            proof {
                assert(split_rec(s@, delim, esc, i as int, cur, inq0, accm) == split_rec(
                    s@,
                    delim,
                    esc,
                    i + 1,
                    cur.push(c),
                    inq0,
                    accm,
                ));
            }
        }
        i = i + 1;
    }
    let ghost accm = acc@.map_values(|t: String| t@);
    let tok = s.substring_char(start, len).to_owned();
    acc.push(tok);
    proof {
        assert(acc@.map_values(|t: String| t@) =~= accm.push(s@.subrange(start as int, len as int)));
    }
    acc
}

/// A token with one surrounding escape pair removed, when both ends carry
/// it.
pub open spec fn spec_unescape(t: Seq<char>, open: char, close: char) -> Seq<char> {
    if t.len() >= 2 && t[0] == open && t[t.len() - 1] == close {
        t.subrange(1, t.len() - 1)
    } else {
        t
    }
}

/// Removes one surrounding escape pair, when present.
pub fn unescape(t: &str, open: char, close: char) -> (r: String)
    ensures
        r@ == spec_unescape(t@, open, close),
{
    let len = t.unicode_len();
    if len >= 2 && t.get_char(0) == open && t.get_char(len - 1) == close {
        t.substring_char(1, len - 1).to_owned()
    } else {
        t.to_owned()
    }
}

/// The string with every leading repetition of a prefix removed.
pub open spec fn spec_trim_start_matches(s: Seq<char>, p: Seq<char>) -> Seq<char>
    decreases s.len(),
{
    if p.len() > 0 && has_prefix(s, p) {
        spec_trim_start_matches(s.subrange(p.len() as int, s.len() as int), p)
    } else {
        s
    }
}

/// The string with every trailing repetition of a suffix removed.
pub open spec fn spec_trim_end_matches(s: Seq<char>, p: Seq<char>) -> Seq<char>
    decreases s.len(),
{
    if p.len() > 0 && has_suffix(s, p) {
        spec_trim_end_matches(s.subrange(0, s.len() - p.len()), p)
    } else {
        s
    }
}

fn starts_with_at(s: &str, p: &str, from: usize) -> (r: bool)
    requires
        from <= s@.len(),
    ensures
        r == has_prefix(s@.subrange(from as int, s@.len() as int), p@),
{
    let slen = s.unicode_len();
    let plen = p.unicode_len();
    if plen > slen - from {
        return false;
    }
    let ghost tail = s@.subrange(from as int, s@.len() as int);
    let mut i: usize = 0;
    while i < plen
        invariant
            0 <= i <= plen,
            from + plen <= slen,
            slen == s@.len(),
            plen == p@.len(),
            tail == s@.subrange(from as int, s@.len() as int),
            forall|j: int| 0 <= j < i ==> tail[j] == p@[j],
        decreases plen - i,
    {
        if s.get_char(from + i) != p.get_char(i) {
            proof {
                assert(tail.subrange(0, p@.len() as int)[i as int] != p@[i as int]);
            }
            return false;
        }
        i = i + 1;
    }
    proof {
        assert(tail.subrange(0, p@.len() as int) =~= p@);
    }
    true
}

fn ends_with_before(s: &str, p: &str, end: usize) -> (r: bool)
    requires
        end <= s@.len(),
    ensures
        r == has_suffix(s@.subrange(0, end as int), p@),
{
    let plen = p.unicode_len();
    if plen > end {
        return false;
    }
    let ghost head = s@.subrange(0, end as int);
    let mut i: usize = 0;
    while i < plen
        invariant
            0 <= i <= plen <= end,
            end <= s@.len(),
            plen == p@.len(),
            head == s@.subrange(0, end as int),
            forall|j: int| 0 <= j < i ==> head[end - plen + j] == p@[j],
        decreases plen - i,
    {
        if s.get_char(end - plen + i) != p.get_char(i) {
            proof {
                assert(head.subrange(end - plen, end as int)[i as int] != p@[i as int]);
            }
            return false;
        }
        i = i + 1;
    }
    proof {
        assert(head.subrange(end - plen, end as int) =~= p@);
    }
    true
}

/// Removes every leading repetition of a prefix.
pub fn trim_start_matches_str<'a>(s: &'a str, p: &str) -> (r: &'a str)
    ensures
        r@ == spec_trim_start_matches(s@, p@),
{
    let slen = s.unicode_len();
    let plen = p.unicode_len();
    if plen == 0 {
        return s;
    }
    let mut from: usize = 0;
    proof {
        assert(s@.subrange(0, s@.len() as int) =~= s@);
    }
    while starts_with_at(s, p, from)
        invariant
            0 <= from <= s@.len(),
            plen == p@.len() > 0,
            slen == s@.len(),
            spec_trim_start_matches(s@, p@) == spec_trim_start_matches(
                s@.subrange(from as int, s@.len() as int),
                p@,
            ),
        decreases s@.len() - from,
    {
        proof {
            let tail = s@.subrange(from as int, s@.len() as int);
            assert(tail.subrange(p@.len() as int, tail.len() as int) =~= s@.subrange(
                from + p@.len(),
                s@.len() as int,
            ));
        }
        from = from + plen;
    }
    let r = s.substring_char(from, slen);
    proof {
        assert(r@ =~= s@.subrange(from as int, s@.len() as int));
    }
    r
}

/// Removes every trailing repetition of a suffix.
pub fn trim_end_matches_str<'a>(s: &'a str, p: &str) -> (r: &'a str)
    ensures
        r@ == spec_trim_end_matches(s@, p@),
{
    let plen = p.unicode_len();
    if plen == 0 {
        return s;
    }
    let mut end: usize = s.unicode_len();
    proof {
        assert(s@.subrange(0, s@.len() as int) =~= s@);
    }
    while ends_with_before(s, p, end)
        invariant
            0 <= end <= s@.len(),
            plen == p@.len() > 0,
            spec_trim_end_matches(s@, p@) == spec_trim_end_matches(
                s@.subrange(0, end as int),
                p@,
            ),
        decreases end,
    {
        proof {
            let head = s@.subrange(0, end as int);
            assert(head.subrange(0, head.len() - p@.len()) =~= s@.subrange(
                0,
                end - p@.len(),
            ));
        }
        end = end - plen;
    }
    let r = s.substring_char(0, end);
    proof {
        assert(r@ =~= s@.subrange(0, end as int));
    }
    r
}

/// ASCII whitespace, as the configuration texts use it.
pub open spec fn is_ascii_ws(c: char) -> bool {
    c == ' ' || c == '\t' || c == '\n' || c == '\r'
}

/// The string without leading ASCII whitespace.
pub open spec fn spec_trim_front(s: Seq<char>) -> Seq<char>
    decreases s.len(),
{
    if s.len() > 0 && is_ascii_ws(s[0]) {
        spec_trim_front(s.drop_first())
    } else {
        s
    }
}

/// The string without trailing ASCII whitespace.
pub open spec fn spec_trim_back(s: Seq<char>) -> Seq<char>
    decreases s.len(),
{
    if s.len() > 0 && is_ascii_ws(s.last()) {
        spec_trim_back(s.drop_last())
    } else {
        s
    }
}

/// The string without surrounding ASCII whitespace.
pub open spec fn spec_trim_ws(s: Seq<char>) -> Seq<char> {
    spec_trim_back(spec_trim_front(s))
}

fn is_ws(c: char) -> (r: bool)
    ensures
        r == is_ascii_ws(c),
{
    c == ' ' || c == '\t' || c == '\n' || c == '\r'
}

/// Removes surrounding ASCII whitespace.
pub fn trim_ws<'a>(s: &'a str) -> (r: &'a str)
    ensures
        r@ == spec_trim_ws(s@),
{
    let len = s.unicode_len();
    let mut from: usize = 0;
    proof {
        assert(s@.subrange(0, s@.len() as int) =~= s@);
    }
    while from < len && is_ws(s.get_char(from))
        invariant
            0 <= from <= len,
            len == s@.len(),
            spec_trim_front(s@) == spec_trim_front(s@.subrange(from as int, s@.len() as int)),
        decreases len - from,
    {
        proof {
            let t = s@.subrange(from as int, s@.len() as int);
            assert(t[0] == s@[from as int]);
            assert(t.drop_first() =~= s@.subrange(from + 1 as int, s@.len() as int));
        }
        from = from + 1;
    }
    proof {
        let t = s@.subrange(from as int, s@.len() as int);
        if t.len() > 0 {
            assert(t[0] == s@[from as int]);
        }
        assert(spec_trim_front(s@) == t);
    }
    let mut end: usize = len;
    while end > from && is_ws(s.get_char(end - 1))
        invariant
            from <= end <= len,
            len == s@.len(),
            spec_trim_back(spec_trim_front(s@)) == spec_trim_back(
                s@.subrange(from as int, end as int),
            ),
        decreases end,
    {
        proof {
            let t = s@.subrange(from as int, end as int);
            assert(t.last() == s@[end - 1]);
            assert(t.drop_last() =~= s@.subrange(from as int, end - 1));
        }
        end = end - 1;
    }
    proof {
        let t = s@.subrange(from as int, end as int);
        if t.len() > 0 {
            assert(t.last() == s@[end - 1]);
        }
        assert(spec_trim_back(spec_trim_front(s@)) == t);
    }
    let r = s.substring_char(from, end);
    proof {
        assert(r@ =~= s@.subrange(from as int, end as int));
    }
    r
}

} // verus!
