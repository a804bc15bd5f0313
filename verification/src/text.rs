//! Verified text helpers: decimal rendering of integers, decimal parsing,
//! and character-level string utilities used by the codecs and policies.

use vstd::prelude::*;

verus! {

/// The character for a single decimal digit.
pub open spec fn dec_digit_char(d: nat) -> char {
    if d == 0 {
        '0'
    } else if d == 1 {
        '1'
    } else if d == 2 {
        '2'
    } else if d == 3 {
        '3'
    } else if d == 4 {
        '4'
    } else if d == 5 {
        '5'
    } else if d == 6 {
        '6'
    } else if d == 7 {
        '7'
    } else if d == 8 {
        '8'
    } else {
        '9'
    }
}

/// Decimal representation of a natural number, most significant digit first.
pub open spec fn dec_rep(n: nat) -> Seq<char>
    decreases n,
{
    if n < 10 {
        seq![dec_digit_char(n)]
    } else {
        dec_rep(n / 10).push(dec_digit_char(n % 10))
    }
}

/// Decimal representation padded with a leading zero up to two digits,
/// as `{:02}` renders.
pub open spec fn dec2_rep(n: nat) -> Seq<char> {
    if n < 10 {
        seq!['0'].push(dec_digit_char(n))
    } else {
        dec_rep(n)
    }
}

pub(crate) fn digit_str(d: u64) -> (r: &'static str)
    requires
        d < 10,
    ensures
        r@ =~= seq![dec_digit_char(d as nat)],
{
    proof {
        reveal_strlit("0");
        reveal_strlit("1");
        reveal_strlit("2");
        reveal_strlit("3");
        reveal_strlit("4");
        reveal_strlit("5");
        reveal_strlit("6");
        reveal_strlit("7");
        reveal_strlit("8");
        reveal_strlit("9");
    }
    match d {
        0 => "0",
        1 => "1",
        2 => "2",
        3 => "3",
        4 => "4",
        5 => "5",
        6 => "6",
        7 => "7",
        8 => "8",
        _ => "9",
    }
}

/// Renders a number in decimal, as `{}` does.
pub fn u64_to_dec(n: u64) -> (s: String)
    ensures
        s@ == dec_rep(n as nat),
    decreases n,
{
    if n < 10 {
        digit_str(n).to_owned()
    } else {
        let mut s = u64_to_dec(n / 10);
        s.append(digit_str(n % 10));
        proof {
            assert(s@ =~= dec_rep(n as nat));
        }
        s
    }
}

/// Renders a number in decimal with at least two digits, as `{:02}` does.
pub fn u64_to_dec2(n: u64) -> (s: String)
    ensures
        s@ == dec2_rep(n as nat),
{
    if n < 10 {
        let mut s = "0".to_owned();
        s.append(digit_str(n));
        proof {
            reveal_strlit("0");
            assert(s@ =~= dec2_rep(n as nat));
        }
        s
    } else {
        u64_to_dec(n)
    }
}

/// Whether a character is a decimal digit.
pub open spec fn is_digit_char(c: char) -> bool {
    '0' <= c && c <= '9'
}

/// The value of a decimal digit character.
pub open spec fn digit_val(c: char) -> nat {
    (c as int - '0' as int) as nat
}

/// Whether every character of a sequence is a decimal digit.
pub open spec fn all_digits(s: Seq<char>) -> bool {
    forall|i: int| 0 <= i < s.len() ==> is_digit_char(#[trigger] s[i])
}

/// The numeric value of a sequence of decimal digit characters.
pub open spec fn dec_val(s: Seq<char>) -> nat
    decreases s.len(),
{
    if s.len() == 0 {
        0
    } else {
        dec_val(s.drop_last()) * 10 + digit_val(s.last())
    }
}

proof fn lemma_dec_val_prefix_le(s: Seq<char>, j: int)
    requires
        0 <= j <= s.len(),
    ensures
        dec_val(s.subrange(0, j)) <= dec_val(s),
    decreases s.len() - j,
{
    if j == s.len() {
        assert(s.subrange(0, j) =~= s);
    } else {
        lemma_dec_val_prefix_le(s, j + 1);
        let t = s.subrange(0, j + 1);
        assert(t.drop_last() =~= s.subrange(0, j));
        assert(dec_val(t) == dec_val(s.subrange(0, j)) * 10 + digit_val(t.last()));
    }
}

/// What `str::parse::<u64>` accepts: an optional leading `+`, then one or
/// more decimal digits whose value fits.
pub open spec fn parse_u64_spec(s: Seq<char>) -> Option<u64> {
    let body = if s.len() > 0 && s[0] == '+' {
        s.subrange(1, s.len() as int)
    } else {
        s
    };
    if body.len() > 0 && all_digits(body) && dec_val(body) <= u64::MAX {
        Some(dec_val(body) as u64)
    } else {
        None
    }
}

/// What `str::parse::<i64>` accepts: an optional sign, then one or more
/// decimal digits whose signed value fits.
pub open spec fn parse_i64_spec(s: Seq<char>) -> Option<i64> {
    if s.len() > 0 && s[0] == '-' {
        let body = s.subrange(1, s.len() as int);
        if body.len() > 0 && all_digits(body) && dec_val(body) <= 0x8000_0000_0000_0000 {
            Some((-(dec_val(body) as int)) as i64)
        } else {
            None
        }
    } else {
        let body = if s.len() > 0 && s[0] == '+' {
            s.subrange(1, s.len() as int)
        } else {
            s
        };
        if body.len() > 0 && all_digits(body) && dec_val(body) <= i64::MAX {
            Some(dec_val(body) as i64)
        } else {
            None
        }
    }
}

/// Parses the digit run `s[from..]` as a decimal number.
fn parse_digits(s: &str, from: usize) -> (r: Option<u64>)
    requires
        from <= s@.len(),
    ensures
        ({
            let body = s@.subrange(from as int, s@.len() as int);
            match r {
                Some(n) => body.len() > 0 && all_digits(body) && dec_val(body) == n as nat,
                None => !(body.len() > 0 && all_digits(body) && dec_val(body) <= u64::MAX),
            }
        }),
{
    let ghost body = s@.subrange(from as int, s@.len() as int);
    let len = s.unicode_len();
    if from == len {
        return None;
    }
    let mut acc: u64 = 0;
    let mut i: usize = from;
    while i < len
        invariant
            from <= i <= len,
            len == s@.len(),
            body == s@.subrange(from as int, len as int),
            all_digits(s@.subrange(from as int, i as int)),
            acc as nat == dec_val(s@.subrange(from as int, i as int)),
        decreases len - i,
    {
        let c = s.get_char(i);
        if !('0' <= c && c <= '9') {
            proof {
                assert(body[i - from] == c);
            }
            return None;
        }
        let d: u64 = (c as u32 as u64) - 48;
        proof {
            let pre = s@.subrange(from as int, i as int);
            let cur = s@.subrange(from as int, i + 1 as int);
            assert(cur.drop_last() =~= pre);
            assert(cur.last() == c);
            lemma_dec_val_prefix_le(body.subrange(0, i + 1 - from as int), i + 1 - from as int);
            assert(body.subrange(0, i + 1 - from as int) =~= cur);
            assert(body.subrange(0, i + 1 - from as int).subrange(0, i + 1 - from as int) =~= cur);
        }
        if acc > (u64::MAX - d) / 10 {
            proof {
                let cur = s@.subrange(from as int, i + 1 as int);
                assert(dec_val(cur) == acc as nat * 10 + d as nat);
                lemma_dec_val_prefix_le(body, i + 1 - from as int);
                assert(body.subrange(0, i + 1 - from as int) =~= cur);
            }
            return None;
        }
        acc = acc * 10 + d;
        i = i + 1;
    }
    proof {
        assert(s@.subrange(from as int, i as int) =~= body);
    }
    Some(acc)
}

/// Parses a decimal string as `str::parse::<u64>` does.
pub fn parse_u64(s: &str) -> (r: Option<u64>)
    ensures
        r == parse_u64_spec(s@),
{
    let len = s.unicode_len();
    if len > 0 && s.get_char(0) == '+' {
        parse_digits(s, 1)
    } else {
        proof {
            assert(s@.subrange(0, s@.len() as int) =~= s@);
        }
        parse_digits(s, 0)
    }
}

/// Parses a decimal string as `str::parse::<i64>` does.
pub fn parse_i64(s: &str) -> (r: Option<i64>)
    ensures
        r == parse_i64_spec(s@),
{
    let len = s.unicode_len();
    if len > 0 && s.get_char(0) == '-' {
        match parse_digits(s, 1) {
            Some(n) => {
                if n <= 0x8000_0000_0000_0000 {
                    // the magnitude of i64::MIN still fits
                    if n == 0x8000_0000_0000_0000 {
                        Some(i64::MIN)
                    } else {
                        Some(-(n as i64))
                    }
                } else {
                    None
                }
            },
            None => None,
        }
    } else if len > 0 && s.get_char(0) == '+' {
        match parse_digits(s, 1) {
            Some(n) => {
                if n <= i64::MAX as u64 {
                    Some(n as i64)
                } else {
                    None
                }
            },
            None => None,
        }
    } else {
        proof {
            assert(s@.subrange(0, s@.len() as int) =~= s@);
        }
        match parse_digits(s, 0) {
            Some(n) => {
                if n <= i64::MAX as u64 {
                    Some(n as i64)
                } else {
                    None
                }
            },
            None => None,
        }
    }
}

/// Whether `p` is a prefix of `s`.
pub open spec fn has_prefix(s: Seq<char>, p: Seq<char>) -> bool {
    p.len() <= s.len() && s.subrange(0, p.len() as int) == p
}

/// Whether `p` is a suffix of `s`.
pub open spec fn has_suffix(s: Seq<char>, p: Seq<char>) -> bool {
    p.len() <= s.len() && s.subrange(s.len() - p.len(), s.len() as int) == p
}

/// Character-level prefix test.
pub fn str_starts_with(s: &str, p: &str) -> (r: bool)
    ensures
        r == has_prefix(s@, p@),
{
    let slen = s.unicode_len();
    let plen = p.unicode_len();
    if plen > slen {
        return false;
    }
    let mut i: usize = 0;
    while i < plen
        invariant
            0 <= i <= plen,
            plen <= slen,
            slen == s@.len(),
            plen == p@.len(),
            forall|j: int| 0 <= j < i ==> s@[j] == p@[j],
        decreases plen - i,
    {
        if s.get_char(i) != p.get_char(i) {
            proof {
                assert(s@.subrange(0, p@.len() as int)[i as int] != p@[i as int]);
            }
            return false;
        }
        i = i + 1;
    }
    proof {
        assert(s@.subrange(0, p@.len() as int) =~= p@);
    }
    true
}

/// Character-level string equality.
pub fn str_eq(s: &str, t: &str) -> (r: bool)
    ensures
        r == (s@ == t@),
{
    let slen = s.unicode_len();
    let tlen = t.unicode_len();
    if slen != tlen {
        return false;
    }
    let mut i: usize = 0;
    while i < slen
        invariant
            0 <= i <= slen,
            slen == s@.len(),
            slen == t@.len(),
            forall|j: int| 0 <= j < i ==> s@[j] == t@[j],
        decreases slen - i,
    {
        if s.get_char(i) != t.get_char(i) {
            return false;
        }
        i = i + 1;
    }
    proof {
        assert(s@ =~= t@);
    }
    true
}

/// What `str::to_lowercase` returns: a function of the characters alone.
pub uninterp spec fn lower_of(s: Seq<char>) -> Seq<char>;

/// Relies on `str::to_lowercase`: the lowercased text, a function of the
/// characters alone; an empty string stays empty.
#[verifier::external_body]
pub(crate) fn lowercase(s: &str) -> (r: String)
    ensures
        r@ == lower_of(s@),
        s@.len() == 0 ==> r@.len() == 0,
{
    s.to_lowercase()
}

/// An ASCII letter folded to lower case; other characters unchanged.
pub open spec fn lower_ascii_char(c: char) -> char {
    if 'A' <= c && c <= 'Z' {
        ((c as u8) + 32) as char
    } else {
        c
    }
}

/// Whether a text equals a lowercase word, ASCII case folded.
pub open spec fn ci_word(s: Seq<char>, w: Seq<char>) -> bool {
    s.len() == w.len() && forall|i: int| 0 <= i < s.len() ==> lower_ascii_char(#[trigger] s[i])
        == w[i]
}

/// The text without one leading sign.
pub open spec fn strip_sign(s: Seq<char>) -> Seq<char> {
    if s.len() > 0 && (s[0] == '+' || s[0] == '-') {
        s.drop_first()
    } else {
        s
    }
}

/// The first index at or after `i` that holds no decimal digit.
pub open spec fn skip_digits(s: Seq<char>, i: int) -> int
    decreases s.len() - i,
{
    if 0 <= i < s.len() && is_digit_char(s[i]) {
        skip_digits(s, i + 1)
    } else {
        i
    }
}

/// An exponent suffix starting at `i`: an exponent letter, an optional
/// sign, then digits to the end.
pub open spec fn exp_accepted(b: Seq<char>, i: int) -> bool {
    &&& 0 <= i < b.len()
    &&& (b[i] == 'e' || b[i] == 'E')
    &&& ({
        let j = if i + 1 < b.len() && (b[i + 1] == '+' || b[i + 1] == '-') {
            i + 2
        } else {
            i + 1
        };
        j < b.len() && skip_digits(b, j) == b.len()
    })
}

/// A decimal number with an optional fraction and exponent: digits, or
/// digits around one dot with at least one digit present, then an optional
/// exponent suffix.
pub open spec fn number_accepted(b: Seq<char>) -> bool {
    let d1 = skip_digits(b, 0);
    let has_dot = d1 < b.len() && b[d1] == '.';
    let m_end = if has_dot {
        skip_digits(b, d1 + 1)
    } else {
        d1
    };
    let mantissa_ok = if has_dot {
        d1 > 0 || m_end > d1 + 1
    } else {
        d1 > 0
    };
    mantissa_ok && (m_end == b.len() || exp_accepted(b, m_end))
}

/// What `str::parse` for the binary floating-point types accepts, per its
/// documented grammar: an optional sign, then a case-insensitive special
/// word or a decimal number with optional fraction and exponent. The
/// magnitude never fails the parse, only malformed text does.
pub open spec fn float_text_accepted(s: Seq<char>) -> bool {
    let b = strip_sign(s);
    ||| ci_word(b, seq!['i', 'n', 'f'])
    ||| ci_word(b, seq!['i', 'n', 'f', 'i', 'n', 'i', 't', 'y'])
    ||| ci_word(b, seq!['n', 'a', 'n'])
    ||| number_accepted(b)
}

fn lower_ascii(c: char) -> (r: char)
    ensures
        r == lower_ascii_char(c),
{
    if 'A' <= c && c <= 'Z' {
        ((c as u8) + 32) as char
    } else {
        c
    }
}

fn matches_ci_word(s: &str, from: usize, w: &str) -> (r: bool)
    requires
        from <= s@.len(),
    ensures
        r == ci_word(s@.subrange(from as int, s@.len() as int), w@),
{
    let slen = s.unicode_len();
    let wlen = w.unicode_len();
    if slen - from != wlen {
        return false;
    }
    let ghost tail = s@.subrange(from as int, s@.len() as int);
    let mut i: usize = 0;
    while i < wlen
        invariant
            0 <= i <= wlen,
            from + wlen == slen,
            slen == s@.len(),
            wlen == w@.len(),
            tail == s@.subrange(from as int, s@.len() as int),
            forall|j: int| 0 <= j < i ==> lower_ascii_char(#[trigger] tail[j]) == w@[j],
        decreases wlen - i,
    {
        if lower_ascii(s.get_char(from + i)) != w.get_char(i) {
            proof {
                assert(tail[i as int] == s@[from + i]);
                assert(lower_ascii_char(tail[i as int]) != w@[i as int]);
            }
            return false;
        }
        i = i + 1;
    }
    true
}

fn sign_at(s: &str, i: usize) -> (r: bool)
    requires
        i < s@.len(),
    ensures
        r == (s@[i as int] == '+' || s@[i as int] == '-'),
{
    let c = s.get_char(i);
    c == '+' || c == '-'
}

fn digit_at(s: &str, i: usize) -> (r: bool)
    requires
        i < s@.len(),
    ensures
        r == is_digit_char(s@[i as int]),
{
    let c = s.get_char(i);
    '0' <= c && c <= '9'
}

fn digits_end(s: &str, from: usize) -> (r: usize)
    requires
        from <= s@.len(),
    ensures
        from <= r <= s@.len(),
        r == skip_digits(s@, from as int),
{
    let len = s.unicode_len();
    let mut i: usize = from;
    while i < len && digit_at(s, i)
        invariant
            from <= i <= len,
            len == s@.len(),
            skip_digits(s@, from as int) == skip_digits(s@, i as int),
        decreases len - i,
    {
        i = i + 1;
    }
    i
}

/// Whether the text is accepted by `str::parse` for the binary
/// floating-point types, per `float_text_accepted`.
pub fn is_float_text(s: &str) -> (r: bool)
    ensures
        r == float_text_accepted(s@),
{
    let len = s.unicode_len();
    let start: usize = if len > 0 && sign_at(s, 0) {
        1
    } else {
        0
    };
    let ghost b = strip_sign(s@);
    proof {
        assert(b =~= s@.subrange(start as int, s@.len() as int));
        reveal_strlit("inf");
        reveal_strlit("infinity");
        reveal_strlit("nan");
        assert("inf"@ =~= seq!['i', 'n', 'f']);
        assert("infinity"@ =~= seq!['i', 'n', 'f', 'i', 'n', 'i', 't', 'y']);
        assert("nan"@ =~= seq!['n', 'a', 'n']);
    }
    if matches_ci_word(s, start, "inf") || matches_ci_word(s, start, "infinity")
        || matches_ci_word(s, start, "nan") {
        return true;
    }
    let d1 = digits_end(s, start);
    proof {
        lemma_skip_digits_shift(s@, start as int, start as int);
        assert(skip_digits(b, 0) == d1 - start);
    }
    let has_dot = d1 < len && {
        proof {
            assert(b[d1 - start] == s@[d1 as int]);
        }
        s.get_char(d1) == '.'
    };
    let m_end = if has_dot {
        let e = digits_end(s, d1 + 1);
        proof {
            lemma_skip_digits_shift(s@, start as int, d1 + 1 as int);
            assert(skip_digits(b, d1 + 1 - start) == e - start);
        }
        e
    } else {
        d1
    };
    let mantissa_ok = if has_dot {
        d1 > start || m_end > d1 + 1
    } else {
        d1 > start
    };
    if !mantissa_ok {
        return false;
    }
    if m_end == len {
        return true;
    }
    proof {
        assert(b[m_end - start] == s@[m_end as int]);
    }
    let c = s.get_char(m_end);
    if !(c == 'e' || c == 'E') {
        return false;
    }
    let signed_exp = m_end + 1 < len && sign_at(s, m_end + 1);
    proof {
        if m_end + 1 < len {
            assert(b[m_end + 1 - start] == s@[m_end + 1]);
        }
    }
    let j = if signed_exp {
        m_end + 2
    } else {
        m_end + 1
    };
    if j >= len {
        return false;
    }
    let e_end = digits_end(s, j);
    proof {
        lemma_skip_digits_shift(s@, start as int, j as int);
        assert(skip_digits(b, j - start) == e_end - start);
    }
    e_end == len
}

proof fn lemma_skip_digits_shift(s: Seq<char>, start: int, i: int)
    requires
        0 <= start <= i <= s.len(),
    ensures
        skip_digits(s.subrange(start, s.len() as int), i - start) == skip_digits(s, i) - start,
    decreases s.len() - i,
{
    let b = s.subrange(start, s.len() as int);
    if i < s.len() && is_digit_char(s[i]) {
        assert(b[i - start] == s[i]);
        lemma_skip_digits_shift(s, start, i + 1);
    } else {
        if i < s.len() {
            assert(b[i - start] == s[i]);
        }
    }
}

} // verus!
