//! Canonical temporal text: dates as `%Y-%m-%d`, times as
//! `[-]HH:MM:SS[.ffffff]` with trailing fraction zeros trimmed, datetimes as
//! the two joined with a space.

use vstd::prelude::*;
use crate::text::{dec2_rep, dec_digit_char, dec_rep, digit_str, u64_to_dec, u64_to_dec2};

verus! {

/// The low `width` decimal digits of `n`, zero-padded to `width`.
pub open spec fn padded_digits(n: nat, width: nat) -> Seq<char>
    decreases width,
{
    if width == 0 {
        Seq::empty()
    } else {
        padded_digits(n / 10, (width - 1) as nat).push(dec_digit_char(n % 10))
    }
}

/// The sequence with every trailing `'0'` removed.
pub open spec fn trim_trailing_zeros(s: Seq<char>) -> Seq<char>
    decreases s.len(),
{
    if s.len() > 0 && s.last() == '0' {
        trim_trailing_zeros(s.drop_last())
    } else {
        s
    }
}

/// The fractional-second suffix: empty for zero, else a dot and the
/// microseconds padded to six digits with trailing zeros trimmed.
pub open spec fn frac_text(us: nat) -> Seq<char> {
    if us == 0 {
        Seq::empty()
    } else {
        seq!['.'] + trim_trailing_zeros(padded_digits(us, 6))
    }
}

/// `HH:MM:SS` with the fractional suffix.
pub open spec fn time_body_text(h: nat, m: nat, s: nat, us: nat) -> Seq<char> {
    dec2_rep(h) + seq![':'] + dec2_rep(m) + seq![':'] + dec2_rep(s) + frac_text(us)
}

/// A time of day, possibly negative (MySQL times span `-838` to `838` hours).
pub open spec fn time_text(neg: bool, h: nat, m: nat, s: nat, us: nat) -> Seq<char> {
    (if neg {
        seq!['-']
    } else {
        Seq::empty()
    }) + time_body_text(h, m, s, us)
}

/// `%Y-%m-%d`: the year unpadded, month and day two digits.
pub open spec fn date_text(y: nat, mo: nat, d: nat) -> Seq<char> {
    dec_rep(y) + seq!['-'] + dec2_rep(mo) + seq!['-'] + dec2_rep(d)
}

/// `%Y-%m-%d %H:%M:%S%.f`.
pub open spec fn datetime_text(y: nat, mo: nat, d: nat, h: nat, mi: nat, s: nat, us: nat) -> Seq<
    char,
> {
    date_text(y, mo, d) + seq![' '] + time_body_text(h, mi, s, us)
}

fn render_padded(n: u64, width: usize) -> (s: String)
    ensures
        s@ == padded_digits(n as nat, width as nat),
    decreases width,
{
    if width == 0 {
        let s = String::new();
        proof {
            assert(s@ =~= padded_digits(n as nat, 0));
        }
        s
    } else {
        let mut s = render_padded(n / 10, width - 1);
        s.append(digit_str(n % 10));
        proof {
            assert(s@ =~= padded_digits(n as nat, width as nat));
        }
        s
    }
}

fn render_trimmed(n: u64, width: usize) -> (s: String)
    ensures
        s@ == trim_trailing_zeros(padded_digits(n as nat, width as nat)),
    decreases width,
{
    if width == 0 {
        String::new()
    } else if n % 10 == 0 {
        let s = render_trimmed(n / 10, width - 1);
        proof {
            let full = padded_digits(n as nat, width as nat);
            assert(full.last() == dec_digit_char(n as nat % 10));
            assert(dec_digit_char(n as nat % 10) == '0');
            assert(full.drop_last() =~= padded_digits(n as nat / 10, (width - 1) as nat));
        }
        s
    } else {
        let s = render_padded(n, width);
        proof {
            let full = padded_digits(n as nat, width as nat);
            assert(full.last() == dec_digit_char(n as nat % 10));
            assert(dec_digit_char(n as nat % 10) != '0');
        }
        s
    }
}

fn render_frac(us: u32) -> (s: String)
    ensures
        s@ == frac_text(us as nat),
{
    if us == 0 {
        let s = String::new();
        proof {
            assert(s@ =~= frac_text(0));
        }
        s
    } else {
        let mut s = ".".to_owned();
        let t = render_trimmed(us as u64, 6);
        s.append(t.as_str());
        proof {
            reveal_strlit(".");
            assert(s@ =~= frac_text(us as nat));
        }
        s
    }
}

/// A time-of-day value decoded from a binlog buffer; hours may exceed 24
/// because day overflow folds into them.
#[derive(Clone, PartialEq, Eq, Debug)]
pub struct DtNaiveTime {
    pub is_negative: bool,
    pub hour: u32,
    pub minute: u32,
    pub second: u32,
    pub microsecond: u32,
}

impl Default for DtNaiveTime {
    /// The special `00:00:00` value.
    fn default() -> (r: DtNaiveTime)
        ensures
            !r.is_negative,
            r.hour == 0 && r.minute == 0 && r.second == 0 && r.microsecond == 0,
    {
        DtNaiveTime { is_negative: false, hour: 0, minute: 0, second: 0, microsecond: 0 }
    }
}

impl DtNaiveTime {
    /// Renders the canonical time text.
    pub fn to_text(&self) -> (r: String)
        ensures
            r@ == time_text(
                self.is_negative,
                self.hour as nat,
                self.minute as nat,
                self.second as nat,
                self.microsecond as nat,
            ),
    {
        let mut s = if self.is_negative {
            "-".to_owned()
        } else {
            String::new()
        };
        let h = u64_to_dec2(self.hour as u64);
        let m = u64_to_dec2(self.minute as u64);
        let sec = u64_to_dec2(self.second as u64);
        let f = render_frac(self.microsecond);
        s.append(h.as_str());
        s.append(":");
        s.append(m.as_str());
        s.append(":");
        s.append(sec.as_str());
        s.append(f.as_str());
        proof {
            reveal_strlit("-");
            reveal_strlit(":");
            assert(s@ =~= time_text(
                self.is_negative,
                self.hour as nat,
                self.minute as nat,
                self.second as nat,
                self.microsecond as nat,
            ));
        }
        s
    }
}

/// Renders the canonical date text.
pub fn render_date(y: u64, mo: u64, d: u64) -> (r: String)
    ensures
        r@ == date_text(y as nat, mo as nat, d as nat),
{
    let mut s = u64_to_dec(y);
    let m2 = u64_to_dec2(mo);
    let d2 = u64_to_dec2(d);
    s.append("-");
    s.append(m2.as_str());
    s.append("-");
    s.append(d2.as_str());
    proof {
        reveal_strlit("-");
        assert(s@ =~= date_text(y as nat, mo as nat, d as nat));
    }
    s
}

} // verus!
