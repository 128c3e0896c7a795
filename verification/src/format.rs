//! Character classification used by the lexer, and the reading of
//! dot-separated date texts into plain calendar days.
use vstd::prelude::*;
use crate::text::{
    parse_u64, push_char, spec_digits_val, spec_is_digits, spec_parse_u64, ParsedUInt,
};

verus! {

/// Whitespace in the script format: a space, or any character from
/// horizontal tab through carriage return.
pub open spec fn spec_is_space(c: char) -> bool {
    c == ' ' || ('\t' <= c && c <= '\r')
}

/// Decimal digit.
pub open spec fn spec_is_digit(c: char) -> bool {
    '0' <= c && c <= '9'
}

pub struct Format {}

impl Format {
    /// Is `c` whitespace for the purposes of tokenisation?
    pub fn is_space(c: char) -> (r: bool)
        ensures
            r == spec_is_space(c),
    {
        c == ' ' || (c >= '\t' && c <= '\r')
    }

    /// Negation of [`Format::is_space`].
    pub fn is_not_space(c: char) -> (r: bool)
        ensures
            r == !spec_is_space(c),
    {
        !Format::is_space(c)
    }

    /// Is `c` a decimal digit?
    pub fn is_digit(c: char) -> (r: bool)
        ensures
            r == spec_is_digit(c),
    {
        c >= '0' && c <= '9'
    }

    /// Reads a dot-separated date text (`year.month.day.hour.minute.second`,
    /// later segments optional) into its calendar day. `Some` exactly when
    /// every segment is a run of digits, at most six are given, and the
    /// resulting parts are in range, with the day checked against the
    /// month's true length.
    pub fn string_to_date(date: &str) -> (r: Option<Date>)
        ensures
            r == spec_string_to_date(date@),
    {
        let n = date.unicode_len();
        let mut done: Vec<String> = Vec::new();
        let mut cur = String::new();
        let mut i: usize = 0;
        while i < n
            invariant
                n == date@.len(),
                i <= n,
                crate::country_definition::texts_view(done@).push(cur@) == spec_split_dots(
                    date@.take(i as int),
                ),
            decreases n - i,
        {
            proof {
                assert(date@.take(i + 1 as int).drop_last() =~= date@.take(i as int));
                assert(date@.take(i + 1 as int).last() == date@[i as int]);
            }
            let c = date.get_char(i);
            if c == '.' {
                let ghost pre = crate::country_definition::texts_view(done@);
                done.push(cur);
                cur = String::new();
                proof {
                    assert(crate::country_definition::texts_view(done@) =~= spec_split_dots(
                        date@.take(i as int),
                    ));
                    assert(crate::country_definition::texts_view(done@).push(cur@)
                        =~= spec_split_dots(date@.take(i + 1 as int)));
                }
            } else {
                push_char(&mut cur, c);
                proof {
                    let prev = spec_split_dots(date@.take(i as int));
                    assert(prev.len() > 0);
                    assert(crate::country_definition::texts_view(done@).push(cur@) =~= prev.update(
                        prev.len() - 1,
                        prev.last().push(date@[i as int]),
                    ));
                }
            }
            i = i + 1;
        }
        proof {
            assert(date@.take(n as int) =~= date@);
        }
        done.push(cur);
        let ghost segs = spec_split_dots(date@);
        proof {
            assert(crate::country_definition::texts_view(done@) =~= segs);
        }
        if done.len() > 6 {
            return None;
        }
        let mut vals: Vec<u64> = Vec::new();
        let mut j: usize = 0;
        while j < done.len()
            invariant
                segs == spec_split_dots(date@),
                crate::country_definition::texts_view(done@) == segs,
                done@.len() == segs.len(),
                segs.len() <= 6,
                j <= segs.len(),
                vals@.len() == j,
                forall|k: int|
                    0 <= k < j ==> spec_is_digits(#[trigger] segs[k]) && spec_digits_val(segs[k])
                        <= u32::MAX,
                forall|k: int| 0 <= k < j ==> vals@[k] == spec_digits_val(#[trigger] segs[k]),
            decreases done@.len() - j,
        {
            proof {
                assert(segs[j as int] == done@[j as int]@);
            }
            match parse_u64(done[j].as_str()) {
                ParsedUInt::Val(v) => {
                    if v > 0xffff_ffff {
                        proof {
                            assert(spec_digits_val(segs[j as int]) > u32::MAX);
                            assert(!spec_segs_numeric(segs));
                        }
                        return None;
                    }
                    vals.push(v);
                },
                _ => {
                    proof {
                        assert(!(spec_is_digits(segs[j as int]) && spec_digits_val(segs[j as int])
                            <= u32::MAX));
                        assert(!spec_segs_numeric(segs));
                    }
                    return None;
                },
            }
            j = j + 1;
        }
        proof {
            assert(spec_segs_numeric(segs));
        }
        let ghost p = spec_date_parts(segs);
        let y: u64 = if vals.len() > 0 {
            vals[0]
        } else {
            1
        };
        let m: u64 = if vals.len() > 1 {
            vals[1]
        } else {
            1
        };
        let d: u64 = if vals.len() > 2 {
            vals[2]
        } else {
            1
        };
        let hh: u64 = if vals.len() > 3 {
            vals[3]
        } else {
            0
        };
        let mm: u64 = if vals.len() > 4 {
            vals[4]
        } else {
            0
        };
        let ss: u64 = if vals.len() > 5 {
            vals[5]
        } else {
            0
        };
        proof {
            assert(y == p[0] && m == p[1] && d == p[2] && hh == p[3] && mm == p[4] && ss == p[5]);
        }
        if !(1 <= y && y <= 9999 && 1 <= m && m <= 12) {
            return None;
        }
        let len = Format::month_len(y, m);
        if 1 <= d && d <= len && hh <= 23 && mm <= 59 && ss <= 59 {
            Some(Date { year: y as u32, month: m as u32, day: d as u32 })
        } else {
            None
        }
    }

    /// The number of days in the given month of the given year.
    pub fn month_len(year: u64, month: u64) -> (r: u64)
        requires
            1 <= month <= 12,
        ensures
            r == spec_month_len(year as nat, month as nat),
    {
        if month == 2 {
            if (year % 4 == 0 && year % 100 != 0) || year % 400 == 0 {
                29
            } else {
                28
            }
        } else if month == 4 || month == 6 || month == 9 || month == 11 {
            30
        } else {
            31
        }
    }
}

/// A calendar date as plain year, month and day numbers.
#[derive(PartialEq, Eq, Structural, Clone, Copy, Debug)]
pub struct Date {
    pub year: u32,
    pub month: u32,
    pub day: u32,
}

/// The dot-separated segments of a text, in order; segments may be
/// empty, and a text without dots is one segment.
pub open spec fn spec_split_dots(s: Seq<char>) -> Seq<Seq<char>>
    decreases s.len(),
{
    if s.len() == 0 {
        seq![Seq::<char>::empty()]
    } else if s.last() == '.' {
        spec_split_dots(s.drop_last()).push(Seq::<char>::empty())
    } else {
        let rest = spec_split_dots(s.drop_last());
        rest.update(rest.len() - 1, rest.last().push(s.last()))
    }
}

/// Is every segment a run of digits whose value fits 32 bits?
pub open spec fn spec_segs_numeric(segs: Seq<Seq<char>>) -> bool {
    forall|i: int|
        0 <= i < segs.len() ==> spec_is_digits(#[trigger] segs[i]) && spec_digits_val(segs[i])
            <= u32::MAX
}

/// The six numeric parts of a date: the given segments' values, the
/// missing ones their defaults (the first day of the first month, at
/// midnight).
pub open spec fn spec_date_parts(segs: Seq<Seq<char>>) -> Seq<nat> {
    Seq::new(
        6,
        |i: int|
            if i < segs.len() {
                spec_digits_val(segs[i])
            } else if i < 3 {
                1
            } else {
                0
            },
    )
}

/// Is `y` a leap year of the Gregorian calendar?
pub open spec fn spec_leap_year(y: nat) -> bool {
    (y % 4 == 0 && y % 100 != 0) || y % 400 == 0
}

/// The number of days in month `m` of year `y`.
pub open spec fn spec_month_len(y: nat, m: nat) -> nat {
    if m == 2 {
        if spec_leap_year(y) {
            29
        } else {
            28
        }
    } else if m == 4 || m == 6 || m == 9 || m == 11 {
        30
    } else {
        31
    }
}

/// Are the six parts a calendar day with a time of day in range?
pub open spec fn spec_date_ok(p: Seq<nat>) -> bool {
    1 <= p[0] <= 9999 && 1 <= p[1] <= 12 && 1 <= p[2] && p[2] <= spec_month_len(p[0], p[1]) && p[3]
        <= 23 && p[4] <= 59 && p[5] <= 59
}

/// What a date text reads as: the calendar day, when at most six
/// segments are given, all numeric, and the parts are in range.
pub open spec fn spec_string_to_date(s: Seq<char>) -> Option<Date> {
    let segs = spec_split_dots(s);
    let p = spec_date_parts(segs);
    if segs.len() <= 6 && spec_segs_numeric(segs) && spec_date_ok(p) {
        Some(Date { year: p[0] as u32, month: p[1] as u32, day: p[2] as u32 })
    } else {
        None
    }
}

} // verus!
