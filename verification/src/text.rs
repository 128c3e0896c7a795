//! Small text utilities: building strings a character at a time, comparing
//! string slices, and converting between decimal text and integers.
use vstd::prelude::*;

verus! {

/// Relies on `String::push` from std: appends one character at the end.
#[verifier::external_body]
pub fn push_char(s: &mut String, c: char)
    ensures
        final(s)@ == old(s)@.push(c),
{
    s.push(c);
}

/// Character-for-character equality of two string slices.
pub fn str_eq(a: &str, b: &str) -> (r: bool)
    ensures
        r == (a@ == b@),
{
    let an = a.unicode_len();
    let bn = b.unicode_len();
    if an != bn {
        proof {
            assert(a@ != b@);
        }
        return false;
    }
    let mut i: usize = 0;
    while i < an
        invariant
            an == a@.len(),
            bn == b@.len(),
            an == bn,
            i <= an,
            forall|j: int| 0 <= j < i ==> a@[j] == b@[j],
        decreases an - i,
    {
        if a.get_char(i) != b.get_char(i) {
            proof {
                assert(a@[i as int] != b@[i as int]);
            }
            return false;
        }
        i = i + 1;
    }
    proof {
        assert(a@ =~= b@);
    }
    true
}

/// The digit character for `d`, which must be below ten.
pub open spec fn spec_digit_char(d: nat) -> char {
    if d == 0 {
        '0'
    } else if d == 1 {
        '1'
    } else if d == 2 {
        '2'
    } else if d == 3 {
        '3'
    } else if d == 4 {
        '4'
    } else if d == 5 {
        '5'
    } else if d == 6 {
        '6'
    } else if d == 7 {
        '7'
    } else if d == 8 {
        '8'
    } else {
        '9'
    }
}

/// Decimal rendering of `n`, without sign or leading zeros.
pub open spec fn spec_dec(n: nat) -> Seq<char>
    decreases n,
{
    if n < 10 {
        seq![spec_digit_char(n)]
    } else {
        spec_dec(n / 10).push(spec_digit_char(n % 10))
    }
}

fn digit_char(d: u64) -> (r: char)
    requires
        d < 10,
    ensures
        r == spec_digit_char(d as nat),
{
    if d == 0 {
        '0'
    } else if d == 1 {
        '1'
    } else if d == 2 {
        '2'
    } else if d == 3 {
        '3'
    } else if d == 4 {
        '4'
    } else if d == 5 {
        '5'
    } else if d == 6 {
        '6'
    } else if d == 7 {
        '7'
    } else if d == 8 {
        '8'
    } else {
        '9'
    }
}

/// Renders `n` in decimal.
pub fn u64_to_string(n: u64) -> (r: String)
    ensures
        r@ == spec_dec(n as nat),
    decreases n,
{
    if n < 10 {
        let mut s = String::new();
        push_char(&mut s, digit_char(n));
        proof {
            assert(Seq::<char>::empty().push(spec_digit_char(n as nat)) =~= seq![
                spec_digit_char(n as nat),
            ]);
        }
        s
    } else {
        let mut s = u64_to_string(n / 10);
        push_char(&mut s, digit_char(n % 10));
        s
    }
}

/// Is `c` a decimal digit?
pub open spec fn spec_is_digit_char(c: char) -> bool {
    '0' <= c && c <= '9'
}

/// The numeric value of a digit character.
pub open spec fn spec_digit_val(c: char) -> nat {
    (c as nat - '0' as nat) as nat
}

/// A non-empty run of decimal digits.
pub open spec fn spec_is_digits(s: Seq<char>) -> bool {
    s.len() > 0 && forall|i: int| 0 <= i < s.len() ==> spec_is_digit_char(s[i])
}

/// The value of a digit run, most significant digit first.
pub open spec fn spec_digits_val(s: Seq<char>) -> nat
    decreases s.len(),
{
    if s.len() == 0 {
        0
    } else {
        spec_digits_val(s.drop_last()) * 10 + spec_digit_val(s.last())
    }
}

/// States of the little recognizer for decimal-fraction texts.
#[derive(PartialEq, Eq, Structural, Clone, Copy)]
pub enum FloatScan {
    /// Nothing read yet.
    Start,
    /// A leading minus sign read.
    SignSeen,
    /// Inside the integer digits.
    IntPart,
    /// Directly after the decimal point.
    FracStart,
    /// Inside the fraction digits.
    FracPart,
    /// The text cannot be a number.
    Reject,
}

/// One character of the decimal-fraction recognizer: an optional minus
/// sign, then digits, then optionally a point and more digits.
pub open spec fn spec_float_step(st: FloatScan, c: char) -> FloatScan {
    match st {
        FloatScan::Start => if c == '-' {
            FloatScan::SignSeen
        } else if spec_is_digit_char(c) {
            FloatScan::IntPart
        } else {
            FloatScan::Reject
        },
        FloatScan::SignSeen => if spec_is_digit_char(c) {
            FloatScan::IntPart
        } else {
            FloatScan::Reject
        },
        FloatScan::IntPart => if spec_is_digit_char(c) {
            FloatScan::IntPart
        } else if c == '.' {
            FloatScan::FracStart
        } else {
            FloatScan::Reject
        },
        FloatScan::FracStart => if spec_is_digit_char(c) {
            FloatScan::FracPart
        } else {
            FloatScan::Reject
        },
        FloatScan::FracPart => if spec_is_digit_char(c) {
            FloatScan::FracPart
        } else {
            FloatScan::Reject
        },
        FloatScan::Reject => FloatScan::Reject,
    }
}

/// The recognizer state after reading all of `s`.
pub open spec fn spec_float_scan(st: FloatScan, s: Seq<char>) -> FloatScan
    decreases s.len(),
{
    if s.len() == 0 {
        st
    } else {
        spec_float_scan(spec_float_step(st, s[0]), s.drop_first())
    }
}

/// Is `s` a decimal number, optionally signed and with a fraction part?
pub open spec fn spec_is_float_text(s: Seq<char>) -> bool {
    spec_float_scan(FloatScan::Start, s) == FloatScan::IntPart || spec_float_scan(
        FloatScan::Start,
        s,
    ) == FloatScan::FracPart
}

proof fn lemma_float_scan_snoc(st: FloatScan, s: Seq<char>, c: char)
    ensures
        spec_float_scan(st, s.push(c)) == spec_float_step(spec_float_scan(st, s), c),
    decreases s.len(),
{
    if s.len() == 0 {
        let t = s.push(c);
        assert(t[0] == c);
        assert(t.drop_first() =~= Seq::<char>::empty());
        assert(spec_float_scan(st, t) == spec_float_scan(
            spec_float_step(st, c),
            Seq::<char>::empty(),
        ));
        assert(spec_float_scan(spec_float_step(st, c), Seq::<char>::empty()) == spec_float_step(
            st,
            c,
        ));
        assert(spec_float_scan(st, s) == st);
    } else {
        assert(s.push(c)[0] == s[0]);
        assert(s.push(c).drop_first() =~= s.drop_first().push(c));
        lemma_float_scan_snoc(spec_float_step(st, s[0]), s.drop_first(), c);
    }
}

fn float_step(st: FloatScan, c: char) -> (r: FloatScan)
    ensures
        r == spec_float_step(st, c),
{
    match st {
        FloatScan::Start => if c == '-' {
            FloatScan::SignSeen
        } else if c >= '0' && c <= '9' {
            FloatScan::IntPart
        } else {
            FloatScan::Reject
        },
        FloatScan::SignSeen => if c >= '0' && c <= '9' {
            FloatScan::IntPart
        } else {
            FloatScan::Reject
        },
        FloatScan::IntPart => if c >= '0' && c <= '9' {
            FloatScan::IntPart
        } else if c == '.' {
            FloatScan::FracStart
        } else {
            FloatScan::Reject
        },
        FloatScan::FracStart => if c >= '0' && c <= '9' {
            FloatScan::FracPart
        } else {
            FloatScan::Reject
        },
        FloatScan::FracPart => if c >= '0' && c <= '9' {
            FloatScan::FracPart
        } else {
            FloatScan::Reject
        },
        FloatScan::Reject => FloatScan::Reject,
    }
}

/// Does `s` spell a decimal number (an optional minus sign, digits, and
/// optionally a point followed by more digits)?
pub fn is_float_text(s: &str) -> (r: bool)
    ensures
        r == spec_is_float_text(s@),
{
    let n = s.unicode_len();
    let mut st = FloatScan::Start;
    let mut i: usize = 0;
    while i < n
        invariant
            n == s@.len(),
            i <= n,
            st == spec_float_scan(FloatScan::Start, s@.take(i as int)),
        decreases n - i,
    {
        st = float_step(st, s.get_char(i));
        proof {
            assert(s@.take(i + 1 as int) =~= s@.take(i as int).push(s@[i as int]));
            lemma_float_scan_snoc(FloatScan::Start, s@.take(i as int), s@[i as int]);
        }
        i = i + 1;
    }
    proof {
        assert(s@.take(n as int) =~= s@);
    }
    st == FloatScan::IntPart || st == FloatScan::FracPart
}

/// What a decimal text parses to.
#[derive(PartialEq, Eq, Structural, Clone, Copy, Debug)]
pub enum ParsedUInt {
    /// Not a non-empty run of digits.
    NotNumber,
    /// A digit run whose value exceeds `u64::MAX`.
    TooBig,
    /// The value of the digit run.
    Val(u64),
}

/// The parse of `s` as an unsigned decimal number.
pub open spec fn spec_parse_u64(s: Seq<char>) -> ParsedUInt {
    if !spec_is_digits(s) {
        ParsedUInt::NotNumber
    } else if spec_digits_val(s) > u64::MAX {
        ParsedUInt::TooBig
    } else {
        ParsedUInt::Val(spec_digits_val(s) as u64)
    }
}

/// Parses `s` as an unsigned decimal number, reporting overflow separately
/// from a malformed number.
pub fn parse_u64(s: &str) -> (r: ParsedUInt)
    ensures
        r == spec_parse_u64(s@),
{
    let n = s.unicode_len();
    if n == 0 {
        return ParsedUInt::NotNumber;
    }
    let mut acc: u64 = 0;
    let mut too_big = false;
    let mut i: usize = 0;
    while i < n
        invariant
            n == s@.len(),
            0 < n,
            i <= n,
            forall|j: int| 0 <= j < i ==> spec_is_digit_char(s@[j]),
            !too_big ==> acc == spec_digits_val(s@.take(i as int)),
            too_big ==> spec_digits_val(s@.take(i as int)) > u64::MAX,
        decreases n - i,
    {
        let c = s.get_char(i);
        if !(c >= '0' && c <= '9') {
            proof {
                assert(!spec_is_digit_char(s@[i as int]));
            }
            return ParsedUInt::NotNumber;
        }
        let d: u64 = (c as u32 as u64) - 48;
        proof {
            assert(d == spec_digit_val(s@[i as int]));
            assert(s@.take(i + 1 as int).drop_last() =~= s@.take(i as int));
            assert(s@.take(i + 1 as int).last() == s@[i as int]);
        }
        if too_big {
            proof {
                let prev = spec_digits_val(s@.take(i as int));
                assert(prev * 10 >= prev) by (nonlinear_arith)
                    requires
                        prev >= 0,
                ;
            }
        } else if acc > (u64::MAX - d) / 10 {
            proof {
                let prev = spec_digits_val(s@.take(i as int));
                assert(prev * 10 + d > u64::MAX) by (nonlinear_arith)
                    requires
                        prev == acc,
                        d < 10,
                        acc > (u64::MAX - d) / 10,
                ;
            }
            too_big = true;
        } else {
            proof {
                let prev = spec_digits_val(s@.take(i as int));
                assert(prev * 10 + d <= u64::MAX) by (nonlinear_arith)
                    requires
                        prev == acc,
                        d < 10,
                        acc <= (u64::MAX - d) / 10,
                ;
            }
            acc = acc * 10 + d;
        }
        i = i + 1;
    }
    proof {
        assert(s@.take(n as int) =~= s@);
    }
    if too_big {
        ParsedUInt::TooBig
    } else {
        ParsedUInt::Val(acc)
    }
}

} // verus!
