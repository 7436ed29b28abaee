use vstd::prelude::*;

use crate::text::{dec_digits, dec_digits_pad2, digit_str, u64_string, u64_string_pad2};

verus! {

/// A decimal digit.
pub open spec fn is_digit(c: char) -> bool {
    '0' <= c && c <= '9'
}

/// Every character of `s` is a decimal digit.
pub open spec fn all_digits(s: Seq<char>) -> bool {
    forall|i: int| 0 <= i < s.len() ==> is_digit(#[trigger] s[i])
}

/// Mathematical model of a non-negative decimal number: its whole part and
/// the digits after the point, exactly as written.
pub struct DecimalView {
    pub int_part: u64,
    pub frac: Seq<char>,
}

impl DecimalView {
    /// The fraction holds digits only.
    pub open spec fn wf(self) -> bool {
        all_digits(self.frac)
    }
}

/// A non-negative decimal number as the progress protocol carries it:
/// the whole part, and the written digits after the point. The protocol's
/// byte counts, speeds and times arrive in this form; keeping the digits
/// keeps the value exact.
#[derive(Debug, Clone, PartialEq, Eq)]
pub struct Decimal {
    pub int_part: u64,
    pub frac: String,
}

impl View for Decimal {
    type V = DecimalView;

    open spec fn view(&self) -> DecimalView {
        DecimalView { int_part: self.int_part, frac: self.frac@ }
    }
}

impl Decimal {
    /// A decimal number from its whole part and its written fraction digits.
    pub fn new(int_part: u64, frac: &str) -> (r: Decimal)
        ensures
            r@ == (DecimalView { int_part, frac: frac@ }),
    {
        Decimal { int_part, frac: frac.to_owned() }
    }

    /// A whole number.
    pub fn whole(int_part: u64) -> (r: Decimal)
        ensures
            r@ == (DecimalView { int_part, frac: Seq::<char>::empty() }),
    {
        proof {
            reveal_strlit("");
            assert(""@ =~= Seq::<char>::empty());
        }
        Decimal { int_part, frac: "".to_owned() }
    }

    /// The value truncated toward zero to a whole number: exactly the
    /// written whole part, never rounded up.
    pub fn trunc(&self) -> (r: u64)
        ensures
            r == self@.int_part,
    {
        self.int_part
    }
}

/// Download percentage in hundredths of a percent, clamped to 100%:
/// `min(downloaded * 10000 / total, 10000)`; `None` when `total` is zero,
/// since no meaningful ratio exists then.
pub open spec fn spec_percent_hundredths(downloaded: int, total: int) -> Option<int> {
    if total == 0 {
        None
    } else if downloaded * 10000 / total > 10000 {
        Some(10000int)
    } else {
        Some(downloaded * 10000 / total)
    }
}

/// Computes the clamped download percentage in hundredths of a percent.
pub fn percent_hundredths(downloaded: u64, total: u64) -> (r: Option<u64>)
    ensures
        match r {
            Some(v) => spec_percent_hundredths(downloaded as int, total as int) == Some(v as int),
            None => spec_percent_hundredths(downloaded as int, total as int) is None,
        },
{
    if total == 0 {
        None
    } else {
        let wide: u128 = (downloaded as u128) * 10000 / (total as u128);
        if wide > 10000 {
            Some(10000u64)
        } else {
            Some(wide as u64)
        }
    }
}

/// A count of hundredths written as a two-decimal number: "x.yy".
pub open spec fn spec_hundredths_string(h: int) -> Seq<char> {
    dec_digits(h / 100) + seq!['.'] + dec_digits_pad2(h % 100)
}

/// Writes a count of hundredths as a two-decimal number, as the progress
/// message shows megabyte amounts.
pub fn hundredths_string(h: u64) -> (r: String)
    ensures
        r@ == spec_hundredths_string(h as int),
{
    let mut s = u64_string(h / 100);
    s.append(".");
    s.append(u64_string_pad2(h % 100).as_str());
    proof {
        reveal_strlit(".");
        assert(s@ =~= spec_hundredths_string(h as int));
    }
    s
}

/// Whole seconds written as "mm:ss", each side at least two digits.
pub open spec fn spec_clock_string(secs: int) -> Seq<char> {
    dec_digits_pad2(secs / 60) + seq![':'] + dec_digits_pad2(secs % 60)
}

/// Writes whole seconds as "mm:ss": minutes, a colon, leftover seconds.
pub fn clock_string(secs: u64) -> (r: String)
    ensures
        r@ == spec_clock_string(secs as int),
{
    let mut s = u64_string_pad2(secs / 60);
    s.append(":");
    s.append(u64_string_pad2(secs % 60).as_str());
    proof {
        reveal_strlit(":");
        assert(s@ =~= spec_clock_string(secs as int));
    }
    s
}

/// Bytes converted to hundredths of a mebibyte, truncated.
pub open spec fn spec_mb_hundredths(bytes: int) -> int {
    bytes * 100 / 0x100000
}

/// Converts a byte count to hundredths of a mebibyte.
pub fn mb_hundredths(bytes: u64) -> (r: u64)
    ensures
        r == spec_mb_hundredths(bytes as int),
{
    let wide: u128 = (bytes as u128) * 100 / 0x100000;
    proof {
        assert(wide <= u64::MAX) by {
            assert((bytes as int) * 100 <= (u64::MAX as int) * 100) by (nonlinear_arith)
                requires
                    bytes <= u64::MAX,
            ;
        }
    }
    wide as u64
}

} // verus!
