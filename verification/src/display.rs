//! Rendering of fixed-point prices. A window's average is carried in
//! milli-units and shown with exactly three fractional digits, e.g. `0.200`.

use vstd::prelude::*;

use crate::domain::{PriceWindow, AMOUNT_MICROS_LIMIT};

verus! {

/// The character for one decimal digit.
pub open spec fn digit_char(d: int) -> char {
    if d == 0 {
        '0'
    } else if d == 1 {
        '1'
    } else if d == 2 {
        '2'
    } else if d == 3 {
        '3'
    } else if d == 4 {
        '4'
    } else if d == 5 {
        '5'
    } else if d == 6 {
        '6'
    } else if d == 7 {
        '7'
    } else if d == 8 {
        '8'
    } else {
        '9'
    }
}

/// The decimal digits of a non-negative number, most significant first.
pub open spec fn dec_seq(n: int) -> Seq<char>
    decreases n,
{
    if n < 10 {
        seq![digit_char(n)]
    } else {
        dec_seq(n / 10) + seq![digit_char(n % 10)]
    }
}

/// How a price in milli-units is displayed: optional sign, the whole units,
/// a point, and exactly three fractional digits.
pub open spec fn price_display(milli: int) -> Seq<char> {
    let mag = if milli < 0 {
        -milli
    } else {
        milli
    };
    let sign: Seq<char> = if milli < 0 {
        seq!['-']
    } else {
        Seq::empty()
    };
    sign + dec_seq(mag / 1000) + seq!['.'] + seq![
        digit_char((mag / 100) % 10),
        digit_char((mag / 10) % 10),
        digit_char(mag % 10),
    ]
}

/// The one-character string for a decimal digit.
fn digit_str(d: u64) -> (s: &'static str)
    requires
        d < 10,
    ensures
        s@ == seq![digit_char(d as int)],
{
    proof {
        reveal_strlit("0");
        reveal_strlit("1");
        reveal_strlit("2");
        reveal_strlit("3");
        reveal_strlit("4");
        reveal_strlit("5");
        reveal_strlit("6");
        reveal_strlit("7");
        reveal_strlit("8");
        reveal_strlit("9");
    }
    match d {
        0 => "0",
        1 => "1",
        2 => "2",
        3 => "3",
        4 => "4",
        5 => "5",
        6 => "6",
        7 => "7",
        8 => "8",
        _ => "9",
    }
}

/// Append the decimal digits of `n` to `s`.
fn push_decimal(s: &mut String, n: u64)
    ensures
        final(s)@ == old(s)@ + dec_seq(n as int),
    decreases n,
{
    if n < 10 {
        s.append(digit_str(n));
    } else {
        push_decimal(s, n / 10);
        s.append(digit_str(n % 10));
        assert(final(s)@ =~= old(s)@ + dec_seq(n as int));
    }
}

/// Render a price in milli-units with three decimal places.
pub fn format_price_milli(milli: i64) -> (s: String)
    requires
        -AMOUNT_MICROS_LIMIT <= milli <= AMOUNT_MICROS_LIMIT,
    ensures
        s@ == price_display(milli as int),
{
    proof {
        reveal_strlit("-");
        reveal_strlit(".");
    }
    let mut s = String::new();
    if milli < 0 {
        s.append("-");
    }
    let mag: u64 = if milli < 0 {
        (-milli) as u64
    } else {
        milli as u64
    };
    push_decimal(&mut s, mag / 1000);
    s.append(".");
    s.append(digit_str((mag / 100) % 10));
    s.append(digit_str((mag / 10) % 10));
    s.append(digit_str(mag % 10));
    proof {
        assert(s@ =~= price_display(milli as int));
    }
    s
}

impl PriceWindow {
    /// The window's average price as text with three decimal places.
    pub fn average_price(&self) -> (s: String)
        requires
            -AMOUNT_MICROS_LIMIT <= self.average_milli <= AMOUNT_MICROS_LIMIT,
        ensures
            s@ == price_display(self.average_milli as int),
    {
        format_price_milli(self.average_milli)
    }
}

} // verus!
