//! Decimal text rendering: digits, unsigned numbers, and the `MM:SS`
//! countdown text shown beside the timer.

use vstd::prelude::*;

verus! {

pub open spec fn char_of_digit(n: int) -> char {
    if n == 0 {
        '0'
    } else if n == 1 {
        '1'
    } else if n == 2 {
        '2'
    } else if n == 3 {
        '3'
    } else if n == 4 {
        '4'
    } else if n == 5 {
        '5'
    } else if n == 6 {
        '6'
    } else if n == 7 {
        '7'
    } else if n == 8 {
        '8'
    } else {
        '9'
    }
}

/// Decimal rendering of a nonnegative number, most significant digit first.
pub open spec fn spec_dec(n: int) -> Seq<char>
    decreases n,
{
    if n < 10 {
        seq![char_of_digit(n)]
    } else {
        spec_dec(n / 10).push(char_of_digit(n % 10))
    }
}

/// Decimal rendering padded with `'0'` to at least two digits.
pub open spec fn spec_two_digits(n: int) -> Seq<char> {
    if n < 10 {
        seq!['0'].add(spec_dec(n))
    } else {
        spec_dec(n)
    }
}

/// `MM:SS` form of a whole-second countdown; minutes keep all their digits
/// when they need more than two.
pub open spec fn spec_format_time(seconds: int) -> Seq<char> {
    spec_two_digits(seconds / 60).add(seq![':']).add(spec_two_digits(seconds % 60))
}

pub(crate) fn digit_str(n: u32) -> (s: &'static str)
    requires
        n < 10,
    ensures
        s@ == seq![char_of_digit(n as int)],
{
    proof {
        reveal_strlit("0");
        reveal_strlit("1");
        reveal_strlit("2");
        reveal_strlit("3");
        reveal_strlit("4");
        reveal_strlit("5");
        reveal_strlit("6");
        reveal_strlit("7");
        reveal_strlit("8");
        reveal_strlit("9");
    }
    let s = match n {
        0 => "0",
        1 => "1",
        2 => "2",
        3 => "3",
        4 => "4",
        5 => "5",
        6 => "6",
        7 => "7",
        8 => "8",
        _ => "9",
    };
    proof {
        assert(s@ =~= seq![char_of_digit(n as int)]);
    }
    s
}

/// Appends the decimal rendering of `n` to `out`.
pub fn push_u64(out: &mut String, n: u64)
    ensures
        final(out)@ == old(out)@ + spec_dec(n as int),
    decreases n,
{
    if n < 10 {
        out.append(digit_str(n as u32));
    } else {
        push_u64(out, n / 10);
        out.append(digit_str((n % 10) as u32));
    }
}

/// Countdown text for a remaining-seconds value, as `MM:SS`.
pub fn format_time(seconds: u64) -> (s: String)
    ensures
        s@ == spec_format_time(seconds as int),
{
    proof {
        reveal_strlit("0");
        reveal_strlit(":");
    }
    let mut out = String::new();
    let minutes = seconds / 60;
    let secs = seconds % 60;
    if minutes < 10 {
        out.append("0");
    }
    push_u64(&mut out, minutes);
    out.append(":");
    if secs < 10 {
        out.append("0");
    }
    push_u64(&mut out, secs);
    proof {
        assert(out@ =~= spec_format_time(seconds as int));
    }
    out
}

} // verus!
