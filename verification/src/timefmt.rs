//! Fixed-width decimal formatting for the elapsed-time display.

use vstd::prelude::*;
use vstd::string::*;

verus! {

/// The decimal digit character for `d`.
pub open spec fn digit_char(d: int) -> char {
    if d == 0 {
        '0'
    } else if d == 1 {
        '1'
    } else if d == 2 {
        '2'
    } else if d == 3 {
        '3'
    } else if d == 4 {
        '4'
    } else if d == 5 {
        '5'
    } else if d == 6 {
        '6'
    } else if d == 7 {
        '7'
    } else if d == 8 {
        '8'
    } else {
        '9'
    }
}

/// `t` rendered as exactly three digits, zero-padded on the left; values
/// past three digits saturate to "999" so the display never widens.
pub open spec fn spec_format_3(t: int) -> Seq<char> {
    if t < 10 {
        seq!['0', '0', digit_char(t)]
    } else if t < 100 {
        seq!['0', digit_char(t / 10), digit_char(t % 10)]
    } else if t < 1000 {
        seq![digit_char(t / 100), digit_char((t / 10) % 10), digit_char(t % 10)]
    } else {
        seq!['9', '9', '9']
    }
}

pub(crate) fn digit_str(d: u64) -> (s: &'static str)
    requires
        d < 10,
    ensures
        s@ =~= seq![digit_char(d as int)],
{
    proof {
        reveal_strlit("0");
        reveal_strlit("1");
        reveal_strlit("2");
        reveal_strlit("3");
        reveal_strlit("4");
        reveal_strlit("5");
        reveal_strlit("6");
        reveal_strlit("7");
        reveal_strlit("8");
        reveal_strlit("9");
    }
    if d == 0 {
        "0"
    } else if d == 1 {
        "1"
    } else if d == 2 {
        "2"
    } else if d == 3 {
        "3"
    } else if d == 4 {
        "4"
    } else if d == 5 {
        "5"
    } else if d == 6 {
        "6"
    } else if d == 7 {
        "7"
    } else if d == 8 {
        "8"
    } else {
        "9"
    }
}

/// Render a time value as exactly three characters.
pub fn format_time_3_digits(time: u64) -> (s: String)
    ensures
        s@ == spec_format_3(time as int),
{
    if time < 10 {
        proof {
            reveal_strlit("00");
        }
        let mut s = String::from_str("00");
        s.append(digit_str(time));
        proof {
            assert(s@ =~= spec_format_3(time as int));
        }
        s
    } else if time < 100 {
        proof {
            reveal_strlit("0");
        }
        let mut s = String::from_str("0");
        s.append(digit_str(time / 10));
        s.append(digit_str(time % 10));
        proof {
            assert(s@ =~= spec_format_3(time as int));
        }
        s
    } else if time < 1000 {
        let mut s = String::new();
        s.append(digit_str(time / 100));
        s.append(digit_str((time / 10) % 10));
        s.append(digit_str(time % 10));
        proof {
            assert(s@ =~= spec_format_3(time as int));
        }
        s
    } else {
        // Past three digits the display would widen; cap it.
        proof {
            reveal_strlit("999");
        }
        let s = String::from_str("999");
        proof {
            assert(s@ =~= spec_format_3(time as int));
        }
        s
    }
}

/// Render a time value as its two least significant display characters:
/// the three-character form with the leading character trimmed.
pub fn format_time_2_digits(time: u64) -> (s: String)
    ensures
        s@ == spec_format_3(time as int).subrange(1, 3),
{
    let s3 = format_time_3_digits(time);
    let sub = s3.as_str().substring_char(1, 3);
    String::from_str(sub)
}

} // verus!
