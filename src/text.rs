//! Decimal rendering and the fixed pieces of the bot's replies.

use vstd::prelude::*;
use vstd::string::StringExecFns;

verus! {

/// Emoticons that end the bot's replies.
pub struct Kaomoji;

impl Kaomoji {
    pub const CONFUSED: &'static str = "\u{256e}(\u{30fb}_\u{30fb})\u{256d}";
    pub const EXCITED: &'static str = "(\u{2267}\u{25e1}\u{2266})";
    pub const HAPPY: &'static str = "(^\u{25bd}^)/";
    pub const FRUSTRATED: &'static str = "\u{ff61}\u{ff9f}\u{ff65} (>\u{fe4f}<) \u{ff65}\u{ff9f}\u{ff61}";
    pub const SAD: &'static str = "(\u{f3}\u{fe4f}\u{f2}\u{ff61})";
    pub const SHOCKED: &'static str = "\u{ff3c}(\u{3007}\u{ff4f})\u{ff0f}";
    pub const WINK: &'static str = "(^_<)\u{301c}\u{2606}";
}

pub open spec fn digit_char(d: nat) -> char {
    if d == 0 {
        '0'
    } else if d == 1 {
        '1'
    } else if d == 2 {
        '2'
    } else if d == 3 {
        '3'
    } else if d == 4 {
        '4'
    } else if d == 5 {
        '5'
    } else if d == 6 {
        '6'
    } else if d == 7 {
        '7'
    } else if d == 8 {
        '8'
    } else {
        '9'
    }
}

/// The decimal digits of `n`, most significant first, without leading zeros.
pub open spec fn decimal(n: nat) -> Seq<char>
    decreases n,
{
    if n < 10 {
        seq![digit_char(n)]
    } else {
        decimal(n / 10).push(digit_char(n % 10))
    }
}

/// `n` in decimal, with a leading `-` when negative.
pub open spec fn signed_decimal(n: int) -> Seq<char> {
    if n < 0 {
        seq!['-'] + decimal((-n) as nat)
    } else {
        decimal(n as nat)
    }
}

fn digit_str(d: u64) -> (r: &'static str)
    requires
        d < 10,
    ensures
        r@ == seq![digit_char(d as nat)],
{
    if d == 0 {
        proof {
            reveal_strlit("0");
        }
        "0"
    } else if d == 1 {
        proof {
            reveal_strlit("1");
        }
        "1"
    } else if d == 2 {
        proof {
            reveal_strlit("2");
        }
        "2"
    } else if d == 3 {
        proof {
            reveal_strlit("3");
        }
        "3"
    } else if d == 4 {
        proof {
            reveal_strlit("4");
        }
        "4"
    } else if d == 5 {
        proof {
            reveal_strlit("5");
        }
        "5"
    } else if d == 6 {
        proof {
            reveal_strlit("6");
        }
        "6"
    } else if d == 7 {
        proof {
            reveal_strlit("7");
        }
        "7"
    } else if d == 8 {
        proof {
            reveal_strlit("8");
        }
        "8"
    } else {
        proof {
            reveal_strlit("9");
        }
        "9"
    }
}

/// `n` written in decimal.
pub fn decimal_string(n: u64) -> (r: String)
    ensures
        r@ == decimal(n as nat),
    decreases n,
{
    if n < 10 {
        String::from_str(digit_str(n))
    } else {
        let mut s = decimal_string(n / 10);
        s.append(digit_str(n % 10));
        s
    }
}

/// `n` written in decimal, with a leading `-` when negative.
pub fn signed_decimal_string(n: i64) -> (r: String)
    ensures
        r@ == signed_decimal(n as int),
{
    if n < 0 {
        let magnitude: u64 = (-(n as i128)) as u64;
        let mut s = String::from_str("-");
        proof {
            reveal_strlit("-");
        }
        s.append(decimal_string(magnitude).as_str());
        s
    } else {
        decimal_string(n as u64)
    }
}

/// How many times a GIF has been sent, in words.
pub open spec fn times_phrase(n: int) -> Seq<char> {
    if n == 1 {
        "once"@
    } else if n == 2 {
        "twice"@
    } else {
        signed_decimal(n) + " times"@
    }
}

/// "once", "twice", or "`n` times".
pub fn times_text(n: i64) -> (r: String)
    ensures
        r@ == times_phrase(n as int),
{
    if n == 1 {
        String::from_str("once")
    } else if n == 2 {
        String::from_str("twice")
    } else {
        let mut s = signed_decimal_string(n);
        s.append(" times");
        s
    }
}

} // verus!
