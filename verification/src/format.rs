//! Human-readable display of byte counts and durations.

use vstd::prelude::*;
use vstd::arithmetic::div_mod::lemma_multiply_divide_lt;
use crate::digits::{append_dec, append_padded2, dec_rep, digit_char, digit_str, padded2};

verus! {

/// The largest binary unit that `bytes` reaches: 0 for bytes, 1 for
/// kilobytes, and so on, capped at 4 for terabytes.
pub open spec fn unit_index_spec(bytes: int) -> int {
    if bytes < 1024 {
        0
    } else if bytes < 1024 * 1024 {
        1
    } else if bytes < 1024 * 1024 * 1024 {
        2
    } else if bytes < 1024 * 1024 * 1024 * 1024 {
        3
    } else {
        4
    }
}

/// How many bytes one step of unit `k` holds.
pub open spec fn unit_divisor_spec(k: int) -> int {
    if k == 0 {
        1
    } else if k == 1 {
        1024
    } else if k == 2 {
        (1024 * 1024) as int
    } else if k == 3 {
        (1024 * 1024 * 1024) as int
    } else {
        (1024 * 1024 * 1024 * 1024) as int
    }
}

/// The name of unit `k`.
pub open spec fn unit_name_spec(k: int) -> Seq<char> {
    if k == 0 {
        seq!['B']
    } else if k == 1 {
        seq!['K', 'B']
    } else if k == 2 {
        seq!['M', 'B']
    } else if k == 3 {
        seq!['G', 'B']
    } else {
        seq!['T', 'B']
    }
}

/// `n / d`, rounded to the nearest whole number; a tie goes to the even
/// neighbour.
pub open spec fn round_half_even(n: int, d: int) -> int
    recommends
        n >= 0,
        d > 0,
{
    let q = n / d;
    let r = n % d;
    if 2 * r > d || (2 * r == d && q % 2 == 1) {
        q + 1
    } else {
        q
    }
}

/// The value that `format_bytes` displays, in hundredths of the chosen
/// unit.
pub open spec fn hundredths_spec(bytes: int) -> int {
    round_half_even(bytes * 100, unit_divisor_spec(unit_index_spec(bytes)))
}

/// The text that `format_bytes` renders: the value in the largest unit it
/// reaches, with exactly two decimal places, a space, and the unit name.
pub open spec fn format_bytes_spec(bytes: int) -> Seq<char> {
    let h = hundredths_spec(bytes);
    dec_rep(h / 100) + seq!['.', digit_char((h / 10) % 10), digit_char(h % 10), ' ']
        + unit_name_spec(unit_index_spec(bytes))
}

/// The name of unit `k` as a string.
fn unit_str(k: u64) -> (r: &'static str)
    requires
        k <= 4,
    ensures
        r@ == unit_name_spec(k as int),
{
    if k == 0 {
        proof {
            reveal_strlit("B");
            assert("B"@ =~= unit_name_spec(0));
        }
        "B"
    } else if k == 1 {
        proof {
            reveal_strlit("KB");
            assert("KB"@ =~= unit_name_spec(1));
        }
        "KB"
    } else if k == 2 {
        proof {
            reveal_strlit("MB");
            assert("MB"@ =~= unit_name_spec(2));
        }
        "MB"
    } else if k == 3 {
        proof {
            reveal_strlit("GB");
            assert("GB"@ =~= unit_name_spec(3));
        }
        "GB"
    } else {
        proof {
            reveal_strlit("TB");
            assert("TB"@ =~= unit_name_spec(4));
        }
        "TB"
    }
}

/// Formats a byte count in the largest binary unit it reaches, out of
/// `B`, `KB`, `MB`, `GB` and `TB`, with exactly two decimal places.
pub fn format_bytes(bytes: u64) -> (r: String)
    ensures
        r@ == format_bytes_spec(bytes as int),
{
    let k: u64 = if bytes < 1024 {
        0
    } else if bytes < 1024 * 1024 {
        1
    } else if bytes < 1024 * 1024 * 1024 {
        2
    } else if bytes < 1024 * 1024 * 1024 * 1024 {
        3
    } else {
        4
    };
    let d: u128 = if k == 0 {
        1
    } else if k == 1 {
        1024
    } else if k == 2 {
        1024 * 1024
    } else if k == 3 {
        1024 * 1024 * 1024
    } else {
        1024 * 1024 * 1024 * 1024
    };
    let n: u128 = (bytes as u128) * 100;
    let q: u128 = n / d;
    let rem: u128 = n % d;
    let rounded: u128 = if 2 * rem > d || (2 * rem == d && q % 2 == 1) {
        q + 1
    } else {
        q
    };
    proof {
        assert(k as int == unit_index_spec(bytes as int));
        assert(d as int == unit_divisor_spec(k as int));
        if k == 4 {
            lemma_multiply_divide_lt(n as int, d as int, (100 * 0x1000000) as int);
        } else {
            lemma_multiply_divide_lt(n as int, d as int, 102400);
        }
        assert(rounded as int == hundredths_spec(bytes as int));
        assert(rounded <= u64::MAX);
    }
    let h: u64 = rounded as u64;
    let mut s = String::new();
    append_dec(&mut s, h / 100);
    s.append(".");
    s.append(digit_str((h / 10) % 10));
    s.append(digit_str(h % 10));
    s.append(" ");
    s.append(unit_str(k));
    proof {
        reveal_strlit(".");
        reveal_strlit(" ");
        assert("."@ =~= seq!['.']);
        assert(" "@ =~= seq![' ']);
        assert(s@ =~= format_bytes_spec(bytes as int));
    }
    s
}

/// The text that `format_duration` renders: hours, minutes and seconds,
/// each two digits wide, with the hours omitted when they are zero.
pub open spec fn format_duration_spec(s: int) -> Seq<char> {
    let h = s / 3600;
    let m = (s % 3600) / 60;
    let sec = s % 60;
    if h > 0 {
        padded2(h) + seq![':'] + padded2(m) + seq![':'] + padded2(sec)
    } else {
        padded2(m) + seq![':'] + padded2(sec)
    }
}

/// Formats a duration of whole seconds as `MM:SS`, or `HH:MM:SS` once it
/// reaches an hour.
pub fn format_duration(seconds: u64) -> (r: String)
    ensures
        r@ == format_duration_spec(seconds as int),
{
    let hours = seconds / 3600;
    let minutes = (seconds % 3600) / 60;
    let secs = seconds % 60;
    let mut s = String::new();
    if hours > 0 {
        append_padded2(&mut s, hours);
        s.append(":");
    }
    append_padded2(&mut s, minutes);
    s.append(":");
    append_padded2(&mut s, secs);
    proof {
        reveal_strlit(":");
        assert(":"@ =~= seq![':']);
        assert(s@ =~= format_duration_spec(seconds as int));
    }
    s
}

} // verus!
