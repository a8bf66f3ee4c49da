//! Decimal rendering of unsigned integers, used by the part-naming
//! convention and by the display utilities.

use vstd::prelude::*;

verus! {

/// The character standing for one decimal digit value.
pub open spec fn digit_char(d: int) -> char
    recommends
        0 <= d < 10,
{
    if d == 0 {
        '0'
    } else if d == 1 {
        '1'
    } else if d == 2 {
        '2'
    } else if d == 3 {
        '3'
    } else if d == 4 {
        '4'
    } else if d == 5 {
        '5'
    } else if d == 6 {
        '6'
    } else if d == 7 {
        '7'
    } else if d == 8 {
        '8'
    } else {
        '9'
    }
}

/// The decimal rendering of `n`, most significant digit first, with no
/// leading zeros (a single `'0'` for zero itself).
pub open spec fn dec_rep(n: int) -> Seq<char>
    recommends
        n >= 0,
    decreases n,
{
    if n < 10 {
        seq![digit_char(n)]
    } else {
        dec_rep(n / 10).push(digit_char(n % 10))
    }
}

/// The rendering of a part index: the decimal digits of `n`, left-padded
/// with zeros to a width of at least three.
pub open spec fn padded3(n: int) -> Seq<char>
    recommends
        n >= 0,
{
    if n < 10 {
        seq!['0', '0'] + dec_rep(n)
    } else if n < 100 {
        seq!['0'] + dec_rep(n)
    } else {
        dec_rep(n)
    }
}

/// The decimal digits of `n`, left-padded with zeros to a width of at
/// least two.
pub open spec fn padded2(n: int) -> Seq<char>
    recommends
        n >= 0,
{
    if n < 10 {
        seq!['0'] + dec_rep(n)
    } else {
        dec_rep(n)
    }
}

/// The numeric value of one digit character; characters that are no digit
/// count as zero.
pub open spec fn digit_val(c: char) -> int {
    if c == '0' {
        0
    } else if c == '1' {
        1
    } else if c == '2' {
        2
    } else if c == '3' {
        3
    } else if c == '4' {
        4
    } else if c == '5' {
        5
    } else if c == '6' {
        6
    } else if c == '7' {
        7
    } else if c == '8' {
        8
    } else if c == '9' {
        9
    } else {
        0
    }
}

/// The numeric value of a digit sequence read as a decimal number.
pub open spec fn digits_val(s: Seq<char>) -> int
    decreases s.len(),
{
    if s.len() == 0 {
        0
    } else {
        digits_val(s.drop_last()) * 10 + digit_val(s.last())
    }
}

/// Reading the decimal rendering of `n` back as a number yields `n`.
pub proof fn lemma_digits_val_dec_rep(n: int)
    requires
        n >= 0,
    ensures
        digits_val(dec_rep(n)) == n,
    decreases n,
{
    if n < 10 {
        let s = dec_rep(n);
        assert(s.drop_last() =~= Seq::<char>::empty());
        assert(digits_val(Seq::<char>::empty()) == 0);
        assert(digit_val(digit_char(n)) == n);
    } else {
        lemma_digits_val_dec_rep(n / 10);
        let s = dec_rep(n);
        assert(s.drop_last() =~= dec_rep(n / 10));
        assert(digit_val(digit_char(n % 10)) == n % 10);
    }
}

/// A leading zero does not change the value of a digit sequence.
pub proof fn lemma_digits_val_leading_zero(s: Seq<char>)
    ensures
        digits_val(seq!['0'] + s) == digits_val(s),
    decreases s.len(),
{
    if s.len() == 0 {
        assert((seq!['0'] + s) =~= seq!['0']);
        assert(seq!['0'].drop_last() =~= Seq::<char>::empty());
        assert(digits_val(Seq::<char>::empty()) == 0);
        assert(digits_val(seq!['0']) == 0);
    } else {
        lemma_digits_val_leading_zero(s.drop_last());
        assert((seq!['0'] + s).drop_last() =~= seq!['0'] + s.drop_last());
        assert((seq!['0'] + s).last() == s.last());
    }
}

/// Reading the padded rendering of `n` back as a number yields `n`.
pub proof fn lemma_digits_val_padded3(n: int)
    requires
        n >= 0,
    ensures
        digits_val(padded3(n)) == n,
{
    lemma_digits_val_dec_rep(n);
    if n < 10 {
        lemma_digits_val_leading_zero(dec_rep(n));
        lemma_digits_val_leading_zero(seq!['0'] + dec_rep(n));
        assert(padded3(n) =~= seq!['0'] + (seq!['0'] + dec_rep(n)));
    } else if n < 100 {
        lemma_digits_val_leading_zero(dec_rep(n));
    }
}

/// The padded renderings of two part indices coincide only for one and the
/// same index.
pub proof fn lemma_padded3_injective(i: int, j: int)
    requires
        i >= 0,
        j >= 0,
        padded3(i) == padded3(j),
    ensures
        i == j,
{
    lemma_digits_val_padded3(i);
    lemma_digits_val_padded3(j);
}

/// The one-character string for a decimal digit value.
pub fn digit_str(d: u64) -> (r: &'static str)
    requires
        d < 10,
    ensures
        r@ == seq![digit_char(d as int)],
{
    if d == 0 {
        proof {
            reveal_strlit("0");
            assert("0"@ =~= seq![digit_char(d as int)]);
        }
        "0"
    } else if d == 1 {
        proof {
            reveal_strlit("1");
            assert("1"@ =~= seq![digit_char(d as int)]);
        }
        "1"
    } else if d == 2 {
        proof {
            reveal_strlit("2");
            assert("2"@ =~= seq![digit_char(d as int)]);
        }
        "2"
    } else if d == 3 {
        proof {
            reveal_strlit("3");
            assert("3"@ =~= seq![digit_char(d as int)]);
        }
        "3"
    } else if d == 4 {
        proof {
            reveal_strlit("4");
            assert("4"@ =~= seq![digit_char(d as int)]);
        }
        "4"
    } else if d == 5 {
        proof {
            reveal_strlit("5");
            assert("5"@ =~= seq![digit_char(d as int)]);
        }
        "5"
    } else if d == 6 {
        proof {
            reveal_strlit("6");
            assert("6"@ =~= seq![digit_char(d as int)]);
        }
        "6"
    } else if d == 7 {
        proof {
            reveal_strlit("7");
            assert("7"@ =~= seq![digit_char(d as int)]);
        }
        "7"
    } else if d == 8 {
        proof {
            reveal_strlit("8");
            assert("8"@ =~= seq![digit_char(d as int)]);
        }
        "8"
    } else {
        proof {
            reveal_strlit("9");
            assert("9"@ =~= seq![digit_char(d as int)]);
        }
        "9"
    }
}

/// Appends the decimal rendering of `n` to `s`.
pub fn append_dec(s: &mut String, n: u64)
    ensures
        final(s)@ == old(s)@ + dec_rep(n as int),
    decreases n,
{
    if n < 10 {
        s.append(digit_str(n));
    } else {
        let ghost prefix = s@;
        append_dec(s, n / 10);
        s.append(digit_str(n % 10));
        proof {
            assert(s@ =~= prefix + dec_rep(n as int));
        }
    }
}

/// Appends the rendering of `n`, zero-padded to width two, to `s`.
pub fn append_padded2(s: &mut String, n: u64)
    ensures
        final(s)@ == old(s)@ + padded2(n as int),
{
    let ghost prefix = s@;
    if n < 10 {
        s.append("0");
        append_dec(s, n);
        proof {
            reveal_strlit("0");
            assert("0"@ =~= seq!['0']);
            assert(s@ =~= prefix + padded2(n as int));
        }
    } else {
        append_dec(s, n);
    }
}

/// Appends the zero-padded rendering of a part index to `s`.
pub fn append_padded3(s: &mut String, n: u64)
    ensures
        final(s)@ == old(s)@ + padded3(n as int),
{
    let ghost prefix = s@;
    if n < 10 {
        s.append("00");
        append_dec(s, n);
        proof {
            reveal_strlit("00");
            assert("00"@ =~= seq!['0', '0']);
            assert(s@ =~= prefix + padded3(n as int));
        }
    } else if n < 100 {
        s.append("0");
        append_dec(s, n);
        proof {
            reveal_strlit("0");
            assert("0"@ =~= seq!['0']);
            assert(s@ =~= prefix + padded3(n as int));
        }
    } else {
        append_dec(s, n);
    }
}

} // verus!
