use vstd::prelude::*;

verus! {

/// The character for one decimal digit.
pub open spec fn digit_char(d: int) -> char {
    if d == 0 {
        '0'
    } else if d == 1 {
        '1'
    } else if d == 2 {
        '2'
    } else if d == 3 {
        '3'
    } else if d == 4 {
        '4'
    } else if d == 5 {
        '5'
    } else if d == 6 {
        '6'
    } else if d == 7 {
        '7'
    } else if d == 8 {
        '8'
    } else {
        '9'
    }
}

/// The decimal digits of `n`, most significant first, no leading zeros
/// (a single `0` for zero).
pub open spec fn dec_digits(n: nat) -> Seq<char>
    decreases n,
{
    if n < 10 {
        seq![digit_char(n as int)]
    } else {
        dec_digits(n / 10) + seq![digit_char((n % 10) as int)]
    }
}

/// `n` as exactly two digits, zero padded; meaningful for `0 <= n < 100`.
pub open spec fn two_digit_chars(n: int) -> Seq<char> {
    seq![digit_char(n / 10), digit_char(n % 10)]
}

/// A count of hundredths rendered with exactly two decimal places,
/// e.g. `-150` as `-1.50`.
pub open spec fn hundredths_chars(c: int) -> Seq<char> {
    let m = if c < 0 {
        -c
    } else {
        c
    };
    let sign = if c < 0 {
        seq!['-']
    } else {
        Seq::<char>::empty()
    };
    sign + dec_digits((m / 100) as nat) + seq!['.'] + two_digit_chars(m % 100)
}

/// Append the single digit `d` to `s`.
fn push_digit(s: &mut String, d: u64)
    requires
        d < 10,
    ensures
        final(s)@ == old(s)@ + seq![digit_char(d as int)],
{
    proof {
        reveal_strlit("0");
        reveal_strlit("1");
        reveal_strlit("2");
        reveal_strlit("3");
        reveal_strlit("4");
        reveal_strlit("5");
        reveal_strlit("6");
        reveal_strlit("7");
        reveal_strlit("8");
        reveal_strlit("9");
    }
    let c: &str = match d {
        0 => "0",
        1 => "1",
        2 => "2",
        3 => "3",
        4 => "4",
        5 => "5",
        6 => "6",
        7 => "7",
        8 => "8",
        _ => "9",
    };
    proof {
        assert(c@ =~= seq![digit_char(d as int)]);
    }
    s.append(c);
}

/// Render `n` in decimal.
pub fn u64_to_dec_string(n: u64) -> (r: String)
    ensures
        r@ == dec_digits(n as nat),
    decreases n,
{
    if n < 10 {
        let mut s = String::new();
        push_digit(&mut s, n);
        proof {
            assert(s@ =~= dec_digits(n as nat));
        }
        s
    } else {
        proof {
            assert(n / 10 < n) by (nonlinear_arith)
                requires
                    n >= 10,
            ;
        }
        let mut s = u64_to_dec_string(n / 10);
        push_digit(&mut s, n % 10);
        proof {
            assert(s@ =~= dec_digits(n as nat));
        }
        s
    }
}

/// Append `n` as exactly two digits, zero padded.
pub fn append_two_digits(s: &mut String, n: u64)
    requires
        n < 100,
    ensures
        final(s)@ == old(s)@ + two_digit_chars(n as int),
{
    push_digit(s, n / 10);
    push_digit(s, n % 10);
    proof {
        assert(s@ =~= old(s)@ + two_digit_chars(n as int));
    }
}

/// Render a count of hundredths with exactly two decimal places.
pub fn hundredths_to_string(c: i64) -> (r: String)
    ensures
        r@ == hundredths_chars(c as int),
{
    let mut s = String::new();
    let m: u64 = if c >= 0 {
        c as u64
    } else {
        proof {
            reveal_strlit("-");
        }
        s.append("-");
        ((-(c + 1)) as u64) + 1
    };
    proof {
        assert(m == if c < 0 {
            -(c as int)
        } else {
            c as int
        });
    }
    let whole = u64_to_dec_string(m / 100);
    s.append(whole.as_str());
    proof {
        reveal_strlit(".");
    }
    s.append(".");
    append_two_digits(&mut s, m % 100);
    proof {
        assert(s@ =~= hundredths_chars(c as int));
    }
    s
}

} // verus!
