//! Fixed-point numbers written out in decimal with five fractional digits.
use crate::arith::{div_round, spec_div_round};
use vstd::prelude::*;
use vstd::string::*;

verus! {

/// The character of a decimal digit.
pub open spec fn digit_char(d: int) -> char {
    if d == 0 {
        '0'
    } else if d == 1 {
        '1'
    } else if d == 2 {
        '2'
    } else if d == 3 {
        '3'
    } else if d == 4 {
        '4'
    } else if d == 5 {
        '5'
    } else if d == 6 {
        '6'
    } else if d == 7 {
        '7'
    } else if d == 8 {
        '8'
    } else {
        '9'
    }
}

/// The decimal digits of `n`, most significant first, without leading zeros.
pub open spec fn decimal_digits(n: nat) -> Seq<char>
    decreases n,
{
    if n < 10 {
        seq![digit_char(n as int)]
    } else {
        decimal_digits(n / 10).push(digit_char((n % 10) as int))
    }
}

/// The five decimal digits of `n`, which is below one hundred thousand, with
/// leading zeros.
pub open spec fn five_digits(n: nat) -> Seq<char> {
    seq![
        digit_char((n / 10000) as int),
        digit_char((n / 1000 % 10) as int),
        digit_char((n / 100 % 10) as int),
        digit_char((n / 10 % 10) as int),
        digit_char((n % 10) as int),
    ]
}

/// The number of hundred-thousandths nearest to the magnitude of `v`
/// millionths.
pub open spec fn rounded_magnitude(v: int) -> nat {
    spec_div_round(if v >= 0 { v } else { -v }, 10) as nat
}

/// A count of millionths written with five fractional digits, rounded to the
/// nearest: an optional minus sign, the whole part, a point, five digits.
pub open spec fn spec_format_micro(v: int) -> Seq<char> {
    let m = rounded_magnitude(v);
    let sign = if v < 0 { seq!['-'] } else { Seq::<char>::empty() };
    sign + decimal_digits(m / 100000) + seq!['.'] + five_digits(m % 100000)
}

/// Whether a character can occur in a formatted number.
pub open spec fn is_number_char(c: char) -> bool {
    c == '-' || c == '.' || c == '0' || c == '1' || c == '2' || c == '3' || c == '4' || c == '5'
        || c == '6' || c == '7' || c == '8' || c == '9'
}

/// The string of one decimal digit.
fn digit_str(d: u64) -> (s: &'static str)
    requires
        d < 10,
    ensures
        s@ == seq![digit_char(d as int)],
{
    proof {
        reveal_strlit("0");
        reveal_strlit("1");
        reveal_strlit("2");
        reveal_strlit("3");
        reveal_strlit("4");
        reveal_strlit("5");
        reveal_strlit("6");
        reveal_strlit("7");
        reveal_strlit("8");
        reveal_strlit("9");
    }
    let s: &'static str = if d == 0 {
        "0"
    } else if d == 1 {
        "1"
    } else if d == 2 {
        "2"
    } else if d == 3 {
        "3"
    } else if d == 4 {
        "4"
    } else if d == 5 {
        "5"
    } else if d == 6 {
        "6"
    } else if d == 7 {
        "7"
    } else if d == 8 {
        "8"
    } else {
        "9"
    };
    assert(s@ =~= seq![digit_char(d as int)]);
    s
}

/// Appends the decimal digits of `n` to `out`.
fn append_decimal(out: &mut String, n: u64)
    ensures
        final(out)@ == old(out)@ + decimal_digits(n as nat),
{
    let mut reversed: Vec<u64> = Vec::new();
    let mut rest: u64 = n;
    let ghost mut tail: Seq<char> = Seq::empty();
    while rest >= 10
        invariant
            decimal_digits(n as nat) == decimal_digits(rest as nat) + tail,
            tail.len() == reversed.len(),
            forall|i: int| 0 <= i < reversed.len() ==> reversed[i] < 10,
            forall|i: int|
                0 <= i < reversed.len() ==> tail[tail.len() - 1 - i] == digit_char(
                    #[trigger] reversed[i] as int,
                ),
        decreases rest,
    {
        let d: u64 = rest % 10;
        proof {
            let next_tail = seq![digit_char(d as int)] + tail;
            assert(decimal_digits(rest as nat) == decimal_digits((rest / 10) as nat).push(
                digit_char(d as int),
            ));
            assert(decimal_digits((rest / 10) as nat).push(digit_char(d as int)) + tail
                =~= decimal_digits((rest / 10) as nat) + next_tail);
            tail = next_tail;
        }
        reversed.push(d);
        rest = rest / 10;
    }
    proof {
        let next_tail = seq![digit_char(rest as int)] + tail;
        assert(decimal_digits(rest as nat) + tail =~= next_tail);
        tail = next_tail;
    }
    reversed.push(rest);
    let mut i: usize = reversed.len();
    while i > 0
        invariant
            i <= reversed.len(),
            tail.len() == reversed.len(),
            forall|j: int| 0 <= j < reversed.len() ==> reversed[j] < 10,
            forall|j: int|
                0 <= j < reversed.len() ==> tail[tail.len() - 1 - j] == digit_char(
                    #[trigger] reversed[j] as int,
                ),
            out@ == old(out)@ + tail.subrange(0, reversed.len() - i),
        decreases i,
    {
        i = i - 1;
        let ghost before = out@;
        out.append(digit_str(reversed[i]));
        proof {
            let k: int = reversed.len() - 1 - i;
            assert(tail[k] == digit_char(reversed[i as int] as int));
            assert(tail.subrange(0, k + 1) =~= tail.subrange(0, k).push(tail[k]));
            assert(out@ =~= old(out)@ + tail.subrange(0, k + 1));
        }
    }
    proof {
        assert(tail.subrange(0, reversed.len() as int) =~= tail);
    }
}

/// Writes a count of millionths with five fractional digits.
pub fn format_micro(v: i64) -> (s: String)
    ensures
        s@ == spec_format_micro(v as int),
{
    let magnitude: i128 = if v >= 0 { v as i128 } else { -(v as i128) };
    let m: u64 = div_round(magnitude, 10) as u64;
    let whole: u64 = m / 100000;
    let part: u64 = m % 100000;
    let mut s: String = String::new();
    if v < 0 {
        proof {
            reveal_strlit("-");
        }
        s.append("-");
        assert(s@ =~= seq!['-']);
    }
    let ghost sign = s@;
    append_decimal(&mut s, whole);
    proof {
        reveal_strlit(".");
    }
    s.append(".");
    s.append(digit_str(part / 10000));
    s.append(digit_str(part / 1000 % 10));
    s.append(digit_str(part / 100 % 10));
    s.append(digit_str(part / 10 % 10));
    s.append(digit_str(part % 10));
    proof {
        assert("."@ =~= seq!['.']);
        assert(s@ =~= sign + decimal_digits(whole as nat) + seq!['.'] + five_digits(part as nat));
    }
    s
}

/// Every character of a run of decimal digits is a number character.
proof fn lemma_decimal_digits_chars(n: nat)
    ensures
        decimal_digits(n).len() >= 1,
        forall|i: int| 0 <= i < decimal_digits(n).len() ==> is_number_char(#[trigger] decimal_digits(n)[i]),
    decreases n,
{
    if n >= 10 {
        lemma_decimal_digits_chars(n / 10);
    }
}

/// A formatted number holds a sign, digits and a point, and nothing else; in
/// particular no character that XML text would need to escape.
pub proof fn lemma_format_micro_chars(v: int)
    ensures
        forall|i: int|
            0 <= i < spec_format_micro(v).len() ==> is_number_char(#[trigger] spec_format_micro(v)[i]),
        forall|i: int| 0 <= i < spec_format_micro(v).len() ==> #[trigger] spec_format_micro(v)[i] != '<',
{
    let m = rounded_magnitude(v);
    lemma_decimal_digits_chars(m / 100000);
    let s = spec_format_micro(v);
    assert forall|i: int| 0 <= i < s.len() implies is_number_char(#[trigger] s[i]) by {
        let sign = if v < 0 { seq!['-'] } else { Seq::<char>::empty() };
        let whole = decimal_digits(m / 100000);
        let d = (i - sign.len() - whole.len() - 1) as int;
        if i < sign.len() {
        } else if i < sign.len() + whole.len() {
            assert(s[i] == whole[i - sign.len()]);
        } else if i == sign.len() + whole.len() {
        } else {
            assert(s[i] == five_digits(m % 100000)[d]);
        }
    }
}

/// After the decimal point come exactly five digits.
pub proof fn lemma_format_micro_fraction(v: int)
    ensures
        spec_format_micro(v).len() >= 7,
        spec_format_micro(v)[spec_format_micro(v).len() - 6] == '.',
        forall|i: int|
            spec_format_micro(v).len() - 5 <= i < spec_format_micro(v).len() ==> '0'
                <= #[trigger] spec_format_micro(v)[i] <= '9',
{
    let m = rounded_magnitude(v);
    lemma_decimal_digits_chars(m / 100000);
    let s = spec_format_micro(v);
    let five = five_digits(m % 100000);
    assert forall|i: int| s.len() - 5 <= i < s.len() implies '0' <= #[trigger] s[i] <= '9' by {
        assert(s[i] == five[i - (s.len() - 5)]);
    }
}

} // verus!
