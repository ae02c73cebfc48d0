//! Text building blocks for the markdown report: decimal rendering of
//! fixed-point values, percentages rounded to two decimals, and whitespace
//! trimming.
use vstd::prelude::*;

use vstd::string::{StrSliceExecFns, StringExecFns};

verus! {

/// The character for one decimal digit.
pub open spec fn digit_char(d: int) -> char {
    if d == 0 {
        '0'
    } else if d == 1 {
        '1'
    } else if d == 2 {
        '2'
    } else if d == 3 {
        '3'
    } else if d == 4 {
        '4'
    } else if d == 5 {
        '5'
    } else if d == 6 {
        '6'
    } else if d == 7 {
        '7'
    } else if d == 8 {
        '8'
    } else {
        '9'
    }
}

/// The decimal digits of a natural number.
pub open spec fn dec_of(n: nat) -> Seq<char>
    decreases n,
{
    if n < 10 {
        seq![digit_char(n as int)]
    } else {
        dec_of(n / 10).push(digit_char((n % 10) as int))
    }
}

/// `k` zero characters.
pub open spec fn zeros(k: nat) -> Seq<char>
    decreases k,
{
    if k == 0 {
        Seq::empty()
    } else {
        zeros((k - 1) as nat).push('0')
    }
}

/// The decimal digits of `n`, left-padded with zeros to width `w`.
pub open spec fn padded_dec_of(n: nat, w: nat) -> Seq<char> {
    if dec_of(n).len() >= w {
        dec_of(n)
    } else {
        zeros((w - dec_of(n).len()) as nat) + dec_of(n)
    }
}

/// The fractional digits of a fixed-point value: width-`w` zero-padded
/// digits of `f`, with trailing zeros removed numerically.
pub open spec fn frac_text(f: nat, w: nat) -> Seq<char>
    decreases w,
{
    if w == 0 {
        Seq::empty()
    } else if f % 10 == 0 {
        frac_text(f / 10, (w - 1) as nat)
    } else {
        padded_dec_of(f, w)
    }
}

/// A fixed-point value in millionths, as plain decimal text: the integer
/// part, and the fractional digits when they are not zero.
pub open spec fn value_text(n: u64) -> Seq<char> {
    if n % crate::SCALE == 0 {
        dec_of((n / crate::SCALE) as nat)
    } else {
        dec_of((n / crate::SCALE) as nat) + seq!['.'] + frac_text((n % crate::SCALE) as nat, 6)
    }
}

/// A signed fixed-point value in millionths, as plain decimal text.
pub open spec fn signed_value_text(x: int) -> Seq<char> {
    if x < 0 {
        seq!['-'] + value_text((-x) as u64)
    } else {
        value_text(x as u64)
    }
}

/// A ratio in millionths as a percentage with two decimals, rounded half up
/// on the magnitude.
pub open spec fn percent_text(x: int) -> Seq<char> {
    let m = if x < 0 {
        -x
    } else {
        x
    };
    let cents = (m + 50) / 100;
    let digits = dec_of((cents / 100) as nat) + seq!['.'] + padded_dec_of((cents % 100) as nat, 2);
    if x < 0 {
        seq!['-'] + digits
    } else {
        digits
    }
}

/// Append one decimal digit.
fn append_digit(s: &mut String, d: u128)
    requires
        d < 10,
    ensures
        final(s)@ == old(s)@ + seq![digit_char(d as int)],
{
    if d == 0 {
        s.append("0");
        proof {
            reveal_strlit("0");
            assert(old(s)@ + "0"@ =~= old(s)@ + seq![digit_char(d as int)]);
        }
    } else if d == 1 {
        s.append("1");
        proof {
            reveal_strlit("1");
            assert(old(s)@ + "1"@ =~= old(s)@ + seq![digit_char(d as int)]);
        }
    } else if d == 2 {
        s.append("2");
        proof {
            reveal_strlit("2");
            assert(old(s)@ + "2"@ =~= old(s)@ + seq![digit_char(d as int)]);
        }
    } else if d == 3 {
        s.append("3");
        proof {
            reveal_strlit("3");
            assert(old(s)@ + "3"@ =~= old(s)@ + seq![digit_char(d as int)]);
        }
    } else if d == 4 {
        s.append("4");
        proof {
            reveal_strlit("4");
            assert(old(s)@ + "4"@ =~= old(s)@ + seq![digit_char(d as int)]);
        }
    } else if d == 5 {
        s.append("5");
        proof {
            reveal_strlit("5");
            assert(old(s)@ + "5"@ =~= old(s)@ + seq![digit_char(d as int)]);
        }
    } else if d == 6 {
        s.append("6");
        proof {
            reveal_strlit("6");
            assert(old(s)@ + "6"@ =~= old(s)@ + seq![digit_char(d as int)]);
        }
    } else if d == 7 {
        s.append("7");
        proof {
            reveal_strlit("7");
            assert(old(s)@ + "7"@ =~= old(s)@ + seq![digit_char(d as int)]);
        }
    } else if d == 8 {
        s.append("8");
        proof {
            reveal_strlit("8");
            assert(old(s)@ + "8"@ =~= old(s)@ + seq![digit_char(d as int)]);
        }
    } else {
        s.append("9");
        proof {
            reveal_strlit("9");
            assert(old(s)@ + "9"@ =~= old(s)@ + seq![digit_char(d as int)]);
        }
    }
}

/// Append the decimal digits of a natural number.
pub fn append_dec(s: &mut String, n: u128)
    ensures
        final(s)@ == old(s)@ + dec_of(n as nat),
    decreases n,
{
    if n < 10 {
        append_digit(s, n);
    } else {
        append_dec(s, n / 10);
        append_digit(s, n % 10);
        proof {
            assert(old(s)@ + dec_of((n / 10) as nat) + seq![digit_char((n % 10) as int)] =~= old(
                s,
            )@ + dec_of(n as nat));
        }
    }
}

/// Append `k` zero characters.
fn append_zeros(s: &mut String, k: usize)
    ensures
        final(s)@ == old(s)@ + zeros(k as nat),
    decreases k,
{
    if k > 0 {
        append_zeros(s, k - 1);
        append_digit(s, 0);
        proof {
            assert(old(s)@ + zeros((k - 1) as nat) + seq![digit_char(0)] =~= old(s)@ + zeros(
                k as nat,
            ));
        }
    } else {
        proof {
            assert(old(s)@ + zeros(0) =~= old(s)@);
        }
    }
}

/// Unfolding helper: the digit count grows by one per division by ten.
proof fn lemma_dec_len_small(m: nat)
    requires
        m >= 10,
    ensures
        dec_of(m).len() == dec_of(m / 10).len() + 1,
{
}

/// Powers of ten.
pub open spec fn pow10(k: nat) -> nat
    decreases k,
{
    if k == 0 {
        1
    } else {
        10 * pow10((k - 1) as nat)
    }
}

/// Append the zero-padded decimal digits of `n` at width `w`, for small
/// widths.
fn append_padded_dec(s: &mut String, n: u128, w: usize)
    requires
        (n as nat) < pow10(w as nat),
        1 <= w <= 6,
    ensures
        final(s)@ == old(s)@ + padded_dec_of(n as nat, w as nat),
{
    let mut width: usize = 1;
    let mut m = n;
    proof {
        reveal_with_fuel(pow10, 8);
    }
    while m >= 10
        invariant
            dec_of(n as nat).len() == dec_of(m as nat).len() + width - 1,
            1 <= width <= w,
            w <= 6,
            (m as nat) < pow10((w - width + 1) as nat),
        decreases m,
    {
        proof {
            reveal_with_fuel(pow10, 8);
            lemma_dec_len_small(m as nat);
            if width == w {
                assert((m as nat) < pow10(1));
                assert(false);
            }
            assert(pow10((w - width + 1) as nat) == 10 * pow10((w - width) as nat));
            assert(((m / 10) as nat) < pow10((w - width) as nat)) by (nonlinear_arith)
                requires
                    (m as nat) < pow10((w - width + 1) as nat),
                    pow10((w - width + 1) as nat) == 10 * pow10((w - width) as nat),
            ;
        }
        m = m / 10;
        width = width + 1;
    }
    if width >= w {
        append_dec(s, n);
        proof {
            assert(old(s)@ + dec_of(n as nat) =~= old(s)@ + padded_dec_of(n as nat, w as nat));
        }
    } else {
        append_zeros(s, w - width);
        append_dec(s, n);
        proof {
            assert(old(s)@ + zeros((w - width) as nat) + dec_of(n as nat) =~= old(s)@
                + padded_dec_of(n as nat, w as nat));
        }
    }
}

/// Append a fixed-point value in millionths as plain decimal text.
pub fn append_value(s: &mut String, n: u64)
    ensures
        final(s)@ == old(s)@ + value_text(n),
{
    append_dec(s, (n / crate::SCALE) as u128);
    let f = n % crate::SCALE;
    if f != 0 {
        s.append(".");
        let mut g = f;
        let mut w: usize = 6;
        proof {
            reveal_with_fuel(pow10, 8);
            assert(pow10(6) == 1000000);
        }
        while g % 10 == 0
            invariant
                g > 0,
                1 <= w <= 6,
                (g as nat) < pow10(w as nat),
                frac_text((n % crate::SCALE) as nat, 6) == frac_text(g as nat, w as nat),
            decreases w,
        {
            proof {
                reveal_with_fuel(pow10, 8);
                if w == 1 {
                    assert(g < 10 && g % 10 == 0 && g > 0);
                    assert(false);
                }
                assert(pow10(w as nat) == 10 * pow10((w - 1) as nat));
                assert(((g / 10) as nat) < pow10((w - 1) as nat)) by (nonlinear_arith)
                    requires
                        (g as nat) < pow10(w as nat),
                        pow10(w as nat) == 10 * pow10((w - 1) as nat),
                        g % 10 == 0,
                        g > 0,
                ;
                assert(g / 10 > 0);
            }
            g = g / 10;
            w = w - 1;
        }
        append_padded_dec(s, g as u128, w);
        proof {
            reveal_strlit(".");
            assert(frac_text(g as nat, w as nat) == padded_dec_of(g as nat, w as nat));
            assert(old(s)@ + dec_of((n / crate::SCALE) as nat) + "."@ + padded_dec_of(
                g as nat,
                w as nat,
            ) =~= old(s)@ + value_text(n));
        }
    } else {
        proof {
            assert(old(s)@ + dec_of((n / crate::SCALE) as nat) =~= old(s)@ + value_text(n));
        }
    }
}

/// Append a signed fixed-point value in millionths.
pub fn append_signed_value(s: &mut String, x: i128)
    requires
        -(u64::MAX as int) <= x <= u64::MAX as int,
    ensures
        final(s)@ == old(s)@ + signed_value_text(x as int),
{
    if x < 0 {
        s.append("-");
        append_value(s, (-x) as u64);
        proof {
            reveal_strlit("-");
            assert("-"@ =~= seq!['-']);
            assert(old(s)@ + "-"@ + value_text((-x) as u64) =~= old(s)@ + signed_value_text(
                x as int,
            ));
        }
    } else {
        append_value(s, x as u64);
    }
}

/// Append a ratio in millionths as a percentage with two decimals.
pub fn append_percent(s: &mut String, x: i128)
    ensures
        final(s)@ == old(s)@ + percent_text(x as int),
{
    let m: u128 = if x < 0 {
        if x == i128::MIN {
            proof {
                assert((-(i128::MIN as int)) == 170141183460469231731687303715884105728);
            }
            170141183460469231731687303715884105728u128
        } else {
            (-x) as u128
        }
    } else {
        x as u128
    };
    let cents = (m + 50) / 100;
    if x < 0 {
        s.append("-");
        proof {
            reveal_strlit("-");
        }
    }
    append_dec(s, cents / 100);
    s.append(".");
    proof {
        reveal_with_fuel(pow10, 8);
        assert(pow10(2) == 100);
    }
    append_padded_dec(s, cents % 100, 2);
    proof {
        reveal_strlit(".");
        reveal_strlit("-");
        assert("-"@ =~= seq!['-']);
        assert(s@ =~= old(s)@ + percent_text(x as int));
    }
}

/// A blank character: ASCII whitespace.
pub open spec fn is_blank(c: char) -> bool {
    c == ' ' || c == '\t' || c == '\n' || c == '\r'
}

/// Whether a character is ASCII whitespace.
pub fn is_blank_exec(c: char) -> (r: bool)
    ensures
        r == is_blank(c),
{
    c == ' ' || c == '\t' || c == '\n' || c == '\r'
}

/// The text with trailing blanks removed.
pub open spec fn trim_end_text(s: Seq<char>) -> Seq<char>
    decreases s.len(),
{
    if s.len() > 0 && is_blank(s.last()) {
        trim_end_text(s.drop_last())
    } else {
        s
    }
}

/// Whether the whole text is blank.
pub open spec fn all_blank(s: Seq<char>) -> bool {
    forall|i: int| 0 <= i < s.len() ==> is_blank(#[trigger] s[i])
}

/// Trimming at the last non-blank position realizes `trim_end_text`.
proof fn lemma_trim_end_at(s: Seq<char>, e: int)
    requires
        0 <= e <= s.len(),
        forall|j: int| e <= j < s.len() ==> is_blank(#[trigger] s[j]),
        e > 0 ==> !is_blank(s[e - 1]),
    ensures
        trim_end_text(s) == s.take(e),
    decreases s.len(),
{
    if e == s.len() {
        if s.len() > 0 && is_blank(s.last()) {
            assert(!is_blank(s[e - 1]));
            assert(false);
        }
        assert(s.take(e) =~= s);
    } else {
        assert(is_blank(s.last()));
        lemma_trim_end_at(s.drop_last(), e);
        assert(s.drop_last().take(e) =~= s.take(e));
    }
}

/// Whether every character of the text is blank.
pub fn str_all_blank(s: &str) -> (r: bool)
    ensures
        r == all_blank(s@),
{
    let n = s.unicode_len();
    let mut i: usize = 0;
    while i < n
        invariant
            n == s@.len(),
            i <= n,
            forall|j: int| 0 <= j < i ==> is_blank(#[trigger] s@[j]),
        decreases n - i,
    {
        if !is_blank_exec(s.get_char(i)) {
            return false;
        }
        i += 1;
    }
    true
}

/// Append the text with trailing blanks removed.
pub fn append_trim_end(s: &mut String, part: &str)
    ensures
        final(s)@ == old(s)@ + trim_end_text(part@),
{
    let n = part.unicode_len();
    let mut e: usize = n;
    while e > 0 && is_blank_exec(part.get_char(e - 1))
        invariant
            n == part@.len(),
            e <= n,
            forall|j: int| e <= j < n ==> is_blank(#[trigger] part@[j]),
        decreases e,
    {
        e -= 1;
    }
    proof {
        lemma_trim_end_at(part@, e as int);
    }
    let trimmed = part.substring_char(0, e);
    s.append(trimmed);
    proof {
        assert(part@.subrange(0, e as int) =~= part@.take(e as int));
    }
}

} // verus!
