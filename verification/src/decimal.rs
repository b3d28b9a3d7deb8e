//! Decimal rendering of 64-bit integers, used to derive file names from
//! journal identifiers.

use vstd::prelude::*;

verus! {

/// The character for a single decimal digit.
pub open spec fn digit_char(d: int) -> char {
    if d == 0 {
        '0'
    } else if d == 1 {
        '1'
    } else if d == 2 {
        '2'
    } else if d == 3 {
        '3'
    } else if d == 4 {
        '4'
    } else if d == 5 {
        '5'
    } else if d == 6 {
        '6'
    } else if d == 7 {
        '7'
    } else if d == 8 {
        '8'
    } else {
        '9'
    }
}

pub open spec fn is_digit_char(c: char) -> bool {
    c == '0' || c == '1' || c == '2' || c == '3' || c == '4' || c == '5' || c == '6' || c == '7'
        || c == '8' || c == '9'
}

/// The decimal digits of a natural number, most significant first.
pub open spec fn dec_digits(n: nat) -> Seq<char>
    decreases n,
{
    if n < 10 {
        seq![digit_char(n as int)]
    } else {
        dec_digits(n / 10).push(digit_char((n % 10) as int))
    }
}

/// The decimal rendering of an integer: a minus sign, if negative, followed
/// by the digits of its magnitude.
pub open spec fn decimal_of(n: int) -> Seq<char> {
    if n < 0 {
        seq!['-'] + dec_digits((-n) as nat)
    } else {
        dec_digits(n as nat)
    }
}

/// A decimal rendering is never empty and holds only digit characters.
pub proof fn lemma_dec_digits_form(n: nat)
    ensures
        dec_digits(n).len() >= 1,
        forall|i: int| 0 <= i < dec_digits(n).len() ==> is_digit_char(#[trigger] dec_digits(n)[i]),
    decreases n,
{
    if n >= 10 {
        lemma_dec_digits_form(n / 10);
        assert forall|i: int| 0 <= i < dec_digits(n).len() implies is_digit_char(
            dec_digits(n)[i],
        ) by {
            if i < dec_digits(n / 10).len() {
                assert(dec_digits(n)[i] == dec_digits(n / 10)[i]);
            }
        }
    }
}

/// Two distinct natural numbers render to distinct digit sequences.
pub proof fn lemma_dec_digits_injective(m: nat, n: nat)
    requires
        dec_digits(m) == dec_digits(n),
    ensures
        m == n,
    decreases m,
{
    if m < 10 && n < 10 {
        assert(dec_digits(m) == seq![digit_char(m as int)]);
        assert(dec_digits(n) == seq![digit_char(n as int)]);
        assert(seq![digit_char(m as int)][0] == seq![digit_char(n as int)][0]);
        assert(digit_char(m as int) == digit_char(n as int));
    } else if m < 10 && n >= 10 {
        lemma_dec_digits_form(n / 10);
        assert(dec_digits(n).len() >= 2);
    } else if m >= 10 && n < 10 {
        lemma_dec_digits_form(m / 10);
        assert(dec_digits(m).len() >= 2);
    } else {
        lemma_dec_digits_form(m / 10);
        lemma_dec_digits_form(n / 10);
        assert(dec_digits(m) == dec_digits(m / 10).push(digit_char((m % 10) as int)));
        assert(dec_digits(n) == dec_digits(n / 10).push(digit_char((n % 10) as int)));
        let lm = dec_digits(m / 10).len() as int;
        let ln = dec_digits(n / 10).len() as int;
        assert(lm + 1 == ln + 1);
        assert(dec_digits(m).last() == digit_char((m % 10) as int));
        assert(dec_digits(n).last() == digit_char((n % 10) as int));
        assert(m % 10 == n % 10);
        assert(dec_digits(m / 10) =~= dec_digits(n / 10)) by {
            assert forall|i: int| 0 <= i < lm implies #[trigger] dec_digits(m / 10)[i]
                == dec_digits(n / 10)[i] by {
                assert(dec_digits(m / 10)[i] == dec_digits(m)[i]);
                assert(dec_digits(n / 10)[i] == dec_digits(n)[i]);
            }
        }
        lemma_dec_digits_injective(m / 10, n / 10);
    }
}

/// A decimal rendering is never empty; its characters are digits, but for a
/// leading minus sign on a negative number.
pub proof fn lemma_decimal_of_form(n: int)
    ensures
        decimal_of(n).len() >= 1,
        forall|i: int| 0 <= i < decimal_of(n).len() ==> (is_digit_char(
            #[trigger] decimal_of(n)[i],
        ) || decimal_of(n)[i] == '-'),
        n >= 0 ==> is_digit_char(decimal_of(n)[0]),
        n < 0 ==> decimal_of(n)[0] == '-',
{
    if n < 0 {
        lemma_dec_digits_form((-n) as nat);
        assert forall|i: int| 0 <= i < decimal_of(n).len() implies (is_digit_char(
            decimal_of(n)[i],
        ) || decimal_of(n)[i] == '-') by {
            if i >= 1 {
                assert(decimal_of(n)[i] == dec_digits((-n) as nat)[i - 1]);
            }
        }
    } else {
        lemma_dec_digits_form(n as nat);
    }
}

/// Two distinct integers render to distinct decimal sequences.
pub proof fn lemma_decimal_of_injective(m: int, n: int)
    requires
        decimal_of(m) == decimal_of(n),
    ensures
        m == n,
{
    lemma_decimal_of_form(m);
    lemma_decimal_of_form(n);
    if m >= 0 && n >= 0 {
        lemma_dec_digits_injective(m as nat, n as nat);
    } else if m < 0 && n < 0 {
        let dm = dec_digits((-m) as nat);
        let dn = dec_digits((-n) as nat);
        assert(dm =~= dn) by {
            assert forall|i: int| 0 <= i < dm.len() implies dm[i] == dn[i] by {
                assert(decimal_of(m)[i + 1] == dm[i]);
                assert(decimal_of(n)[i + 1] == dn[i]);
            }
        }
        lemma_dec_digits_injective((-m) as nat, (-n) as nat);
    } else {
        assert(decimal_of(m)[0] == decimal_of(n)[0]);
        assert(false);
    }
}

fn digit_str(d: u64) -> (r: &'static str)
    requires
        d < 10,
    ensures
        r@ == seq![digit_char(d as int)],
{
    proof {
        reveal_strlit("0");
        reveal_strlit("1");
        reveal_strlit("2");
        reveal_strlit("3");
        reveal_strlit("4");
        reveal_strlit("5");
        reveal_strlit("6");
        reveal_strlit("7");
        reveal_strlit("8");
        reveal_strlit("9");
    }
    let r: &'static str = if d == 0 {
        "0"
    } else if d == 1 {
        "1"
    } else if d == 2 {
        "2"
    } else if d == 3 {
        "3"
    } else if d == 4 {
        "4"
    } else if d == 5 {
        "5"
    } else if d == 6 {
        "6"
    } else if d == 7 {
        "7"
    } else if d == 8 {
        "8"
    } else {
        "9"
    };
    proof {
        assert(r@ =~= seq![digit_char(d as int)]);
    }
    r
}

/// Renders a `u64` in decimal.
pub fn u64_to_decimal(n: u64) -> (r: String)
    ensures
        r@ == dec_digits(n as nat),
    decreases n,
{
    if n < 10 {
        String::from_str(digit_str(n))
    } else {
        let mut r = u64_to_decimal(n / 10);
        r.append(digit_str(n % 10));
        proof {
            assert(r@ =~= dec_digits(n as nat));
        }
        r
    }
}

/// Renders an `i64` in decimal, with a leading minus sign when negative.
pub fn i64_to_decimal(n: i64) -> (r: String)
    ensures
        r@ == decimal_of(n as int),
{
    if n >= 0 {
        u64_to_decimal(n as u64)
    } else {
        let mag: u64 = (-(n as i128)) as u64;
        let mut r = String::from_str("-");
        let digits = u64_to_decimal(mag);
        r.append(digits.as_str());
        proof {
            reveal_strlit("-");
            assert(r@ =~= decimal_of(n as int));
        }
        r
    }
}

} // verus!
