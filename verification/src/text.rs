//! Numbers in words: the decimal notation of a `Decimal`.

use vstd::prelude::*;
use vstd::string::*;
use crate::decimal::{fraction_part, magnitude, pow10, whole_part, Decimal, SCALE};

verus! {

/// The character of a digit.
pub open spec fn digit(d: int) -> char {
    if d == 0 {
        '0'
    } else if d == 1 {
        '1'
    } else if d == 2 {
        '2'
    } else if d == 3 {
        '3'
    } else if d == 4 {
        '4'
    } else if d == 5 {
        '5'
    } else if d == 6 {
        '6'
    } else if d == 7 {
        '7'
    } else if d == 8 {
        '8'
    } else {
        '9'
    }
}

/// The digits of a natural number, without leading zeros.
pub open spec fn digits_of(n: nat) -> Seq<char>
    decreases n,
{
    if n < 10 {
        seq![digit(n as int)]
    } else {
        digits_of(n / 10).push(digit((n % 10) as int))
    }
}

/// The digits of the fraction `f / (10 * place)`, from the place worth
/// `place` down, without trailing zeros.
pub open spec fn fraction_digits(f: nat, place: nat) -> Seq<char>
    decreases place,
{
    if f == 0 || place == 0 {
        Seq::empty()
    } else {
        seq![digit((f / place) as int)] + fraction_digits(f % place, place / 10)
    }
}

/// The decimal notation of `u` units: a minus sign below zero, the
/// integer part, and behind a point the fractional digits, where there
/// are any.
pub open spec fn notation(u: int) -> Seq<char> {
    let sign = if u < 0 {
        "-"@
    } else {
        Seq::empty()
    };
    let whole = digits_of(magnitude(whole_part(u)) as nat);
    let fraction = if fraction_part(u) == 0 {
        Seq::empty()
    } else {
        "."@ + fraction_digits(fraction_part(u) as nat, (SCALE / 10) as nat)
    };
    sign + whole + fraction
}

/// The digit as a text.
fn digit_text(d: u64) -> (r: &'static str)
    requires
        d < 10,
    ensures
        r@ == seq![digit(d as int)],
{
    proof {
        reveal_strlit("0");
        reveal_strlit("1");
        reveal_strlit("2");
        reveal_strlit("3");
        reveal_strlit("4");
        reveal_strlit("5");
        reveal_strlit("6");
        reveal_strlit("7");
        reveal_strlit("8");
        reveal_strlit("9");
    }
    let r = if d == 0 {
        "0"
    } else if d == 1 {
        "1"
    } else if d == 2 {
        "2"
    } else if d == 3 {
        "3"
    } else if d == 4 {
        "4"
    } else if d == 5 {
        "5"
    } else if d == 6 {
        "6"
    } else if d == 7 {
        "7"
    } else if d == 8 {
        "8"
    } else {
        "9"
    };
    assert(r@ =~= seq![digit(d as int)]);
    r
}

/// Appends the digits of `n`.
pub fn append_number(text: &mut String, n: u64)
    ensures
        final(text)@ == old(text)@ + digits_of(n as nat),
    decreases n,
{
    if n >= 10 {
        append_number(text, n / 10);
    }
    text.append(digit_text(n % 10));
    assert(text@ =~= old(text)@ + digits_of(n as nat));
}

/// Appends the notation of the number.
pub fn append_decimal(text: &mut String, d: Decimal)
    ensures
        final(text)@ == old(text)@ + notation(d@),
{
    if d.is_negative() {
        text.append("-");
    }
    let whole = d.whole();
    let shown: u64 = if whole < 0 {
        (-whole) as u64
    } else {
        whole as u64
    };
    append_number(text, shown);
    let ghost head = text@;
    let mut f: u64 = d.fraction();
    if f > 0 {
        text.append(".");
        let ghost start = text@;
        let ghost all = fraction_digits(f as nat, (SCALE / 10) as nat);
        let mut place: u64 = 100_000_000_000_000_000;
        let ghost mut k: nat = 17;
        proof {
            reveal_with_fuel(pow10, 18);
        }
        while f > 0 && place > 0
            invariant
                (place == 0 && f == 0) || (place == pow10(k) && f < place * 10),
                text@ + fraction_digits(f as nat, place as nat) == start + all,
            decreases place,
        {
            let ghost before = text@;
            let ghost rest = fraction_digits((f % place) as nat, (place / 10) as nat);
            proof {
                assert(f / place < 10) by (nonlinear_arith)
                    requires
                        f < place * 10,
                        place > 0,
                ;
                if k > 0 {
                    assert(pow10(k) == 10 * pow10((k - 1) as nat));
                    k = (k - 1) as nat;
                }
            }
            text.append(digit_text(f / place));
            assert(text@ + rest =~= before + (seq![digit((f / place) as int)] + rest));
            f = f % place;
            place = place / 10;
        }
        assert(text@ =~= start + all);
    }
    proof {
        reveal_strlit("-");
        reveal_strlit(".");
        assert(text@ =~= old(text)@ + notation(d@));
    }
}

impl Decimal {
    /// The number in decimal notation.
    pub fn to_text(&self) -> (r: String)
        ensures
            r@ == notation(self@),
    {
        let mut text = String::new();
        append_decimal(&mut text, *self);
        assert(text@ =~= notation(self@));
        text
    }
}

} // verus!
