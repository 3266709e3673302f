//! Decimal rendering of line numbers, for diagnostic text.

use vstd::prelude::*;

use crate::strutil::chars_to_string;

verus! {

/// The character for one decimal digit.
pub open spec fn digit_char(d: int) -> char {
    if d == 0 {
        '0'
    } else if d == 1 {
        '1'
    } else if d == 2 {
        '2'
    } else if d == 3 {
        '3'
    } else if d == 4 {
        '4'
    } else if d == 5 {
        '5'
    } else if d == 6 {
        '6'
    } else if d == 7 {
        '7'
    } else if d == 8 {
        '8'
    } else {
        '9'
    }
}

/// The decimal digits of a number, most significant first, with no
/// leading zero except for the number zero itself.
pub open spec fn decimal_digits(n: nat) -> Seq<char>
    decreases n,
{
    if n < 10 {
        seq![digit_char(n as int)]
    } else {
        decimal_digits(n / 10).push(digit_char((n % 10) as int))
    }
}

/// The character for one decimal digit.
pub fn digit_char_of(d: u32) -> (r: char)
    requires
        d < 10,
    ensures
        r == digit_char(d as int),
{
    if d == 0 {
        '0'
    } else if d == 1 {
        '1'
    } else if d == 2 {
        '2'
    } else if d == 3 {
        '3'
    } else if d == 4 {
        '4'
    } else if d == 5 {
        '5'
    } else if d == 6 {
        '6'
    } else if d == 7 {
        '7'
    } else if d == 8 {
        '8'
    } else {
        '9'
    }
}

/// Renders a number in decimal.
pub fn u32_to_string(n: u32) -> (r: String)
    ensures
        r@ == decimal_digits(n as nat),
{
    let mut acc: Vec<char> = Vec::new();
    let mut m = n;
    loop
        invariant_except_break
            acc@.len() == 0 ==> m == n,
            acc@.len() > 0 ==> decimal_digits(n as nat) == (if m == 0 {
                acc@
            } else {
                decimal_digits(m as nat) + acc@
            }),
        ensures
            decimal_digits(n as nat) == acc@,
        decreases m, (if acc@.len() == 0 {
                1int
            } else {
                0int
            }),
    {
        if m == 0 && acc.len() > 0 {
            break ;
        }
        let ghost m0 = m;
        let ghost pre = acc@;
        let d = m % 10;
        acc.insert(0, digit_char_of(d));
        m = m / 10;
        proof {
            assert(acc@ =~= seq![digit_char(d as int)] + pre);
            if m0 < 10 {
                assert(m == 0);
                assert(decimal_digits(m0 as nat) == seq![digit_char(m0 as int)]);
                assert(d == m0);
                if m0 == 0 && pre.len() > 0 {
                    assert(false);
                }
                assert(decimal_digits(n as nat) =~= acc@);
            } else {
                assert(decimal_digits(m0 as nat) == decimal_digits((m0 / 10) as nat).push(
                    digit_char((m0 % 10) as int),
                ));
                assert(decimal_digits((m0 / 10) as nat).push(digit_char(d as int)) + pre
                    =~= decimal_digits((m0 / 10) as nat) + (seq![digit_char(d as int)] + pre));
                assert(decimal_digits(n as nat) == decimal_digits(m as nat) + acc@);
            }
        }
    }
    chars_to_string(&acc)
}

} // verus!
