//! Small text utilities: string comparison and decimal formatting.

use vstd::prelude::*;

verus! {

/// Compares two string slices with `str`'s `==`, which holds exactly when
/// both hold the same characters.
#[verifier::external_body]
pub(crate) fn str_eq(a: &str, b: &str) -> (same: bool)
    ensures
        same == (a@ == b@),
{
    a == b
}

/// The character that stands for one decimal digit.
pub open spec fn digit_char(d: int) -> char {
    if d == 0 {
        '0'
    } else if d == 1 {
        '1'
    } else if d == 2 {
        '2'
    } else if d == 3 {
        '3'
    } else if d == 4 {
        '4'
    } else if d == 5 {
        '5'
    } else if d == 6 {
        '6'
    } else if d == 7 {
        '7'
    } else if d == 8 {
        '8'
    } else {
        '9'
    }
}

/// Decimal digits of a natural number, most significant first, without
/// leading zeros (zero itself is "0").
pub open spec fn nat_decimal(n: nat) -> Seq<char>
    decreases n,
{
    if n < 10 {
        seq![digit_char(n as int)]
    } else {
        nat_decimal(n / 10).push(digit_char((n % 10) as int))
    }
}

/// Decimal text of an integer: a minus sign for negatives, then the digits
/// of the magnitude.
pub open spec fn int_decimal(n: int) -> Seq<char> {
    if n < 0 {
        seq!['-'] + nat_decimal((-n) as nat)
    } else {
        nat_decimal(n as nat)
    }
}

/// Characters for a run of digits that was collected least significant first.
pub open spec fn digits_reversed(digits: Seq<u8>) -> Seq<char>
    decreases digits.len(),
{
    if digits.len() == 0 {
        Seq::empty()
    } else {
        seq![digit_char(digits.last() as int)] + digits_reversed(digits.drop_last())
    }
}

fn digit_str(d: u8) -> (s: &'static str)
    requires
        d < 10,
    ensures
        s@ == seq![digit_char(d as int)],
{
    proof {
        reveal_strlit("0");
        reveal_strlit("1");
        reveal_strlit("2");
        reveal_strlit("3");
        reveal_strlit("4");
        reveal_strlit("5");
        reveal_strlit("6");
        reveal_strlit("7");
        reveal_strlit("8");
        reveal_strlit("9");
    }
    let s: &'static str = if d == 0 {
        "0"
    } else if d == 1 {
        "1"
    } else if d == 2 {
        "2"
    } else if d == 3 {
        "3"
    } else if d == 4 {
        "4"
    } else if d == 5 {
        "5"
    } else if d == 6 {
        "6"
    } else if d == 7 {
        "7"
    } else if d == 8 {
        "8"
    } else {
        "9"
    };
    assert(s@ =~= seq![digit_char(d as int)]);
    s
}

/// Formats an unsigned integer in decimal.
pub fn format_u64(n: u64) -> (s: String)
    ensures
        s@ == nat_decimal(n as nat),
{
    let mut digits: Vec<u8> = Vec::new();
    let mut rest: u64 = n;
    while rest >= 10
        invariant
            forall|i: int| 0 <= i < digits.len() ==> digits[i] < 10,
            nat_decimal(n as nat) == nat_decimal(rest as nat) + digits_reversed(digits@),
        decreases rest,
    {
        let d: u8 = (rest % 10) as u8;
        proof {
            let next = digits@.push(d);
            assert(next.drop_last() =~= digits@);
            assert(nat_decimal(rest as nat) == nat_decimal((rest / 10) as nat).push(
                digit_char(d as int),
            ));
            assert(nat_decimal((rest / 10) as nat).push(digit_char(d as int)) + digits_reversed(
                digits@,
            ) =~= nat_decimal((rest / 10) as nat) + digits_reversed(next));
        }
        digits.push(d);
        rest = rest / 10;
    }
    let mut s: String = String::from_str(digit_str(rest as u8));
    let mut i: usize = digits.len();
    proof {
        assert(digits@.take(i as int) =~= digits@);
    }
    while i > 0
        invariant
            i <= digits.len(),
            forall|k: int| 0 <= k < digits.len() ==> digits[k] < 10,
            s@ + digits_reversed(digits@.take(i as int)) == nat_decimal(n as nat),
        decreases i,
    {
        proof {
            let head = digits@.take(i as int);
            assert(head.drop_last() =~= digits@.take(i - 1));
            assert(s@ + digits_reversed(head) =~= (s@ + seq![digit_char(head.last() as int)])
                + digits_reversed(head.drop_last()));
        }
        i = i - 1;
        s.append(digit_str(digits[i]));
    }
    proof {
        assert(digits@.take(0) =~= Seq::<u8>::empty());
        assert(s@ + Seq::<char>::empty() =~= s@);
    }
    s
}

/// Formats a signed integer in decimal.
pub fn format_i64(n: i64) -> (s: String)
    ensures
        s@ == int_decimal(n as int),
{
    if n < 0 {
        let magnitude: u64 = (-(n + 1)) as u64 + 1;
        let digits = format_u64(magnitude);
        let mut s: String = String::from_str("-");
        proof {
            reveal_strlit("-");
            assert("-"@ =~= seq!['-']);
        }
        s.append(digits.as_str());
        s
    } else {
        format_u64(n as u64)
    }
}

} // verus!
