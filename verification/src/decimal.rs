//! Decimal text of integers.

use vstd::prelude::*;
use vstd::string::StringExecFns;

verus! {

/// The character of one decimal digit.
pub open spec fn digit_char(d: nat) -> char {
    (('0' as u32) + d) as char
}

/// A natural number in decimal, without leading zeros.
pub open spec fn decimal(n: nat) -> Seq<char>
    decreases n,
{
    if n < 10 {
        seq![digit_char(n)]
    } else {
        decimal(n / 10).push(digit_char(n % 10))
    }
}

/// An integer in decimal, with a minus sign in front of a negative one.
pub open spec fn signed_decimal(n: int) -> Seq<char> {
    if n < 0 {
        "-"@ + decimal((-n) as nat)
    } else {
        decimal(n as nat)
    }
}

/// A number of tenths with its one decimal.
pub open spec fn one_decimal(t: nat) -> Seq<char> {
    decimal(t / 10) + "."@ + decimal(t % 10)
}

fn digit_str(d: u128) -> (r: &'static str)
    requires
        d < 10,
    ensures
        r@ == seq![digit_char(d as nat)],
{
    proof {
        reveal_strlit("0");
        reveal_strlit("1");
        reveal_strlit("2");
        reveal_strlit("3");
        reveal_strlit("4");
        reveal_strlit("5");
        reveal_strlit("6");
        reveal_strlit("7");
        reveal_strlit("8");
        reveal_strlit("9");
    }
    if d == 0 {
        "0"
    } else if d == 1 {
        "1"
    } else if d == 2 {
        "2"
    } else if d == 3 {
        "3"
    } else if d == 4 {
        "4"
    } else if d == 5 {
        "5"
    } else if d == 6 {
        "6"
    } else if d == 7 {
        "7"
    } else if d == 8 {
        "8"
    } else {
        "9"
    }
}

/// Writes a natural number in decimal.
pub fn decimal_text(n: u128) -> (r: String)
    ensures
        r@ == decimal(n as nat),
    decreases n,
{
    if n < 10 {
        digit_str(n).to_string()
    } else {
        let mut text = decimal_text(n / 10);
        text.append(digit_str(n % 10));
        text
    }
}

/// Writes an integer in decimal.
pub fn signed_decimal_text(n: i64) -> (r: String)
    ensures
        r@ == signed_decimal(n as int),
{
    if n < 0 {
        let mut text = "-".to_string();
        text.append(decimal_text((-(n as i128)) as u128).as_str());
        text
    } else {
        decimal_text(n as u128)
    }
}

/// Writes a number of tenths with its one decimal.
pub fn one_decimal_text(t: u128) -> (r: String)
    ensures
        r@ == one_decimal(t as nat),
{
    let mut text = decimal_text(t / 10);
    text.append(".");
    text.append(decimal_text(t % 10).as_str());
    text
}

/// The number that a text of decimal digits stands for.
pub open spec fn value(text: Seq<char>) -> int
    decreases text.len(),
{
    if text.len() == 0 {
        0
    } else {
        10 * value(text.drop_last()) + (text.last() as int - '0' as int)
    }
}

/// A text that consists of decimal digits, with no zero in front but of a single
/// digit.
pub open spec fn is_plain(text: Seq<char>) -> bool {
    &&& text.len() > 0
    &&& forall|i: int| 0 <= i < text.len() ==> '0' <= #[trigger] text[i] <= '9'
    &&& text.len() > 1 ==> text[0] != '0'
}

/// A natural number in decimal is plain digits, and these stand for the number.
pub proof fn law_decimal_reads_back(n: nat)
    ensures
        is_plain(decimal(n)),
        value(decimal(n)) == n,
        n > 0 ==> decimal(n)[0] != '0',
    decreases n,
{
    let text = decimal(n);
    if n < 10 {
        assert(text.drop_last() =~= Seq::<char>::empty());
        assert(value(text.drop_last()) == 0);
    } else {
        law_decimal_reads_back(n / 10);
        assert(text.drop_last() =~= decimal(n / 10));
    }
}

/// A negative number has a minus sign in front of its magnitude, and no other has
/// one.
pub proof fn law_signed_decimal_reads_back(n: int)
    ensures
        n >= 0 ==> is_plain(signed_decimal(n)) && value(signed_decimal(n)) == n,
        n < 0 ==> {
            let text = signed_decimal(n);
            text[0] == '-' && is_plain(text.skip(1)) && value(text.skip(1)) == -n
        },
{
    if n < 0 {
        reveal_strlit("-");
        law_decimal_reads_back((-n) as nat);
        assert(signed_decimal(n).skip(1) =~= decimal((-n) as nat));
    } else {
        law_decimal_reads_back(n as nat);
    }
}

/// A number of tenths is shown as plain digits, a point, and one digit; and
/// without the point the digits stand for the number of tenths.
pub proof fn law_one_decimal_reads_back(t: nat)
    ensures
        ({
            let text = one_decimal(t);
            let point = text.len() - 2;
            &&& point > 0 && text[point] == '.'
            &&& is_plain(text.take(point)) && is_plain(text.skip(point + 1))
            &&& 10 * value(text.take(point)) + value(text.skip(point + 1)) == t
        }),
{
    reveal_strlit(".");
    law_decimal_reads_back(t / 10);
    law_decimal_reads_back(t % 10);
    let text = one_decimal(t);
    let point = text.len() - 2;
    assert(text.take(point) =~= decimal(t / 10));
    assert(text.skip(point + 1) =~= decimal(t % 10));
}

} // verus!
