//! Text building: comparison, joining and the decimal and hexadecimal writing
//! of numbers, over the character sequence that a string denotes.
use vstd::prelude::*;
use vstd::string::*;

verus! {

/// Whether two texts hold the same characters.
pub fn same_text(left: &str, right: &str) -> (same: bool)
    ensures
        same == (left@ == right@),
{
    left.to_owned() == right.to_owned()
}

/// Whether two optional texts are both absent, or both present and equal.
pub fn same_optional(left: &Option<String>, right: &Option<String>) -> (same: bool)
    ensures
        same == (left.deep_view() == right.deep_view()),
{
    match (left, right) {
        (None, None) => true,
        (Some(left), Some(right)) => *left == *right,
        _ => false,
    }
}

/// A copy of an optional text.
pub fn copy_optional(value: &Option<String>) -> (copy: Option<String>)
    ensures
        copy.deep_view() == value.deep_view(),
{
    match value {
        Some(value) => Some(value.clone()),
        None => None,
    }
}

/// The characters of a text.
pub fn characters(text: &str) -> (chars: Vec<char>)
    ensures
        chars@ == text@,
{
    let mut chars: Vec<char> = Vec::new();
    for c in it: text.chars()
        invariant
            it.seq() == text@,
            chars@ == text@.subrange(0, it.index() as int),
    {
        proof {
            assert(text@.subrange(0, it.index() + 1) =~= text@.subrange(
                0,
                it.index() as int,
            ).push(text@[it.index() as int]));
        }
        chars.push(c);
    }
    assert(text@.subrange(0, text@.len() as int) =~= text@);
    chars
}

/// Adds a text to a list.
pub fn push_text(list: &mut Vec<String>, text: &str)
    ensures
        final(list).deep_view() == old(list).deep_view().push(text@),
{
    let ghost before = list.deep_view();
    list.push(text.to_owned());
    proof {
        assert(list.deep_view() =~= before.push(text@));
    }
}

/// Two texts, one after the other.
pub fn cat2(a: &str, b: &str) -> (joined: String)
    ensures
        joined@ == a@ + b@,
{
    let mut joined = a.to_owned();
    joined.append(b);
    joined
}

/// Three texts, one after the other.
pub fn cat3(a: &str, b: &str, c: &str) -> (joined: String)
    ensures
        joined@ == a@ + b@ + c@,
{
    let mut joined = cat2(a, b);
    joined.append(c);
    joined
}

/// Four texts, one after the other.
pub fn cat4(a: &str, b: &str, c: &str, d: &str) -> (joined: String)
    ensures
        joined@ == a@ + b@ + c@ + d@,
{
    let mut joined = cat3(a, b, c);
    joined.append(d);
    joined
}

/// Five texts, one after the other.
pub fn cat5(a: &str, b: &str, c: &str, d: &str, e: &str) -> (joined: String)
    ensures
        joined@ == a@ + b@ + c@ + d@ + e@,
{
    let mut joined = cat4(a, b, c, d);
    joined.append(e);
    joined
}

/// The character that stands for one hexadecimal digit, in lower case.
pub open spec fn digit(value: int) -> char {
    if value == 0 {
        '0'
    } else if value == 1 {
        '1'
    } else if value == 2 {
        '2'
    } else if value == 3 {
        '3'
    } else if value == 4 {
        '4'
    } else if value == 5 {
        '5'
    } else if value == 6 {
        '6'
    } else if value == 7 {
        '7'
    } else if value == 8 {
        '8'
    } else if value == 9 {
        '9'
    } else if value == 10 {
        'a'
    } else if value == 11 {
        'b'
    } else if value == 12 {
        'c'
    } else if value == 13 {
        'd'
    } else if value == 14 {
        'e'
    } else {
        'f'
    }
}

/// Different digits are written by different characters.
pub proof fn lemma_digit_is_injective(a: int, b: int)
    requires
        0 <= a < 16,
        0 <= b < 16,
        digit(a) == digit(b),
    ensures
        a == b,
{
}

/// The text of one hexadecimal digit.
pub fn digit_text(value: u64) -> (text: &'static str)
    requires
        value < 16,
    ensures
        text@ == seq![digit(value as int)],
{
    proof {
        reveal_strlit("0");
        reveal_strlit("1");
        reveal_strlit("2");
        reveal_strlit("3");
        reveal_strlit("4");
        reveal_strlit("5");
        reveal_strlit("6");
        reveal_strlit("7");
        reveal_strlit("8");
        reveal_strlit("9");
        reveal_strlit("a");
        reveal_strlit("b");
        reveal_strlit("c");
        reveal_strlit("d");
        reveal_strlit("e");
        reveal_strlit("f");
    }
    match value {
        0 => "0",
        1 => "1",
        2 => "2",
        3 => "3",
        4 => "4",
        5 => "5",
        6 => "6",
        7 => "7",
        8 => "8",
        9 => "9",
        10 => "a",
        11 => "b",
        12 => "c",
        13 => "d",
        14 => "e",
        _ => "f",
    }
}

/// The decimal writing of a natural number, without leading zeros.
pub open spec fn decimal_text(value: nat) -> Seq<char>
    decreases value,
{
    if value < 10 {
        seq![digit(value as int)]
    } else {
        decimal_text(value / 10).push(digit((value % 10) as int))
    }
}

/// The decimal writing of an integer: a minus sign where it is negative.
pub open spec fn signed_text(value: int) -> Seq<char> {
    if value < 0 {
        "-"@ + decimal_text((-value) as nat)
    } else {
        decimal_text(value as nat)
    }
}

/// Writes a number in decimal.
pub fn decimal(value: u64) -> (text: String)
    ensures
        text@ == decimal_text(value as nat),
    decreases value,
{
    if value < 10 {
        digit_text(value).to_owned()
    } else {
        let mut text = decimal(value / 10);
        text.append(digit_text(value % 10));
        text
    }
}

/// Writes a signed number in decimal.
pub fn signed_decimal(value: i64) -> (text: String)
    ensures
        text@ == signed_text(value as int),
{
    if value >= 0 {
        decimal(value as u64)
    } else if value == i64::MIN {
        cat2("-", &decimal(0x8000_0000_0000_0000u64))
    } else {
        cat2("-", &decimal((-value) as u64))
    }
}

/// A number is written in digits only.
pub proof fn lemma_decimal_is_digits(value: nat)
    ensures
        decimal_text(value).len() > 0,
        forall|i: int|
            0 <= i < decimal_text(value).len() ==> '0' <= #[trigger] decimal_text(value)[i]
                && decimal_text(value)[i] <= '9',
    decreases value,
{
    if value >= 10 {
        lemma_decimal_is_digits(value / 10);
    }
}

/// The number that decimal digits stand for.
pub open spec fn decimal_value(text: Seq<char>) -> int
    decreases text.len(),
{
    if text.len() == 0 {
        0
    } else {
        10 * decimal_value(text.drop_last()) + (text.last() as int - '0' as int)
    }
}

/// A number is written in decimal digits that stand for it, the first of which is a
/// zero only where it is the only one.
pub proof fn law_decimals_read_back(value: nat)
    ensures
        decimal_value(decimal_text(value)) == value,
        decimal_text(value).len() > 0,
        forall|i: int|
            0 <= i < decimal_text(value).len() ==> '0' <= #[trigger] decimal_text(value)[i]
                && decimal_text(value)[i] <= '9',
        decimal_text(value)[0] == '0' ==> decimal_text(value).len() == 1,
    decreases value,
{
    reveal_with_fuel(decimal_value, 2);
    lemma_decimal_is_digits(value);
    if value >= 10 {
        law_decimals_read_back(value / 10);
        assert(decimal_text(value).drop_last() =~= decimal_text(value / 10));
        if decimal_text(value)[0] == '0' {
            assert(decimal_text(value / 10)[0] == '0');
            assert(decimal_value(decimal_text(value / 10)) == 0) by {
                assert(decimal_text(value / 10).drop_last() =~= Seq::empty());
            }
        }
    } else {
        assert(decimal_text(value).drop_last() =~= Seq::empty());
    }
}

/// An integer is written as its absolute value is, with a minus sign before it where
/// it is negative.
pub proof fn law_signed_decimals_read_back(value: int)
    ensures
        value >= 0 ==> signed_text(value).len() > 0 && signed_text(value)[0] != '-'
            && decimal_value(signed_text(value)) == value,
        value < 0 ==> signed_text(value).len() > 1 && signed_text(value)[0] == '-'
            && decimal_value(signed_text(value).skip(1)) == -value,
{
    reveal_strlit("-");
    if value < 0 {
        law_decimals_read_back((-value) as nat);
        assert(signed_text(value).skip(1) =~= decimal_text((-value) as nat));
    } else {
        law_decimals_read_back(value as nat);
    }
}

} // verus!
