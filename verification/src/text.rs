//! Text forms of the values that appear in a rendered scenario.

use unicode_casefold::UnicodeCaseFold;
use vstd::prelude::*;
use vstd::string::*;

verus! {

/// The character of a decimal digit.
pub open spec fn digit(value: int) -> char {
    if value == 0 {
        '0'
    } else if value == 1 {
        '1'
    } else if value == 2 {
        '2'
    } else if value == 3 {
        '3'
    } else if value == 4 {
        '4'
    } else if value == 5 {
        '5'
    } else if value == 6 {
        '6'
    } else if value == 7 {
        '7'
    } else if value == 8 {
        '8'
    } else {
        '9'
    }
}

/// The decimal numeral of `value`, without leading zeros.
pub open spec fn decimal(value: nat) -> Seq<char>
    decreases value,
{
    if value < 10 {
        seq![digit(value as int)]
    } else {
        decimal(value / 10).push(digit((value % 10) as int))
    }
}

/// The octet of `address` at `index`, counted from the most significant.
pub open spec fn octet(address: u32, index: int) -> nat {
    if index == 0 {
        (address / 0x100_0000) as nat
    } else if index == 1 {
        ((address / 0x1_0000) % 0x100) as nat
    } else if index == 2 {
        ((address / 0x100) % 0x100) as nat
    } else {
        (address % 0x100) as nat
    }
}

/// The dotted-decimal form of an IPv4 address.
pub open spec fn dotted_quad(address: u32) -> Seq<char> {
    decimal(octet(address, 0)) + seq!['.'] + decimal(octet(address, 1)) + seq!['.'] + decimal(
        octet(address, 2),
    ) + seq!['.'] + decimal(octet(address, 3))
}

/// The case-folded form of `text`.
pub uninterp spec fn case_folded(text: Seq<char>) -> Seq<char>;

/// Folds the case of `text` with `unicode_casefold`'s `case_fold`, and
/// collects the characters it yields. Trusted: the result depends on the
/// characters of `text` alone.
#[verifier::external_body]
pub(crate) fn case_fold(text: &str) -> (folded: String)
    ensures
        folded@ == case_folded(text@),
{
    text.case_fold().collect()
}

fn digit_text(value: u8) -> (text: &'static str)
    requires
        value < 10,
    ensures
        text@ == seq![digit(value as int)],
{
    proof {
        reveal_strlit("0");
        reveal_strlit("1");
        reveal_strlit("2");
        reveal_strlit("3");
        reveal_strlit("4");
        reveal_strlit("5");
        reveal_strlit("6");
        reveal_strlit("7");
        reveal_strlit("8");
        reveal_strlit("9");
    }
    let text = match value {
        0 => "0",
        1 => "1",
        2 => "2",
        3 => "3",
        4 => "4",
        5 => "5",
        6 => "6",
        7 => "7",
        8 => "8",
        _ => "9",
    };
    assert(text@ =~= seq![digit(value as int)]);
    text
}

/// Appends the decimal numeral of `value` to `text`.
fn append_decimal(text: &mut String, value: u8)
    ensures
        final(text)@ == old(text)@ + decimal(value as nat),
{
    reveal_with_fuel(decimal, 3);
    if value >= 100 {
        text.append(digit_text(value / 100));
    }
    if value >= 10 {
        text.append(digit_text((value / 10) % 10));
    }
    text.append(digit_text(value % 10));
    assert(text@ =~= old(text)@ + decimal(value as nat));
}

/// The dotted-decimal form of an IPv4 address.
pub fn format_address(address: u32) -> (text: String)
    ensures
        text@ == dotted_quad(address),
{
    proof {
        reveal_strlit(".");
    }
    let mut text = String::new();
    append_decimal(&mut text, (address / 0x100_0000) as u8);
    text.append(".");
    append_decimal(&mut text, ((address / 0x1_0000) % 0x100) as u8);
    text.append(".");
    append_decimal(&mut text, ((address / 0x100) % 0x100) as u8);
    text.append(".");
    append_decimal(&mut text, (address % 0x100) as u8);
    assert(text@ =~= dotted_quad(address));
    text
}

} // verus!
