//! Numbers and lists of names as text.

use vstd::prelude::*;

verus! {

/// The character of a decimal digit.
pub open spec fn digit(d: nat) -> char {
    seq!['0', '1', '2', '3', '4', '5', '6', '7', '8', '9'][d as int]
}

/// A number in decimal notation, without leading zeros.
pub open spec fn decimal(n: nat) -> Seq<char>
    decreases n,
{
    if n < 10 {
        seq![digit(n)]
    } else {
        decimal(n / 10).push(digit(n % 10))
    }
}

fn digit_text(d: u64) -> (r: &'static str)
    requires
        d < 10,
    ensures
        r@ == seq![digit(d as nat)],
{
    proof {
        reveal_strlit("0");
        reveal_strlit("1");
        reveal_strlit("2");
        reveal_strlit("3");
        reveal_strlit("4");
        reveal_strlit("5");
        reveal_strlit("6");
        reveal_strlit("7");
        reveal_strlit("8");
        reveal_strlit("9");
    }
    let text = if d == 0 {
        "0"
    } else if d == 1 {
        "1"
    } else if d == 2 {
        "2"
    } else if d == 3 {
        "3"
    } else if d == 4 {
        "4"
    } else if d == 5 {
        "5"
    } else if d == 6 {
        "6"
    } else if d == 7 {
        "7"
    } else if d == 8 {
        "8"
    } else {
        "9"
    };
    assert(text@ =~= seq![digit(d as nat)]);
    text
}

/// Writes `n` in decimal notation.
pub fn decimal_string(n: u64) -> (r: String)
    ensures
        r@ == decimal(n as nat),
{
    let mut text = String::from_str(digit_text(n % 10));
    let mut rest: u64 = n / 10;
    while rest > 0
        invariant
            rest > 0 ==> decimal(n as nat) == decimal(rest as nat) + text@,
            rest == 0 ==> decimal(n as nat) == text@,
        decreases rest,
    {
        let mut longer = String::from_str(digit_text(rest % 10));
        longer.append(text.as_str());
        proof {
            let digits = seq![digit((rest % 10) as nat)];
            if rest < 10 {
                assert(decimal(rest as nat) + text@ =~= digits + text@);
            } else {
                assert(decimal(rest as nat) + text@ =~= decimal((rest / 10) as nat) + (digits
                    + text@));
            }
        }
        text = longer;
        rest = rest / 10;
    }
    text
}

/// Whether two texts are the same.
pub fn same_text(a: &str, b: &str) -> (r: bool)
    ensures
        r == (a@ == b@),
{
    String::from_str(a) == String::from_str(b)
}

/// The text that `std` writes for a list of strings where `{:?}` stands in a
/// format string: the strings between square brackets, each in double quotes
/// with its special characters escaped, a comma and a space between them.
pub uninterp spec fn debug_text(names: Seq<Seq<char>>) -> Seq<char>;

/// Formats a list of strings with `format!` and `{:?}`, that is with the
/// `Debug` impls of `Vec` and `String`. The contract claims that the text is a
/// function of the strings alone, and gives it the name `debug_text`.
#[verifier::external_body]
pub(crate) fn debug_string(names: &Vec<String>) -> (r: String)
    ensures
        r@ == debug_text(names.deep_view()),
{
    format!("{:?}", names)
}

} // verus!
