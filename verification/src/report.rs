//! The lines of the report: one for each finding, as text.

use crate::gate::{Change, ChangeView};
use vstd::prelude::*;
use vstd::string::StringExecFns;

verus! {

/// The character of one decimal digit.
pub open spec fn digit(d: nat) -> char {
    if d == 0 {
        '0'
    } else if d == 1 {
        '1'
    } else if d == 2 {
        '2'
    } else if d == 3 {
        '3'
    } else if d == 4 {
        '4'
    } else if d == 5 {
        '5'
    } else if d == 6 {
        '6'
    } else if d == 7 {
        '7'
    } else if d == 8 {
        '8'
    } else {
        '9'
    }
}

/// A number written in decimal, without sign and without leading zeros.
pub open spec fn decimal(n: nat) -> Seq<char>
    decreases n,
{
    if n < 10 {
        seq![digit(n)]
    } else {
        decimal(n / 10).push(digit(n % 10))
    }
}

/// The line that reports one finding.
pub open spec fn line_of(change: ChangeView) -> Seq<char> {
    match change {
        ChangeView::Mismatch { name, stored, current } => "Hash mismatch for "@ + name
            + ": stored "@ + decimal(stored as nat) + ", current "@ + decimal(current as nat),
        ChangeView::Added { name, hash } => "New struct: "@ + name + " with hash "@ + decimal(
            hash as nat,
        ),
        ChangeView::Removed { name } => "Struct removed: "@ + name,
    }
}

fn digit_text(d: u32) -> (text: &'static str)
    requires
        d < 10,
    ensures
        text@ == seq![digit(d as nat)],
{
    proof {
        reveal_strlit("0");
        reveal_strlit("1");
        reveal_strlit("2");
        reveal_strlit("3");
        reveal_strlit("4");
        reveal_strlit("5");
        reveal_strlit("6");
        reveal_strlit("7");
        reveal_strlit("8");
        reveal_strlit("9");
    }
    let text = if d == 0 {
        "0"
    } else if d == 1 {
        "1"
    } else if d == 2 {
        "2"
    } else if d == 3 {
        "3"
    } else if d == 4 {
        "4"
    } else if d == 5 {
        "5"
    } else if d == 6 {
        "6"
    } else if d == 7 {
        "7"
    } else if d == 8 {
        "8"
    } else {
        "9"
    };
    assert(text@ =~= seq![digit(d as nat)]);
    text
}

/// Appends a number in decimal to a text.
pub fn push_decimal(text: &mut String, n: u32)
    ensures
        final(text)@ == old(text)@ + decimal(n as nat),
    decreases n,
{
    if n >= 10 {
        push_decimal(text, n / 10);
    }
    text.append(digit_text(n % 10));
    assert(text@ =~= old(text)@ + decimal(n as nat));
}

impl Change {
    /// The line that reports the finding.
    pub fn line(&self) -> (text: String)
        ensures
            text@ == line_of(self@),
    {
        match self {
            Change::Mismatch { name, stored, current } => {
                let mut text = String::from_str("Hash mismatch for ");
                text.append(name.as_str());
                text.append(": stored ");
                push_decimal(&mut text, *stored);
                text.append(", current ");
                push_decimal(&mut text, *current);
                text
            },
            Change::Added { name, hash } => {
                let mut text = String::from_str("New struct: ");
                text.append(name.as_str());
                text.append(" with hash ");
                push_decimal(&mut text, *hash);
                text
            },
            Change::Removed { name } => {
                let mut text = String::from_str("Struct removed: ");
                text.append(name.as_str());
                text
            },
        }
    }
}

} // verus!
