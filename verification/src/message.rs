//! The lines that the exercises write, as values and as text.

use crate::outcome::InputError;
use vstd::prelude::*;
use vstd::string::StringExecFns;

verus! {

/// The character that writes the digit `d`.
pub open spec fn digit_char(d: nat) -> char {
    if d == 0 {
        '0'
    } else if d == 1 {
        '1'
    } else if d == 2 {
        '2'
    } else if d == 3 {
        '3'
    } else if d == 4 {
        '4'
    } else if d == 5 {
        '5'
    } else if d == 6 {
        '6'
    } else if d == 7 {
        '7'
    } else if d == 8 {
        '8'
    } else {
        '9'
    }
}

/// The digits of `n` in base ten, the most significant first, with no
/// leading zero but for zero itself.
pub open spec fn decimal_digits(n: nat) -> Seq<char>
    decreases n,
{
    if n < 10 {
        seq![digit_char(n)]
    } else {
        decimal_digits(n / 10).push(digit_char(n % 10))
    }
}

/// The decimal text of `n`: a `-` before the digits of a negative number.
pub open spec fn decimal(n: int) -> Seq<char> {
    if n < 0 {
        seq!['-'] + decimal_digits((-n) as nat)
    } else {
        decimal_digits(n as nat)
    }
}

/// The text of one digit.
fn digit_text(d: u64) -> (text: &'static str)
    requires
        d < 10,
    ensures
        text@ == seq![digit_char(d as nat)],
{
    proof {
        reveal_strlit("0");
        reveal_strlit("1");
        reveal_strlit("2");
        reveal_strlit("3");
        reveal_strlit("4");
        reveal_strlit("5");
        reveal_strlit("6");
        reveal_strlit("7");
        reveal_strlit("8");
        reveal_strlit("9");
    }
    if d == 0 {
        "0"
    } else if d == 1 {
        "1"
    } else if d == 2 {
        "2"
    } else if d == 3 {
        "3"
    } else if d == 4 {
        "4"
    } else if d == 5 {
        "5"
    } else if d == 6 {
        "6"
    } else if d == 7 {
        "7"
    } else if d == 8 {
        "8"
    } else {
        "9"
    }
}

/// Writes the digits of `n` at the end of `out`.
fn write_digits(out: &mut String, n: u64)
    ensures
        final(out)@ == old(out)@ + decimal_digits(n as nat),
    decreases n,
{
    if n >= 10 {
        write_digits(out, n / 10);
    }
    out.append(digit_text(n % 10));
}

/// The decimal text of `n`.
pub fn decimal_text(n: i64) -> (text: String)
    ensures
        text@ == decimal(n as int),
{
    let mut text = String::new();
    if n < 0 {
        proof {
            reveal_strlit("-");
        }
        text.append("-");
        write_digits(&mut text, (-(n as i128)) as u64);
    } else {
        write_digits(&mut text, n as u64);
    }
    text
}

/// One line of what an exercise writes.
#[derive(Clone, Copy, Debug, PartialEq, Eq, Structural)]
pub enum Message {
    /// Opens the guessing game.
    Greeting,
    /// Asks for a guess.
    AskGuess,
    /// Asks for a number, naming the limit.
    AskBelow(i32),
    /// Asks how many terms of the series are wanted.
    AskSize,
    /// Stands above the terms of the series.
    SeriesHeading,
    /// An integer on a line of its own.
    Number(i32),
    /// Repeats the guess that was read.
    Guessed(u32),
    /// The guess is below the target.
    TooSmall,
    /// The guess is above the target.
    TooBig,
    /// The guess is the target.
    Equal,
    /// The number read is above the limit.
    AboveLimit { value: i32, limit: i32 },
    /// A reading gave no integer.
    Diagnostic(InputError),
}

impl Message {
    /// The text of the line.
    pub open spec fn wording(self) -> Seq<char> {
        match self {
            Message::Greeting => "Guess the number"@,
            Message::AskGuess => "Please input your guess"@,
            Message::AskBelow(limit) => "Enter a number below "@ + decimal(limit as int),
            Message::AskSize => "Enter size of fibonacci series required"@,
            Message::SeriesHeading => "The fibonacci series are: "@,
            Message::Number(value) => decimal(value as int),
            Message::Guessed(guess) => "You guessed: "@ + decimal(guess as int),
            Message::TooSmall => "Too small"@,
            Message::TooBig => "Too big"@,
            Message::Equal => "Numbers are Equal"@,
            Message::AboveLimit { value, limit } => decimal(value as int) + " is greater than "@
                + decimal(limit as int) + ", enter again!"@,
            Message::Diagnostic(error) => error.wording(),
        }
    }

    /// The text of the line.
    pub fn text(&self) -> (text: String)
        ensures
            text@ == self.wording(),
    {
        match self {
            Message::Greeting => String::from_str("Guess the number"),
            Message::AskGuess => String::from_str("Please input your guess"),
            Message::AskBelow(limit) => {
                let number = decimal_text(*limit as i64);
                String::from_str("Enter a number below ").concat(number.as_str())
            },
            Message::AskSize => String::from_str("Enter size of fibonacci series required"),
            Message::SeriesHeading => String::from_str("The fibonacci series are: "),
            Message::Number(value) => decimal_text(*value as i64),
            Message::Guessed(guess) => {
                let number = decimal_text(*guess as i64);
                String::from_str("You guessed: ").concat(number.as_str())
            },
            Message::TooSmall => String::from_str("Too small"),
            Message::TooBig => String::from_str("Too big"),
            Message::Equal => String::from_str("Numbers are Equal"),
            Message::AboveLimit { value, limit } => {
                let bound = decimal_text(*limit as i64);
                let mut text = decimal_text(*value as i64);
                text.append(" is greater than ");
                text.append(bound.as_str());
                text.append(", enter again!");
                text
            },
            Message::Diagnostic(error) => error.text(),
        }
    }
}

} // verus!
