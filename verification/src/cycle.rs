//! The cycle itself: ask, read a line, parse it, act on the integer, and ask
//! again or stop.

use crate::message::Message;
use crate::outcome::{InputError, LoopOutcome};
use crate::text::{parse_signed, parse_unsigned, parsed_signed, parsed_unsigned};
use vstd::prelude::*;

verus! {

/// What the cycle does with the integer that it has read.
#[derive(Clone, Copy, Debug, PartialEq, Eq, Structural)]
pub enum Rule {
    /// Reads an `i32`. A number above the threshold is turned away; any other
    /// is counted up to, and the cycle stops.
    BoundedRange { threshold: i32 },
    /// Reads a `u32` and says how it stands to the target; the cycle stops
    /// when the two are equal.
    Comparison { target: u32 },
}

/// What the cycle does for one line.
#[derive(Debug, PartialEq, Eq)]
pub struct Step {
    /// The lines to write, in order.
    pub emitted: Vec<Message>,
    /// Whether another line is to be read.
    pub outcome: LoopOutcome,
}

/// A whole run of the cycle over the lines that a source holds.
#[derive(Debug, PartialEq, Eq)]
pub struct Transcript {
    /// Every line written, in order.
    pub emitted: Vec<Message>,
    /// How many lines were taken from the source.
    pub consumed: usize,
    /// `Ok` where the cycle stopped by its rule, `EndOfInput` where the source
    /// ran dry first.
    pub ending: Result<(), InputError>,
}

impl Transcript {
    /// Whether this is what the cycle under `rule` makes of `lines`.
    pub open spec fn is_run_of(self, rule: Rule, lines: Seq<Seq<char>>) -> bool {
        &&& self.emitted@ =~= rule.transcript(lines)
        &&& self.consumed == rule.lines_read(lines)
        &&& self.ending == if rule.finishes(lines) {
            Ok::<(), InputError>(())
        } else {
            Err::<(), InputError>(InputError::EndOfInput)
        }
    }
}

/// The threshold of the counting exercise.
pub const COUNTING_THRESHOLD: i32 = 10;

/// The integers from 1 up to `bound`, `bound` itself left out, in increasing
/// order and each as a line.
pub open spec fn counting(bound: int) -> Seq<Message> {
    Seq::new(
        if bound > 1 {
            (bound - 1) as nat
        } else {
            0
        },
        |i: int| Message::Number((i + 1) as i32),
    )
}

impl Rule {
    /// The line that asks for input.
    pub open spec fn prompt(self) -> Message {
        match self {
            Rule::BoundedRange { threshold } => Message::AskBelow(threshold),
            Rule::Comparison { .. } => Message::AskGuess,
        }
    }

    /// What is written before the first prompt.
    pub open spec fn opening(self) -> Seq<Message> {
        match self {
            Rule::BoundedRange { .. } => Seq::empty(),
            Rule::Comparison { .. } => seq![Message::Greeting],
        }
    }

    /// The integer that the rule reads in `line`, if `line` writes one of the
    /// type that the rule expects.
    #[verifier::opaque]
    pub open spec fn reading(self, line: Seq<char>) -> Option<int> {
        match self {
            Rule::BoundedRange { .. } => parsed_signed(line),
            Rule::Comparison { .. } => parsed_unsigned(line),
        }
    }

    /// What is written in answer to `line`.
    pub open spec fn reply(self, line: Seq<char>) -> Seq<Message> {
        match (self, self.reading(line)) {
            (_, None) => seq![Message::Diagnostic(InputError::InvalidInput)],
            (Rule::BoundedRange { threshold }, Some(value)) => if value > threshold {
                seq![Message::AboveLimit { value: value as i32, limit: threshold }]
            } else {
                counting(value)
            },
            (Rule::Comparison { target }, Some(guess)) => seq![
                Message::Guessed(guess as u32),
                if guess < target {
                    Message::TooSmall
                } else if guess > target {
                    Message::TooBig
                } else {
                    Message::Equal
                },
            ],
        }
    }

    /// Whether the cycle goes on after `line`.
    pub open spec fn outcome(self, line: Seq<char>) -> LoopOutcome {
        match (self, self.reading(line)) {
            (Rule::BoundedRange { threshold }, Some(value)) if value <= threshold => {
                LoopOutcome::Terminate
            },
            (Rule::Comparison { target }, Some(guess)) if guess == target => LoopOutcome::Terminate,
            _ => LoopOutcome::Continue,
        }
    }

    /// What is written from the first prompt on, when the source holds `lines`.
    pub open spec fn exchange(self, lines: Seq<Seq<char>>) -> Seq<Message>
        decreases lines.len(),
    {
        if lines.len() == 0 {
            seq![self.prompt(), Message::Diagnostic(InputError::EndOfInput)]
        } else if self.outcome(lines.first()) == LoopOutcome::Terminate {
            seq![self.prompt()] + self.reply(lines.first())
        } else {
            seq![self.prompt()] + self.reply(lines.first()) + self.exchange(lines.drop_first())
        }
    }

    /// Everything that is written when the source holds `lines`.
    pub open spec fn transcript(self, lines: Seq<Seq<char>>) -> Seq<Message> {
        self.opening() + self.exchange(lines)
    }

    /// Whether some line of `lines` brings the cycle to its end.
    pub open spec fn finishes(self, lines: Seq<Seq<char>>) -> bool {
        exists|i: int|
            0 <= i < lines.len() && self.outcome(#[trigger] lines[i]) == LoopOutcome::Terminate
    }

    /// How many of `lines` are read: all of them, or those up to and with the
    /// first that ends the cycle.
    pub open spec fn lines_read(self, lines: Seq<Seq<char>>) -> nat
        decreases lines.len(),
    {
        if lines.len() == 0 {
            0
        } else if self.outcome(lines.first()) == LoopOutcome::Terminate {
            1
        } else {
            1 + self.lines_read(lines.drop_first())
        }
    }

    /// What is written for one line that is read: the prompt, then the reply.
    pub open spec fn turn(self, line: Seq<char>) -> Seq<Message> {
        seq![self.prompt()] + self.reply(line)
    }

    /// The turns of the lines that are read, in order.
    pub open spec fn turns(self, lines: Seq<Seq<char>>) -> Seq<Seq<Message>> {
        Seq::new(self.lines_read(lines), |i: int| self.turn(lines[i]))
    }

    /// The line that asks for input.
    pub fn prompt_message(&self) -> (message: Message)
        ensures
            message == self.prompt(),
    {
        match self {
            Rule::BoundedRange { threshold } => Message::AskBelow(*threshold),
            Rule::Comparison { .. } => Message::AskGuess,
        }
    }

    /// What is written before the first prompt.
    pub fn opening_messages(&self) -> (messages: Vec<Message>)
        ensures
            messages@ == self.opening(),
    {
        let mut messages: Vec<Message> = Vec::new();
        match self {
            Rule::BoundedRange { .. } => {},
            Rule::Comparison { .. } => {
                messages.push(Message::Greeting);
            },
        }
        messages
    }

    /// Parses `line` and acts on it. A line that is no integer of the expected
    /// type gets the one diagnostic, and the cycle goes on.
    pub fn respond(&self, line: &str) -> (step: Step)
        ensures
            step.emitted@ == self.reply(line@),
            step.outcome == self.outcome(line@),
    {
        let mut emitted: Vec<Message> = Vec::new();
        proof {
            reveal(Rule::reading);
        }
        match self {
            Rule::BoundedRange { threshold } => {
                match parse_signed(line) {
                    Err(_) => {
                        emitted.push(Message::Diagnostic(InputError::InvalidInput));
                        Step { emitted, outcome: LoopOutcome::Continue }
                    },
                    Ok(number) => {
                        if number > *threshold {
                            emitted.push(Message::AboveLimit { value: number, limit: *threshold });
                            Step { emitted, outcome: LoopOutcome::Continue }
                        } else {
                            let mut i: i32 = 1;
                            while i < number
                                invariant
                                    1 <= i,
                                    i <= number || i == 1,
                                    emitted@ == counting(i as int),
                                decreases number - i,
                            {
                                emitted.push(Message::Number(i));
                                i += 1;
                            }
                            Step { emitted, outcome: LoopOutcome::Terminate }
                        }
                    },
                }
            },
            Rule::Comparison { target } => {
                match parse_unsigned(line) {
                    Err(_) => {
                        emitted.push(Message::Diagnostic(InputError::InvalidInput));
                        Step { emitted, outcome: LoopOutcome::Continue }
                    },
                    Ok(guess) => {
                        emitted.push(Message::Guessed(guess));
                        if guess < *target {
                            emitted.push(Message::TooSmall);
                            Step { emitted, outcome: LoopOutcome::Continue }
                        } else if guess > *target {
                            emitted.push(Message::TooBig);
                            Step { emitted, outcome: LoopOutcome::Continue }
                        } else {
                            emitted.push(Message::Equal);
                            Step { emitted, outcome: LoopOutcome::Terminate }
                        }
                    },
                }
            },
        }
    }

    /// One pass of the cycle on what the line source gave: `None` where it had
    /// nothing more, which ends the cycle with `EndOfInput`.
    pub fn next(&self, reading: Option<&str>) -> (step: Result<Step, InputError>)
        ensures
            reading is None ==> (step matches Err(error) && error == InputError::EndOfInput),
            reading matches Some(line) ==> (step matches Ok(taken) && taken.emitted@
                == self.reply(line@) && taken.outcome == self.outcome(line@)),
    {
        match reading {
            None => Err(InputError::EndOfInput),
            Some(line) => Ok(self.respond(line)),
        }
    }

    /// Runs the cycle over `lines`, taking them in order until the rule ends
    /// it or none is left.
    pub fn run(&self, lines: &Vec<String>) -> (transcript: Transcript)
        ensures
            transcript.is_run_of(*self, lines.deep_view()),
    {
        let ghost all = lines.deep_view();
        let mut emitted = self.opening_messages();
        let mut i: usize = 0;
        assert(all.skip(0) == all);
        while i < lines.len()
            invariant
                i <= lines.len(),
                all == lines.deep_view(),
                self.transcript(all) == emitted@ + self.exchange(all.skip(i as int)),
                self.lines_read(all) == i + self.lines_read(all.skip(i as int)),
                forall|j: int|
                    0 <= j < i ==> self.outcome(#[trigger] all[j]) == LoopOutcome::Continue,
            decreases lines.len() - i,
        {
            let ghost rest = all.skip(i as int);
            assert(rest.first() == lines@[i as int]@);
            assert(rest.drop_first() == all.skip(i + 1));
            emitted.push(self.prompt_message());
            let mut step = self.respond(lines[i].as_str());
            emitted.append(&mut step.emitted);
            match step.outcome {
                LoopOutcome::Terminate => {
                    assert(self.outcome(all[i as int]) == LoopOutcome::Terminate);
                    return Transcript { emitted, consumed: i + 1, ending: Ok(()) };
                },
                LoopOutcome::Continue => {},
            }
            i += 1;
        }
        emitted.push(self.prompt_message());
        emitted.push(Message::Diagnostic(InputError::EndOfInput));
        Transcript { emitted, consumed: i, ending: Err(InputError::EndOfInput) }
    }
}

/// Reads the one integer that an exercise without a second chance asks for.
/// Nothing is asked again: a line that is no `i32` is `InvalidInput`, and a
/// source with nothing to give is `EndOfInput`.
pub fn read_once(reading: Option<&str>) -> (number: Result<i32, InputError>)
    ensures
        number == match reading {
            None => Err::<i32, InputError>(InputError::EndOfInput),
            Some(line) => match parsed_signed(line@) {
                Some(value) => Ok::<i32, InputError>(value as i32),
                None => Err::<i32, InputError>(InputError::InvalidInput),
            },
        },
{
    match reading {
        None => Err(InputError::EndOfInput),
        Some(line) => parse_signed(line),
    }
}

} // verus!
