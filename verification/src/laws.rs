//! What holds of the cycle whatever the lines are.

use crate::cycle::{Rule, Transcript};
use crate::message::{decimal, decimal_digits, Message};
use crate::outcome::{InputError, LoopOutcome};
use crate::text::{
    all_digits, digits_value, is_space, parsed_signed, parsed_unsigned, signed_number, trim,
    trim_end, trim_start, unsigned_number,
};
use vstd::prelude::*;

verus! {

/// The cycle reads up to the first line that ends it and no further: every
/// line read before the last lets it go on, the last line read ends it where
/// any line does, and where none does every line is read.
pub proof fn reading_stops_at_the_first_end(rule: Rule, lines: Seq<Seq<char>>)
    ensures
        rule.lines_read(lines) <= lines.len(),
        forall|j: int|
            0 <= j < rule.lines_read(lines) - 1 ==> rule.outcome(#[trigger] lines[j])
                == LoopOutcome::Continue,
        rule.finishes(lines) ==> rule.lines_read(lines) >= 1 && rule.outcome(
            lines[rule.lines_read(lines) - 1],
        ) == LoopOutcome::Terminate,
        !rule.finishes(lines) ==> rule.lines_read(lines) == lines.len(),
    decreases lines.len(),
{
    if lines.len() == 0 {
    } else if rule.outcome(lines.first()) == LoopOutcome::Terminate {
    } else {
        let rest = lines.drop_first();
        reading_stops_at_the_first_end(rule, rest);
        assert forall|j: int| 0 <= j < rule.lines_read(lines) - 1 implies rule.outcome(
            #[trigger] lines[j],
        ) == LoopOutcome::Continue by {
            if j > 0 {
                assert(lines[j] == rest[j - 1]);
            }
        }
        if rule.finishes(lines) {
            let i = choose|i: int|
                0 <= i < lines.len() && rule.outcome(#[trigger] lines[i]) == LoopOutcome::Terminate;
            assert(rest[i - 1] == lines[i]);
            assert(rule.finishes(rest));
            assert(lines[rule.lines_read(lines) - 1] == rest[rule.lines_read(rest) - 1]);
        } else {
            assert forall|i: int| 0 <= i < rest.len() implies rule.outcome(#[trigger] rest[i])
                != LoopOutcome::Terminate by {
                assert(rest[i] == lines[i + 1]);
            }
        }
    }
}

/// What a run writes is its opening, then one turn for each line read, in the
/// order of the lines, and, where no line ended the cycle, one last prompt
/// with the diagnostic for the end of the input.
pub proof fn transcript_is_its_turns(rule: Rule, lines: Seq<Seq<char>>)
    ensures
        rule.transcript(lines) == rule.opening() + rule.turns(lines).flatten() + if rule.finishes(
            lines,
        ) {
            Seq::<Message>::empty()
        } else {
            seq![rule.prompt(), Message::Diagnostic(InputError::EndOfInput)]
        },
{
    exchange_is_its_turns(rule, lines);
}

/// The same from the first prompt on, by induction over the lines.
proof fn exchange_is_its_turns(rule: Rule, lines: Seq<Seq<char>>)
    ensures
        rule.exchange(lines) == rule.turns(lines).flatten() + if rule.finishes(lines) {
            Seq::<Message>::empty()
        } else {
            seq![rule.prompt(), Message::Diagnostic(InputError::EndOfInput)]
        },
    decreases lines.len(),
{
    let turns = rule.turns(lines);
    if lines.len() == 0 {
        assert(turns.flatten() == Seq::<Message>::empty());
    } else if rule.outcome(lines.first()) == LoopOutcome::Terminate {
        assert(rule.outcome(lines[0]) == LoopOutcome::Terminate);
        assert(turns == seq![rule.turn(lines.first())]);
        turns.lemma_flatten_one_element();
    } else {
        let rest = lines.drop_first();
        exchange_is_its_turns(rule, rest);
        reading_stops_at_the_first_end(rule, rest);
        assert(turns.first() == rule.turn(lines.first()));
        assert(turns.drop_first() == rule.turns(rest)) by {
            assert forall|i: int| 0 <= i < rule.turns(rest).len() implies turns.drop_first()[i]
                == rule.turns(rest)[i] by {
                assert(lines[i + 1] == rest[i]);
            }
        }
        if rule.finishes(lines) {
            let i = choose|i: int|
                0 <= i < lines.len() && rule.outcome(#[trigger] lines[i]) == LoopOutcome::Terminate;
            assert(rest[i - 1] == lines[i]);
        } else {
            assert forall|i: int| 0 <= i < rest.len() implies rule.outcome(#[trigger] rest[i])
                != LoopOutcome::Terminate by {
                assert(rest[i] == lines[i + 1]);
            }
        }
    }
}

/// After a line that does not end the cycle, the cycle asks again: what is
/// written is that line's turn and then whatever the lines after it bring,
/// which starts with the prompt.
pub proof fn cycle_asks_again(rule: Rule, line: Seq<char>, rest: Seq<Seq<char>>)
    requires
        rule.outcome(line) == LoopOutcome::Continue,
    ensures
        rule.exchange(seq![line] + rest) == rule.turn(line) + rule.exchange(rest),
        rule.exchange(rest).first() == rule.prompt(),
        rule.finishes(seq![line] + rest) == rule.finishes(rest),
        rule.lines_read(seq![line] + rest) == 1 + rule.lines_read(rest),
{
    let lines = seq![line] + rest;
    assert(lines.first() == line);
    assert(lines.drop_first() == rest);
    if rule.finishes(lines) {
        let i = choose|i: int|
            0 <= i < lines.len() && rule.outcome(#[trigger] lines[i]) == LoopOutcome::Terminate;
        assert(rest[i - 1] == lines[i]);
    }
    if rule.finishes(rest) {
        let i = choose|i: int|
            0 <= i < rest.len() && rule.outcome(#[trigger] rest[i]) == LoopOutcome::Terminate;
        assert(lines[i + 1] == rest[i]);
    }
}

/// A line that ends the cycle is the last one read: what is written is that
/// line's turn and nothing more, whatever lines come after it.
pub proof fn cycle_stops(rule: Rule, line: Seq<char>, rest: Seq<Seq<char>>)
    requires
        rule.outcome(line) == LoopOutcome::Terminate,
    ensures
        rule.exchange(seq![line] + rest) == rule.turn(line),
        rule.finishes(seq![line] + rest),
        rule.lines_read(seq![line] + rest) == 1,
{
    let lines = seq![line] + rest;
    assert(lines.first() == line);
    assert(lines[0] == line);
}

/// The counting prompt: a number above the threshold is turned away with the
/// one line that says so, and the cycle goes on; any other number ends the
/// cycle with exactly the integers from 1 up to it, itself left out, in
/// increasing order.
pub proof fn counting_law(threshold: i32, line: Seq<char>)
    requires
        parsed_signed(line) is Some,
    ensures
        ({
            let rule = Rule::BoundedRange { threshold };
            let value = parsed_signed(line)->0;
            if value > threshold {
                &&& rule.outcome(line) == LoopOutcome::Continue
                &&& rule.reply(line) == seq![
                    Message::AboveLimit { value: value as i32, limit: threshold },
                ]
            } else {
                &&& rule.outcome(line) == LoopOutcome::Terminate
                &&& rule.reply(line).len() == if value > 1 {
                    value - 1
                } else {
                    0
                }
                &&& forall|i: int|
                    0 <= i < rule.reply(line).len() ==> #[trigger] rule.reply(line)[i]
                        == Message::Number((i + 1) as i32)
            }
        }),
{
    reveal(Rule::reading);
}

/// The counting prompt ends exactly when some line writes a number that is
/// not above the threshold.
pub proof fn counting_ends_on_a_number_in_range(threshold: i32, lines: Seq<Seq<char>>)
    ensures
        (Rule::BoundedRange { threshold }).finishes(lines) <==> (exists|i: int|
            0 <= i < lines.len() && parsed_signed(#[trigger] lines[i]) is Some && parsed_signed(
                lines[i],
            )->0 <= threshold),
{
    reveal(Rule::reading);
    let rule = Rule::BoundedRange { threshold };
    if rule.finishes(lines) {
        let i = choose|i: int|
            0 <= i < lines.len() && rule.outcome(#[trigger] lines[i]) == LoopOutcome::Terminate;
        assert(parsed_signed(lines[i]) is Some && parsed_signed(lines[i])->0 <= threshold);
    }
    if exists|i: int|
        0 <= i < lines.len() && parsed_signed(#[trigger] lines[i]) is Some && parsed_signed(
            lines[i],
        )->0 <= threshold {
        let i = choose|i: int|
            0 <= i < lines.len() && parsed_signed(#[trigger] lines[i]) is Some && parsed_signed(
                lines[i],
            )->0 <= threshold;
        assert(rule.outcome(lines[i]) == LoopOutcome::Terminate);
    }
}

/// The guessing game ends exactly when some line writes the target. Every
/// line that writes another number is answered by the guess and exactly one
/// of "too small" and "too big", the first where the guess is below the
/// target and the second where it is above, and the game goes on.
pub proof fn guessing_law(target: u32, lines: Seq<Seq<char>>)
    ensures
        (Rule::Comparison { target }).finishes(lines) <==> (exists|i: int|
            0 <= i < lines.len() && parsed_unsigned(#[trigger] lines[i]) == Some(target as int)),
        forall|i: int|
            0 <= i < lines.len() && parsed_unsigned(#[trigger] lines[i]) is Some ==> ({
                let rule = Rule::Comparison { target };
                let guess = parsed_unsigned(lines[i])->0;
                &&& guess < target ==> rule.outcome(lines[i]) == LoopOutcome::Continue
                    && rule.reply(lines[i]) == seq![
                    Message::Guessed(guess as u32),
                    Message::TooSmall,
                ]
                &&& guess > target ==> rule.outcome(lines[i]) == LoopOutcome::Continue
                    && rule.reply(lines[i]) == seq![Message::Guessed(guess as u32), Message::TooBig]
                &&& guess == target ==> rule.outcome(lines[i]) == LoopOutcome::Terminate
                    && rule.reply(lines[i]) == seq![Message::Guessed(guess as u32), Message::Equal]
            }),
{
    reveal(Rule::reading);
    let rule = Rule::Comparison { target };
    if rule.finishes(lines) {
        let i = choose|i: int|
            0 <= i < lines.len() && rule.outcome(#[trigger] lines[i]) == LoopOutcome::Terminate;
        assert(parsed_unsigned(lines[i]) == Some(target as int));
    }
    if exists|i: int|
        0 <= i < lines.len() && parsed_unsigned(#[trigger] lines[i]) == Some(target as int) {
        let i = choose|i: int|
            0 <= i < lines.len() && parsed_unsigned(#[trigger] lines[i]) == Some(target as int);
        assert(rule.outcome(lines[i]) == LoopOutcome::Terminate);
    }
}

/// A line that writes no integer of the expected type is answered by the one
/// diagnostic for invalid input and changes nothing: the cycle asks again
/// under the same rule, and goes on with the lines that follow as it would
/// have without that line.
pub proof fn invalid_line_law(rule: Rule, line: Seq<char>, rest: Seq<Seq<char>>)
    requires
        rule.reading(line) is None,
    ensures
        rule.reply(line) == seq![Message::Diagnostic(InputError::InvalidInput)],
        rule.outcome(line) == LoopOutcome::Continue,
        rule.exchange(seq![line] + rest) == seq![
            rule.prompt(),
            Message::Diagnostic(InputError::InvalidInput),
        ] + rule.exchange(rest),
        rule.finishes(seq![line] + rest) == rule.finishes(rest),
{
    cycle_asks_again(rule, line, rest);
}

/// Two runs under the same rule over the same lines write the same, read the
/// same number of lines and end the same way.
pub proof fn same_lines_same_run(
    rule: Rule,
    lines: Seq<Seq<char>>,
    first: Transcript,
    second: Transcript,
)
    requires
        first.is_run_of(rule, lines),
        second.is_run_of(rule, lines),
    ensures
        first.emitted@ == second.emitted@,
        first.consumed == second.consumed,
        first.ending == second.ending,
{
}

/// The digits of a number are one or more, digits only, and write that number.
proof fn digits_write_their_number(n: nat)
    ensures
        decimal_digits(n).len() > 0,
        all_digits(decimal_digits(n)),
        digits_value(decimal_digits(n)) == n,
    decreases n,
{
    if n < 10 {
        let s = decimal_digits(n);
        assert(s.drop_last() == Seq::<char>::empty());
        assert(digits_value(s.drop_last()) == 0);
    } else {
        digits_write_their_number(n / 10);
        let s = decimal_digits(n);
        assert(s.drop_last() == decimal_digits(n / 10));
    }
}

/// The decimal text of an integer, read as a line, gives that integer back:
/// it has no white space to drop, and the grammar reads it as written.
pub proof fn decimal_reads_back(n: int)
    ensures
        trim(decimal(n)) == decimal(n),
        signed_number(decimal(n)) == Some(n),
        n >= 0 ==> unsigned_number(decimal(n)) == Some(n),
        i32::MIN <= n <= i32::MAX ==> parsed_signed(decimal(n)) == Some(n),
        0 <= n <= u32::MAX ==> parsed_unsigned(decimal(n)) == Some(n),
{
    let s = decimal(n);
    if n < 0 {
        digits_write_their_number((-n) as nat);
        assert(s.drop_first() == decimal_digits((-n) as nat));
        assert(s.last() == decimal_digits((-n) as nat).last());
    } else {
        digits_write_their_number(n as nat);
    }
    assert(!is_space(s.first()));
    assert(!is_space(s.last()));
    assert(trim_start(s) == s);
    assert(trim_end(s) == s);
}

} // verus!
