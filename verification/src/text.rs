//! Lines of text as integers: trimming and the decimal grammar.

use crate::outcome::InputError;
use vstd::prelude::*;

verus! {

/// Whether `c` is white space: a character with the Unicode property
/// `White_Space`.
pub open spec fn is_space(c: char) -> bool {
    let code = c as u32;
    ||| 0x09 <= code <= 0x0D
    ||| code == 0x20
    ||| code == 0x85
    ||| code == 0xA0
    ||| code == 0x1680
    ||| 0x2000 <= code <= 0x200A
    ||| code == 0x2028
    ||| code == 0x2029
    ||| code == 0x202F
    ||| code == 0x205F
    ||| code == 0x3000
}

/// `s` without the white space at its start.
pub open spec fn trim_start(s: Seq<char>) -> Seq<char>
    decreases s.len(),
{
    if s.len() > 0 && is_space(s.first()) {
        trim_start(s.drop_first())
    } else {
        s
    }
}

/// `s` without the white space at its end.
pub open spec fn trim_end(s: Seq<char>) -> Seq<char>
    decreases s.len(),
{
    if s.len() > 0 && is_space(s.last()) {
        trim_end(s.drop_last())
    } else {
        s
    }
}

/// `s` without the white space at either end.
pub open spec fn trim(s: Seq<char>) -> Seq<char> {
    trim_end(trim_start(s))
}

/// Where what `trim_start` keeps begins: all before it is white space, and
/// what stands there is not.
proof fn trim_start_bound(s: Seq<char>) -> (from: int)
    ensures
        0 <= from <= s.len(),
        trim_start(s) == s.subrange(from, s.len() as int),
        forall|i: int| 0 <= i < from ==> is_space(#[trigger] s[i]),
        from < s.len() ==> !is_space(s[from]),
    decreases s.len(),
{
    if s.len() > 0 && is_space(s.first()) {
        let rest = s.drop_first();
        let inner = trim_start_bound(rest);
        assert(rest.subrange(inner, rest.len() as int) == s.subrange(inner + 1, s.len() as int));
        assert forall|i: int| 0 <= i < inner + 1 implies is_space(#[trigger] s[i]) by {
            if i > 0 {
                assert(s[i] == rest[i - 1]);
            }
        }
        assert(inner < rest.len() ==> s[inner + 1] == rest[inner]);
        inner + 1
    } else {
        assert(s.subrange(0, s.len() as int) == s);
        0
    }
}

/// Where what `trim_end` keeps ends: all from there on is white space, and
/// what stands just before is not.
proof fn trim_end_bound(s: Seq<char>) -> (to: int)
    ensures
        0 <= to <= s.len(),
        trim_end(s) == s.subrange(0, to),
        forall|i: int| to <= i < s.len() ==> is_space(#[trigger] s[i]),
        0 < to ==> !is_space(s[to - 1]),
    decreases s.len(),
{
    if s.len() > 0 && is_space(s.last()) {
        let rest = s.drop_last();
        let inner = trim_end_bound(rest);
        assert(rest.subrange(0, inner) == s.subrange(0, inner));
        assert forall|i: int| inner <= i < s.len() implies is_space(#[trigger] s[i]) by {
            if i < rest.len() {
                assert(s[i] == rest[i]);
            }
        }
        assert(0 < inner ==> s[inner - 1] == rest[inner - 1]);
        inner
    } else {
        assert(s.subrange(0, s.len() as int) == s);
        s.len() as int
    }
}

/// Trimming keeps one stretch of the line, from `bounds.0` up to `bounds.1`:
/// all before it and all after it is white space, and the stretch itself
/// neither starts nor ends with white space.
pub proof fn trim_keeps_the_middle(s: Seq<char>) -> (bounds: (int, int))
    ensures
        0 <= bounds.0 <= bounds.1 <= s.len(),
        trim(s) == s.subrange(bounds.0, bounds.1),
        forall|i: int| 0 <= i < bounds.0 ==> is_space(#[trigger] s[i]),
        forall|i: int| bounds.1 <= i < s.len() ==> is_space(#[trigger] s[i]),
        bounds.0 < bounds.1 ==> !is_space(s[bounds.0]) && !is_space(s[bounds.1 - 1]),
{
    let from = trim_start_bound(s);
    let kept = s.subrange(from, s.len() as int);
    let to = trim_end_bound(kept);
    assert(kept.subrange(0, to) == s.subrange(from, from + to));
    assert forall|i: int| from + to <= i < s.len() implies is_space(#[trigger] s[i]) by {
        assert(s[i] == kept[i - from]);
    }
    if to > 0 {
        assert(kept[to - 1] == s[from + to - 1]);
        assert(kept[0] == s[from]);
    }
    (from, from + to)
}

/// Decides `is_space`.
pub fn space(c: char) -> (yes: bool)
    ensures
        yes == is_space(c),
{
    let code: u32 = c as u32;
    (0x09 <= code && code <= 0x0D) || code == 0x20 || code == 0x85 || code == 0xA0 || code
        == 0x1680 || (0x2000 <= code && code <= 0x200A) || code == 0x2028 || code == 0x2029 || code
        == 0x202F || code == 0x205F || code == 0x3000
}

/// The characters of `text`, in order.
fn chars_of(text: &str) -> (chars: Vec<char>)
    ensures
        chars@ == text@,
{
    let mut chars: Vec<char> = Vec::new();
    for c in it: text.chars()
        invariant
            it.seq() == text@,
            chars@ == it.seq().take(it.index() as int),
    {
        chars.push(c);
    }
    chars
}

/// Where the trimmed part of `chars` starts and ends.
fn trim_bounds(chars: &Vec<char>) -> (bounds: (usize, usize))
    ensures
        bounds.0 <= bounds.1 <= chars@.len(),
        chars@.subrange(bounds.0 as int, bounds.1 as int) == trim(chars@),
{
    let len: usize = chars.len();
    let mut start: usize = 0;
    assert(chars@.subrange(0, len as int) == chars@);
    while start < len && space(chars[start])
        invariant
            start <= len,
            len == chars@.len(),
            trim_start(chars@) == trim_start(chars@.subrange(start as int, len as int)),
        decreases len - start,
    {
        assert(chars@.subrange(start as int, len as int).drop_first() == chars@.subrange(
            start + 1,
            len as int,
        ));
        start += 1;
    }
    let mut end: usize = len;
    while start < end && space(chars[end - 1])
        invariant
            start <= end <= len,
            len == chars@.len(),
            trim(chars@) == trim_end(chars@.subrange(start as int, end as int)),
        decreases end - start,
    {
        assert(chars@.subrange(start as int, end as int).drop_last() == chars@.subrange(
            start as int,
            end - 1,
        ));
        end -= 1;
    }
    (start, end)
}

/// The line without the white space at either end.
pub fn trimmed<'a>(line: &'a str) -> (inner: &'a str)
    ensures
        inner@ == trim(line@),
{
    let chars = chars_of(line);
    let (start, end) = trim_bounds(&chars);
    line.substring_char(start, end)
}

/// Whether `c` is one of the ten decimal digits.
pub open spec fn is_digit(c: char) -> bool {
    0x30 <= c as u32 <= 0x39
}

/// What the digit `c` counts for; zero for any other character.
pub open spec fn digit_value(c: char) -> nat {
    if is_digit(c) {
        (c as u32 - 0x30) as nat
    } else {
        0
    }
}

/// Whether `s` holds decimal digits only.
pub open spec fn all_digits(s: Seq<char>) -> bool {
    forall|i: int| 0 <= i < s.len() ==> is_digit(#[trigger] s[i])
}

/// The number that the digits of `s` write in base ten.
pub open spec fn digits_value(s: Seq<char>) -> nat
    decreases s.len(),
{
    if s.len() == 0 {
        0
    } else {
        10 * digits_value(s.drop_last()) + digit_value(s.last())
    }
}

/// The number written by `s`, where `s` is one digit or more and nothing else.
pub open spec fn magnitude(s: Seq<char>) -> Option<nat> {
    if s.len() > 0 && all_digits(s) {
        Some(digits_value(s))
    } else {
        None
    }
}

/// The integer written by `s`: an optional `+` or `-`, then digits.
pub open spec fn signed_number(s: Seq<char>) -> Option<int> {
    if s.len() > 0 && s.first() == '-' {
        match magnitude(s.drop_first()) {
            Some(m) => Some(-(m as int)),
            None => None,
        }
    } else {
        unsigned_number(s)
    }
}

/// The integer written by `s`: an optional `+`, then digits.
pub open spec fn unsigned_number(s: Seq<char>) -> Option<int> {
    let digits = if s.len() > 0 && s.first() == '+' {
        s.drop_first()
    } else {
        s
    };
    match magnitude(digits) {
        Some(m) => Some(m as int),
        None => None,
    }
}

/// The `i32` that `line` writes once trimmed, if it writes one.
pub open spec fn parsed_signed(line: Seq<char>) -> Option<int> {
    match signed_number(trim(line)) {
        Some(v) => if i32::MIN <= v <= i32::MAX {
            Some(v)
        } else {
            None
        },
        None => None,
    }
}

/// The `u32` that `line` writes once trimmed, if it writes one.
pub open spec fn parsed_unsigned(line: Seq<char>) -> Option<int> {
    match unsigned_number(trim(line)) {
        Some(v) => if v <= u32::MAX {
            Some(v)
        } else {
            None
        },
        None => None,
    }
}

/// A number never gets smaller when more digits are written after it.
proof fn digits_value_grows(s: Seq<char>, k: int)
    requires
        0 <= k <= s.len(),
    ensures
        digits_value(s.take(k)) <= digits_value(s),
    decreases s.len(),
{
    if k == s.len() {
        assert(s.take(k) == s);
    } else {
        assert(s.drop_last().take(k) == s.take(k));
        digits_value_grows(s.drop_last(), k);
    }
}

/// The number written by the characters from `from` up to `to`, if they are
/// digits and the number is at most `limit`.
fn magnitude_of(chars: &Vec<char>, from: usize, to: usize, limit: u64) -> (found: Option<u64>)
    requires
        from <= to <= chars@.len(),
        limit <= u32::MAX,
    ensures
        found == match magnitude(chars@.subrange(from as int, to as int)) {
            Some(m) => if m <= limit {
                Some(m as u64)
            } else {
                None
            },
            None => None,
        },
{
    let ghost digits = chars@.subrange(from as int, to as int);
    if from == to {
        return None;
    }
    let mut total: u64 = 0;
    let mut i: usize = from;
    while i < to
        invariant
            from <= i <= to <= chars@.len(),
            limit <= u32::MAX,
            digits == chars@.subrange(from as int, to as int),
            all_digits(digits.take(i - from)),
            total == digits_value(digits.take(i - from)),
            total <= limit,
        decreases to - i,
    {
        let code: u32 = chars[i] as u32;
        if code < 0x30 || code > 0x39 {
            assert(!is_digit(digits[i - from]));
            return None;
        }
        proof {
            let longer = digits.take(i - from + 1);
            assert(longer.drop_last() == digits.take(i - from));
            assert(longer.last() == chars@[i as int]);
            assert forall|j: int| 0 <= j < longer.len() implies is_digit(#[trigger] longer[j]) by {
                if j < i - from {
                    assert(digits.take(i - from)[j] == longer[j]);
                }
            }
        }
        total = total * 10 + (code - 0x30) as u64;
        if total > limit {
            proof {
                digits_value_grows(digits, i - from + 1);
            }
            return None;
        }
        i += 1;
    }
    assert(digits.take(to - from) == digits);
    Some(total)
}

/// Reads `line` as an `i32`: white space at either end is dropped, and what is
/// left must be an optional sign and decimal digits that write a number in
/// range. Any other line is `InvalidInput`.
pub fn parse_signed(line: &str) -> (parsed: Result<i32, InputError>)
    ensures
        parsed == match parsed_signed(line@) {
            Some(v) => Ok::<i32, InputError>(v as i32),
            None => Err::<i32, InputError>(InputError::InvalidInput),
        },
{
    let chars = chars_of(line);
    let (start, end) = trim_bounds(&chars);
    let ghost inner = chars@.subrange(start as int, end as int);
    let negative: bool = start < end && chars[start] == '-';
    let signed: bool = start < end && (chars[start] == '-' || chars[start] == '+');
    let from: usize = if signed {
        start + 1
    } else {
        start
    };
    assert(signed ==> inner.drop_first() == chars@.subrange(from as int, end as int));
    assert(start < end ==> inner.first() == chars@[start as int]);
    match magnitude_of(&chars, from, end, 0x8000_0000) {
        None => Err(InputError::InvalidInput),
        Some(m) => {
            if negative {
                Ok((-(m as i64)) as i32)
            } else if m <= 0x7FFF_FFFF {
                Ok(m as i32)
            } else {
                Err(InputError::InvalidInput)
            }
        },
    }
}

/// Reads `line` as a `u32`: white space at either end is dropped, and what is
/// left must be an optional `+` and decimal digits that write a number in
/// range. Any other line is `InvalidInput`.
pub fn parse_unsigned(line: &str) -> (parsed: Result<u32, InputError>)
    ensures
        parsed == match parsed_unsigned(line@) {
            Some(v) => Ok::<u32, InputError>(v as u32),
            None => Err::<u32, InputError>(InputError::InvalidInput),
        },
{
    let chars = chars_of(line);
    let (start, end) = trim_bounds(&chars);
    let ghost inner = chars@.subrange(start as int, end as int);
    let signed: bool = start < end && chars[start] == '+';
    let from: usize = if signed {
        start + 1
    } else {
        start
    };
    assert(signed ==> inner.drop_first() == chars@.subrange(from as int, end as int));
    assert(start < end ==> inner.first() == chars@[start as int]);
    match magnitude_of(&chars, from, end, 0xFFFF_FFFF) {
        None => Err(InputError::InvalidInput),
        Some(m) => Ok(m as u32),
    }
}

} // verus!
