use input_loop::outcome::InputError;
use input_loop::text::{parse_signed, parse_unsigned, space, trimmed};

fn samples() -> Vec<String> {
    let mut all: Vec<String> = Vec::new();
    let cores = [
        "", "0", "7", "42", "-42", "+42", "-", "+", "--1", "+-1", "-+1", "++1", "007", "-007",
        "+0", "-0", "10", "11", "100", "101", "2147483647", "2147483648", "-2147483648",
        "-2147483649", "+2147483647", "+2147483648", "4294967295", "4294967296", "+4294967295",
        "-4294967295", "00000000000000000000000000000000000012", "-00000000000000000000002147483648",
        "99999999999999999999999999999999999999", "-99999999999999999999999999999999999999",
        "18446744073709551616", "12a", "a12", "1 2", "1\t2", "1_000", "1e3", "0x10", "1.0", "1,0",
        "٣", "１２", "²", "abc", "forty-two", " ", "4 ", "\u{a0}5", "5\u{3000}", "\u{feff}5",
        "5\u{200b}", "\u{85}6\u{2028}", "\u{1680}7\u{205f}", "8\u{0}", "\u{1c}9", "1\u{b}", "\u{c}2",
    ];
    let wraps = [
        ("", ""), ("", "\n"), ("", "\r\n"), (" ", " "), ("\t", "\n"), ("  ", ""), ("\n\n", "\n\n"),
        ("\u{2003}", "\u{2029}"), ("x", ""), ("", "x"),
    ];
    for core in cores.iter() {
        for (before, after) in wraps.iter() {
            all.push(format!("{}{}{}", before, core, after));
        }
    }
    all
}

#[test]
fn white_space_is_what_std_calls_white_space() {
    let mut seen = 0;
    for code in 0..=0x10FFFFu32 {
        if let Some(c) = char::from_u32(code) {
            assert_eq!(space(c), c.is_whitespace(), "character {:#x}", code);
            if space(c) {
                seen += 1;
            }
        }
    }
    assert_eq!(seen, 25);
}

#[test]
fn trimming_agrees_with_std() {
    for line in samples() {
        assert_eq!(trimmed(&line), line.trim(), "line {:?}", line);
    }
}

#[test]
fn trimming_drops_both_ends_and_keeps_the_middle() {
    assert_eq!(trimmed("  4 2 \n"), "4 2");
    assert_eq!(trimmed("42\n"), "42");
    assert_eq!(trimmed("\r\n"), "");
    assert_eq!(trimmed(""), "");
    assert_eq!(trimmed("x"), "x");
    assert_eq!(trimmed("\u{3000}é \u{a0}"), "é");
}

#[test]
fn signed_parsing_agrees_with_std() {
    for line in samples() {
        let expected = line.trim().parse::<i32>().map_err(|_| InputError::InvalidInput);
        assert_eq!(parse_signed(&line), expected, "line {:?}", line);
    }
}

#[test]
fn unsigned_parsing_agrees_with_std() {
    for line in samples() {
        let expected = line.trim().parse::<u32>().map_err(|_| InputError::InvalidInput);
        assert_eq!(parse_unsigned(&line), expected, "line {:?}", line);
    }
}

#[test]
fn signed_parsing_reads_the_number_written() {
    assert_eq!(parse_signed("5\n"), Ok(5));
    assert_eq!(parse_signed("  -17  "), Ok(-17));
    assert_eq!(parse_signed("+8"), Ok(8));
    assert_eq!(parse_signed("0012"), Ok(12));
    assert_eq!(parse_signed("-0"), Ok(0));
    assert_eq!(parse_signed("2147483647"), Ok(i32::MAX));
    assert_eq!(parse_signed("-2147483648"), Ok(i32::MIN));
}

#[test]
fn signed_parsing_refuses_what_is_no_i32() {
    for line in ["", "\n", "-", "+", "abc", "4 2", "12a", "2147483648", "-2147483649", "1.5", "--4"] {
        assert_eq!(parse_signed(line), Err(InputError::InvalidInput), "line {:?}", line);
    }
}

#[test]
fn unsigned_parsing_reads_the_number_written() {
    assert_eq!(parse_unsigned("42\n"), Ok(42));
    assert_eq!(parse_unsigned(" +7 "), Ok(7));
    assert_eq!(parse_unsigned("0"), Ok(0));
    assert_eq!(parse_unsigned("000100"), Ok(100));
    assert_eq!(parse_unsigned("4294967295"), Ok(u32::MAX));
}

#[test]
fn unsigned_parsing_refuses_what_is_no_u32() {
    for line in ["", "\n", "-1", "-0", "+", "abc", "4294967296", "1e2", "ten"] {
        assert_eq!(parse_unsigned(line), Err(InputError::InvalidInput), "line {:?}", line);
    }
}

#[test]
fn every_small_number_is_read_back() {
    for n in -2000..=2000 {
        assert_eq!(parse_signed(&format!("{}\n", n)), Ok(n));
        if n >= 0 {
            assert_eq!(parse_unsigned(&format!(" {} ", n)), Ok(n as u32));
        }
    }
}
