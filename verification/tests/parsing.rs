//! The line parser against the three-way priority grammar.

use blang::operand::Operand;
use blang::parse::{parse_line, ParsedLine};

fn chars(s: &str) -> Vec<char> {
    s.chars().collect()
}

fn parse(s: &str) -> Result<ParsedLine, blang::errors::ErrorKind> {
    parse_line(&chars(s))
}

#[test]
fn parse_number_literal() {
    let got = parse("3.14").unwrap();
    assert_eq!(got, ParsedLine::Literal(Operand::Number(3.14f64.to_bits())));
}

#[test]
fn parse_negative_number_literal() {
    let got = parse("-2.5").unwrap();
    assert_eq!(got, ParsedLine::Literal(Operand::Number((-2.5f64).to_bits())));
}

#[test]
fn parse_exponent_number_literal() {
    let got = parse("1.5e3").unwrap();
    assert_eq!(got, ParsedLine::Literal(Operand::Number(1500.0f64.to_bits())));
}

#[test]
fn parse_call_without_args() {
    let got = parse(".dup").unwrap();
    match got {
        ParsedLine::Call { name, args } => {
            assert_eq!(name, chars("dup"));
            assert!(args.is_empty());
        }
        other => panic!("expected a call, got {:?}", other),
    }
}

#[test]
fn parse_call_with_args() {
    let got = parse(".add 1 2").unwrap();
    match got {
        ParsedLine::Call { name, args } => {
            assert_eq!(name, chars("add"));
            assert_eq!(args, vec![chars("1"), chars("2")]);
        }
        other => panic!("expected a call, got {:?}", other),
    }
}

#[test]
fn parse_call_strips_every_leading_marker() {
    let got = parse("..dup").unwrap();
    match got {
        ParsedLine::Call { name, .. } => assert_eq!(name, chars("dup")),
        other => panic!("expected a call, got {:?}", other),
    }
}

#[test]
fn parse_matrix_literal() {
    let got = parse("1 2 3; 4 5 6").unwrap();
    let want = vec![
        vec![1.0f64.to_bits(), 2.0f64.to_bits(), 3.0f64.to_bits()],
        vec![4.0f64.to_bits(), 5.0f64.to_bits(), 6.0f64.to_bits()],
    ];
    assert_eq!(got, ParsedLine::Literal(Operand::Matrix(want)));
}

#[test]
fn parse_single_row_matrix() {
    let got = parse("1 2 3").unwrap();
    let want = vec![vec![1.0f64.to_bits(), 2.0f64.to_bits(), 3.0f64.to_bits()]];
    assert_eq!(got, ParsedLine::Literal(Operand::Matrix(want)));
}

#[test]
fn parse_rejects_plain_text() {
    assert_eq!(parse("abc"), Err(blang::errors::ErrorKind::ParseError));
}

#[test]
fn parse_rejects_empty_buffer() {
    assert_eq!(parse(""), Err(blang::errors::ErrorKind::ParseError));
}

#[test]
fn parse_rejects_bare_marker() {
    assert_eq!(parse("."), Err(blang::errors::ErrorKind::ParseError));
    assert_eq!(parse(". "), Err(blang::errors::ErrorKind::ParseError));
}

#[test]
fn parse_marker_runs_yield_empty_names() {
    // Anything marker-led other than the bare marker is a call; a name
    // of nothing but markers strips to empty and the dispatcher will
    // report it unknown.
    match parse("..").unwrap() {
        ParsedLine::Call { name, args } => {
            assert!(name.is_empty());
            assert!(args.is_empty());
        }
        other => panic!("expected a call, got {:?}", other),
    }
    match parse(". x").unwrap() {
        ParsedLine::Call { name, args } => {
            assert!(name.is_empty());
            assert_eq!(args, vec![chars("x")]);
        }
        other => panic!("expected a call, got {:?}", other),
    }
}

#[test]
fn parse_literal_grammar_matches_reference_parsing() {
    // The engine's decimal grammar and special spellings agree with
    // the standard float parsing the reference used, token for token.
    let accepted = [
        "3.14", "-2.5", "+3", "-.5", "5.", "1e5", "1E5", "1e+5", "1e-5", "0", "007",
        "inf", "+inf", "-inf", "infinity", "INFINITY", "Infinity", "-iNfInItY", "nan", "NaN",
    ];
    for t in accepted {
        let want = t.parse::<f64>().unwrap();
        match parse(t).unwrap() {
            ParsedLine::Literal(Operand::Number(got)) => {
                assert_eq!(got, want.to_bits(), "token {:?}", t);
            }
            other => panic!("token {:?} gave {:?}", t, other),
        }
    }
}

#[test]
fn parse_rejects_nonstandard_float_spellings() {
    // Hexadecimal significands, dangling exponents and NaN payloads
    // are outside the standard float grammar.
    for t in ["0x1p3", "0x10", "1e", "1e+", "nan(12)", "snan", "in", "infinit", "1.2.3", "e5"] {
        assert_eq!(parse(t), Err(blang::errors::ErrorKind::ParseError), "token {:?}", t);
    }
}

#[test]
fn parse_matrix_accepts_special_words() {
    match parse("1 inf").unwrap() {
        ParsedLine::Literal(Operand::Matrix(m)) => {
            assert_eq!(m, vec![vec![1.0f64.to_bits(), f64::INFINITY.to_bits()]]);
        }
        other => panic!("expected a matrix, got {:?}", other),
    }
}

#[test]
fn parse_matrix_accepts_bare_fraction_tokens() {
    // `.5` alone would be a call (the marker has priority), but as a
    // row token it is an ordinary float literal.
    match parse("0 .5").unwrap() {
        ParsedLine::Literal(Operand::Matrix(m)) => {
            assert_eq!(m, vec![vec![0.0f64.to_bits(), 0.5f64.to_bits()]]);
        }
        other => panic!("expected a matrix, got {:?}", other),
    }
}

#[test]
fn parse_rejects_ragged_matrix() {
    assert_eq!(parse("1 2; 3"), Err(blang::errors::ErrorKind::ParseError));
}

#[test]
fn parse_rejects_empty_matrix_row() {
    assert_eq!(parse("1;;2"), Err(blang::errors::ErrorKind::ParseError));
    assert_eq!(parse("1 2;"), Err(blang::errors::ErrorKind::ParseError));
}

#[test]
fn parse_rejects_partly_numeric_row() {
    assert_eq!(parse("1 x 3"), Err(blang::errors::ErrorKind::ParseError));
}

#[test]
fn parse_number_priority_over_matrix() {
    // A single float is a scalar literal, never a one-by-one matrix.
    let got = parse("7").unwrap();
    assert_eq!(got, ParsedLine::Literal(Operand::Number(7.0f64.to_bits())));
}

#[test]
fn parse_leading_space_is_no_call() {
    // Only a buffer whose first character is the marker is a call.
    let got = parse(" .dup");
    assert_eq!(got, Err(blang::errors::ErrorKind::ParseError));
}
