//! The dispatcher, the arithmetic and the renderings, on concrete
//! values.

use blang::arith::multiply;
use blang::dispatch::dispatch;
use blang::errors::ErrorKind;
use blang::operand::Operand;
use blang::render::{format_number, format_operand, format_operand_compact};

fn chars(s: &str) -> Vec<char> {
    s.chars().collect()
}

fn num(x: f64) -> Operand {
    Operand::Number(x.to_bits())
}

fn mat(rows: &[&[f64]]) -> Operand {
    Operand::Matrix(
        rows.iter()
            .map(|r| r.iter().map(|x| x.to_bits()).collect())
            .collect(),
    )
}

fn call(name: &str, stack: &mut Vec<Operand>) -> Result<(), ErrorKind> {
    dispatch(&chars(name), &Vec::new(), stack)
}

#[test]
fn add_pops_two_pushes_sum() {
    let a = 1.5f64;
    let b = 2.25f64;
    let mut stack = vec![num(a), num(b)];
    call("add", &mut stack).unwrap();
    assert_eq!(stack, vec![num(a + b)]);
}

#[test]
fn add_leaves_lower_stack_alone() {
    let mut stack = vec![mat(&[&[9.0]]), num(0.1), num(0.2)];
    call("add", &mut stack).unwrap();
    assert_eq!(stack, vec![mat(&[&[9.0]]), num(0.1 + 0.2)]);
}

#[test]
fn add_underflow_on_empty_stack() {
    let mut stack: Vec<Operand> = Vec::new();
    assert_eq!(call("add", &mut stack), Err(ErrorKind::StackUnderflow));
    assert_eq!(stack.len(), 0);
}

#[test]
fn add_underflow_on_one_operand() {
    let mut stack = vec![num(1.0)];
    assert_eq!(call("add", &mut stack), Err(ErrorKind::StackUnderflow));
    assert_eq!(stack, vec![num(1.0)]);
}

#[test]
fn add_type_mismatch_keeps_operands() {
    let mut stack = vec![num(1.0), mat(&[&[2.0]])];
    assert_eq!(call("add", &mut stack), Err(ErrorKind::TypeMismatch));
    assert_eq!(stack, vec![num(1.0), mat(&[&[2.0]])]);

    let mut stack = vec![mat(&[&[2.0]]), num(1.0)];
    assert_eq!(call("add", &mut stack), Err(ErrorKind::TypeMismatch));
    assert_eq!(stack, vec![mat(&[&[2.0]]), num(1.0)]);
}

#[test]
fn dup_pushes_equal_value() {
    let mut stack = vec![num(4.25)];
    call("dup", &mut stack).unwrap();
    assert_eq!(stack, vec![num(4.25), num(4.25)]);
}

#[test]
fn dup_underflow_on_empty_stack() {
    let mut stack: Vec<Operand> = Vec::new();
    assert_eq!(call("dup", &mut stack), Err(ErrorKind::StackUnderflow));
    assert_eq!(stack.len(), 0);
}

#[test]
fn dup_copy_is_deep() {
    let mut stack = vec![mat(&[&[1.0, 2.0], &[3.0, 4.0]])];
    call("dup", &mut stack).unwrap();
    assert_eq!(stack[0], stack[1]);
    // Mutating the copy must not touch the original.
    if let Operand::Matrix(m) = &mut stack[1] {
        m[0][0] = 99.0f64.to_bits();
    }
    assert_eq!(stack[0], mat(&[&[1.0, 2.0], &[3.0, 4.0]]));
    assert_eq!(stack[1], mat(&[&[99.0, 2.0], &[3.0, 4.0]]));
}

#[test]
fn unknown_function_is_reported() {
    let mut stack = vec![num(1.0)];
    assert_eq!(call("nope", &mut stack), Err(ErrorKind::UnknownFunction));
    assert_eq!(stack, vec![num(1.0)]);
}

#[test]
fn registry_names_are_exact() {
    let mut stack = vec![num(1.0), num(2.0)];
    assert_eq!(call("Add", &mut stack), Err(ErrorKind::UnknownFunction));
    assert_eq!(call("add ", &mut stack), Err(ErrorKind::UnknownFunction));
    assert_eq!(stack.len(), 2);
}

#[test]
fn multiply_numbers() {
    let got = multiply(num(2.5), num(4.0)).unwrap();
    assert_eq!(got, num(10.0));
}

#[test]
fn multiply_matrix_product() {
    let got = multiply(
        mat(&[&[1.0, 2.0], &[3.0, 4.0]]),
        mat(&[&[5.0, 6.0], &[7.0, 8.0]]),
    )
    .unwrap();
    assert_eq!(got, mat(&[&[19.0, 22.0], &[43.0, 50.0]]));
}

#[test]
fn multiply_scalar_broadcast() {
    let got = multiply(num(2.0), mat(&[&[1.0, 2.0], &[3.0, 4.0]])).unwrap();
    assert_eq!(got, mat(&[&[2.0, 4.0], &[6.0, 8.0]]));

    let got = multiply(mat(&[&[1.0, 2.0], &[3.0, 4.0]]), num(2.0)).unwrap();
    assert_eq!(got, mat(&[&[2.0, 4.0], &[6.0, 8.0]]));
}

#[test]
fn multiply_dimension_mismatch() {
    let a = mat(&[&[1.0, 2.0, 3.0], &[4.0, 5.0, 6.0]]);
    let b = mat(&[&[1.0, 2.0], &[3.0, 4.0]]);
    assert_eq!(multiply(a, b), Err(ErrorKind::DimensionMismatch));
}

#[test]
fn multiply_rectangular_but_incompatible() {
    let a = mat(&[&[1.0, 2.0]]);
    let b = mat(&[&[1.0, 2.0]]);
    assert_eq!(multiply(a, b), Err(ErrorKind::DimensionMismatch));
}

#[test]
fn multiply_empty_operand() {
    let a = Operand::Matrix(Vec::new());
    let b = mat(&[&[1.0]]);
    assert_eq!(multiply(a, b), Err(ErrorKind::EmptyOperand));
    let a = mat(&[&[1.0]]);
    let b = Operand::Matrix(Vec::new());
    assert_eq!(multiply(a, b), Err(ErrorKind::EmptyOperand));
}

#[test]
fn duplicate_is_independent() {
    let original = mat(&[&[1.0, 2.0]]);
    let mut copy = original.duplicate();
    assert_eq!(copy, original);
    if let Operand::Matrix(m) = &mut copy {
        m[0][1] = 0;
    }
    assert_eq!(original, mat(&[&[1.0, 2.0]]));
}

#[test]
fn number_renders_with_two_decimals() {
    assert_eq!(format_number(3.14f64.to_bits()), "3.14");
    assert_eq!(format_number(7.0f64.to_bits()), "7.00");
    assert_eq!(format_number((0.1f64 + 0.2f64).to_bits()), "0.30");
    assert_eq!(format_number((-2.5f64).to_bits()), "-2.50");
    assert_eq!(format_number(1234.567f64.to_bits()), "1234.57");
}

#[test]
fn number_rendering_rounds_the_exact_value() {
    // Near-half hundredths round by the exact binary value, never by
    // a pre-rounded product: 0.005 is stored slightly above five
    // thousandths, 0.015 and 2.675 slightly below their halves.
    assert_eq!(format_number(0.005f64.to_bits()), "0.01");
    assert_eq!(format_number(0.015f64.to_bits()), "0.01");
    assert_eq!(format_number(2.675f64.to_bits()), "2.67");
    // A stored exact tie rounds to even.
    assert_eq!(format_number(0.125f64.to_bits()), "0.12");
    assert_eq!(format_number(0.375f64.to_bits()), "0.38");
}

#[test]
fn number_rendering_matches_reference_formatting() {
    let samples = [
        0.0,
        -0.0,
        0.005,
        0.015,
        2.675,
        1.0 / 3.0,
        -1234.5678,
        1e20,
        1.7e36,
        1e300,
        f64::MAX,
        f64::MIN_POSITIVE,
        5e-324,
        -5e-324,
        f64::NAN,
        f64::INFINITY,
        f64::NEG_INFINITY,
    ];
    for &x in &samples {
        assert_eq!(format_number(x.to_bits()), format!("{:.2}", x), "value {:?}", x);
    }
}

#[test]
fn number_rendering_round_trips_at_two_decimals() {
    // Formatting, re-parsing as a literal and formatting again is
    // stable: equal to the first rendering, though not bit-exact.
    for &x in &[3.14f64, 1.0 / 3.0, -0.125, 1234.5678] {
        let first = format_number(x.to_bits());
        let reparsed = match blang::parse::parse_line(&first.chars().collect()) {
            Ok(blang::parse::ParsedLine::Literal(Operand::Number(b))) => b,
            other => panic!("rendering {:?} did not reparse: {:?}", first, other),
        };
        assert_eq!(format_number(reparsed), first);
    }
}

#[test]
fn non_finite_numbers_render() {
    assert_eq!(format_number(f64::NAN.to_bits()), "NaN");
    assert_eq!(format_number(f64::INFINITY.to_bits()), "inf");
    assert_eq!(format_number(f64::NEG_INFINITY.to_bits()), "-inf");
}

#[test]
fn compact_rendering_labels_dimensions() {
    let one = mat(&[&[1.0, 2.0, 3.0]]);
    assert_eq!(format_operand_compact(&one), "1D Array [3 elements]");
    let two = mat(&[&[4.0, 5.0, 6.0], &[7.0, 8.0, 9.0]]);
    assert_eq!(format_operand_compact(&two), "2D Array [2x3 elements]");
    assert_eq!(format_operand_compact(&num(3.14)), "3.14");
}

#[test]
fn expanded_rendering_joins_cells() {
    let one = mat(&[&[1.0, 2.0, 3.0]]);
    assert_eq!(format_operand(&one), "[1.00, 2.00, 3.00]");
    let two = mat(&[&[4.0, 5.0, 6.0], &[7.0, 8.0, 9.0]]);
    assert_eq!(format_operand(&two), "4.00, 5.00, 6.00; 7.00, 8.00, 9.00");
    assert_eq!(format_operand(&num(-1.0)), "-1.00");
}
