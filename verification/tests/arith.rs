use rustviz::ast::{BinOp, UnOp};
use rustviz::eval::{apply_binary, apply_unary, int_checked, short_circuit};
use rustviz::event::Value;
use rustviz::span::{FileId, Span};
use rustviz::typeck::{binary_op_ty, IntKind, Ty};

fn iv(kind: IntKind, bits: i128) -> Value {
    Value::Int { kind, bits }
}

#[test]
fn integer_arithmetic_in_range() {
    assert_eq!(apply_binary(BinOp::Add, iv(IntKind::I32, 2), iv(IntKind::I32, 3)), Ok(iv(IntKind::I32, 5)));
    assert_eq!(apply_binary(BinOp::Sub, iv(IntKind::I64, 2), iv(IntKind::I64, 9)), Ok(iv(IntKind::I64, -7)));
    assert_eq!(apply_binary(BinOp::Mul, iv(IntKind::U8, 15), iv(IntKind::U8, 17)), Ok(iv(IntKind::U8, 255)));
}

#[test]
fn division_truncates_toward_zero() {
    assert_eq!(apply_binary(BinOp::Div, iv(IntKind::I32, -7), iv(IntKind::I32, 2)), Ok(iv(IntKind::I32, -3)));
    assert_eq!(apply_binary(BinOp::Div, iv(IntKind::I32, 7), iv(IntKind::I32, -2)), Ok(iv(IntKind::I32, -3)));
    assert_eq!(apply_binary(BinOp::Rem, iv(IntKind::I32, -7), iv(IntKind::I32, 2)), Ok(iv(IntKind::I32, -1)));
    assert_eq!(apply_binary(BinOp::Rem, iv(IntKind::I32, 7), iv(IntKind::I32, -2)), Ok(iv(IntKind::I32, 1)));
}

#[test]
fn overflow_is_a_runtime_error() {
    assert_eq!(
        apply_binary(BinOp::Add, iv(IntKind::I8, 127), iv(IntKind::I8, 1)),
        Err("i8 overflow in add".to_string())
    );
    assert_eq!(
        apply_binary(BinOp::Sub, iv(IntKind::U32, 0), iv(IntKind::U32, 1)),
        Err("u32 overflow in subtract".to_string())
    );
    assert_eq!(
        apply_binary(BinOp::Mul, iv(IntKind::I128, i128::MAX), iv(IntKind::I128, 2)),
        Err("i128 overflow in multiply".to_string())
    );
    assert_eq!(
        apply_binary(BinOp::Div, iv(IntKind::I128, i128::MIN), iv(IntKind::I128, -1)),
        Err("i128 overflow in divide".to_string())
    );
    assert_eq!(
        apply_binary(BinOp::Rem, iv(IntKind::I128, i128::MIN), iv(IntKind::I128, -1)),
        Err("i128 overflow in remainder".to_string())
    );
}

#[test]
fn zero_divisor_errors() {
    assert_eq!(
        apply_binary(BinOp::Div, iv(IntKind::U16, 4), iv(IntKind::U16, 0)),
        Err("division by zero".to_string())
    );
    assert_eq!(
        apply_binary(BinOp::Rem, iv(IntKind::I16, 4), iv(IntKind::I16, 0)),
        Err("remainder by zero".to_string())
    );
}

#[test]
fn comparisons_and_boolean_logic() {
    assert_eq!(apply_binary(BinOp::Lt, iv(IntKind::I32, -1), iv(IntKind::I32, 0)), Ok(Value::Bool(true)));
    assert_eq!(apply_binary(BinOp::Ge, iv(IntKind::U64, 3), iv(IntKind::U64, 4)), Ok(Value::Bool(false)));
    assert_eq!(apply_binary(BinOp::Neq, iv(IntKind::U64, 3), iv(IntKind::U64, 3)), Ok(Value::Bool(false)));
    assert_eq!(apply_binary(BinOp::Eq, Value::Bool(true), Value::Bool(true)), Ok(Value::Bool(true)));
    assert_eq!(apply_binary(BinOp::And, Value::Bool(true), Value::Bool(false)), Ok(Value::Bool(false)));
    assert_eq!(apply_binary(BinOp::Or, Value::Bool(false), Value::Bool(true)), Ok(Value::Bool(true)));
}

#[test]
fn logic_short_circuits_on_the_left_operand() {
    assert_eq!(short_circuit(BinOp::And, Value::Bool(false)), Some(Value::Bool(false)));
    assert_eq!(short_circuit(BinOp::Or, Value::Bool(true)), Some(Value::Bool(true)));
    assert_eq!(short_circuit(BinOp::And, Value::Bool(true)), None);
    assert_eq!(short_circuit(BinOp::Add, iv(IntKind::I32, 0)), None);
}

#[test]
fn unary_operators() {
    assert_eq!(apply_unary(UnOp::Neg, iv(IntKind::I8, -128)), Err("i8 overflow in unary `-`".to_string()));
    assert_eq!(apply_unary(UnOp::Neg, iv(IntKind::I8, 127)), Ok(iv(IntKind::I8, -127)));
    assert_eq!(apply_unary(UnOp::Neg, iv(IntKind::I128, i128::MIN)), Err("i128 overflow in unary `-`".to_string()));
    assert_eq!(apply_unary(UnOp::Not, Value::Bool(false)), Ok(Value::Bool(true)));
}

#[test]
fn range_check_of_a_wide_result() {
    assert_eq!(int_checked(IntKind::U8, Some(256), "add"), Err("u8 overflow in add".to_string()));
    assert_eq!(int_checked(IntKind::U8, Some(255), "add"), Ok(iv(IntKind::U8, 255)));
    assert_eq!(int_checked(IntKind::I64, None, "multiply"), Err("i64 overflow in multiply".to_string()));
}

#[test]
fn accepted_operators_evaluate_to_the_inferred_type() {
    let sp = Span::new(0, 5, FileId(1));
    let t = binary_op_ty(BinOp::Rem, &Ty::Int(IntKind::U16), &Ty::Int(IntKind::U16), sp).unwrap();
    assert_eq!(t, Ty::Int(IntKind::U16));
    assert_eq!(apply_binary(BinOp::Rem, iv(IntKind::U16, 17), iv(IntKind::U16, 5)), Ok(iv(IntKind::U16, 2)));
    let t = binary_op_ty(BinOp::Gt, &Ty::Int(IntKind::I64), &Ty::Int(IntKind::I64), sp).unwrap();
    assert_eq!(t, Ty::Bool);
    assert_eq!(apply_binary(BinOp::Gt, iv(IntKind::I64, 1), iv(IntKind::I64, -1)), Ok(Value::Bool(true)));
}
