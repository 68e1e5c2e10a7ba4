use rustviz::typeck::{FloatKind, IntKind};

#[test]
fn u8_range() {
    assert_eq!(IntKind::U8.min_value(), 0);
    assert_eq!(IntKind::U8.max_value(), 255);
    assert!(IntKind::U8.contains(0));
    assert!(IntKind::U8.contains(255));
    assert!(!IntKind::U8.contains(256));
    assert!(!IntKind::U8.contains(-1));
}

#[test]
fn i8_range() {
    assert_eq!(IntKind::I8.min_value(), -128);
    assert_eq!(IntKind::I8.max_value(), 127);
    assert!(IntKind::I8.contains(-128));
    assert!(IntKind::I8.contains(127));
    assert!(!IntKind::I8.contains(128));
    assert!(!IntKind::I8.contains(-129));
}

#[test]
fn usize_matches_u64() {
    assert_eq!(IntKind::USize.min_value(), IntKind::U64.min_value());
    assert_eq!(IntKind::USize.max_value(), IntKind::U64.max_value());
}

#[test]
fn isize_matches_i64() {
    assert_eq!(IntKind::ISize.min_value(), IntKind::I64.min_value());
    assert_eq!(IntKind::ISize.max_value(), IntKind::I64.max_value());
}

#[test]
fn is_signed_exhaustive() {
    for k in [IntKind::I8, IntKind::I16, IntKind::I32, IntKind::I64, IntKind::I128, IntKind::ISize] {
        assert!(k.is_signed(), "{} should be signed", k.name());
    }
    for k in [IntKind::U8, IntKind::U16, IntKind::U32, IntKind::U64, IntKind::U128, IntKind::USize] {
        assert!(!k.is_signed(), "{} should be unsigned", k.name());
    }
}

#[test]
fn names_match_rust() {
    assert_eq!(IntKind::U8.name(), "u8");
    assert_eq!(IntKind::I64.name(), "i64");
    assert_eq!(IntKind::USize.name(), "usize");
    assert_eq!(FloatKind::F32.name(), "f32");
    assert_eq!(FloatKind::F64.name(), "f64");
}

#[test]
fn i128_and_u128_ranges_are_pinned_to_i128() {
    assert_eq!(IntKind::I128.min_value(), i128::MIN);
    assert_eq!(IntKind::I128.max_value(), i128::MAX);
    assert_eq!(IntKind::U128.min_value(), 0);
    assert_eq!(IntKind::U128.max_value(), i128::MAX);
    assert!(IntKind::U128.contains(i128::MAX));
    assert!(!IntKind::U128.contains(-1));
}

#[test]
fn other_widths() {
    assert_eq!(IntKind::I16.min_value(), -32768);
    assert_eq!(IntKind::U16.max_value(), 65535);
    assert_eq!(IntKind::I32.max_value(), 2147483647);
    assert_eq!(IntKind::U32.max_value(), 4294967295);
    assert_eq!(IntKind::U64.max_value(), 18446744073709551615);
    assert_eq!(IntKind::I64.min_value(), -9223372036854775808);
}
