use rune_compiler::shape::{ElementType, FormatError, Shape};
use rune_compiler::text::IntErrorKind;

fn shapes() -> Vec<(Shape, &'static str)> {
    vec![
        (Shape::new(ElementType::F32, vec![1, 2, 3]), "f32[1, 2, 3]"),
        (Shape::new(ElementType::U8, vec![42]), "u8[42]"),
    ]
}

#[test]
fn shape_format() {
    for (shape, should_be) in shapes() {
        let got = shape.to_string();
        assert_eq!(got, should_be);
    }
}

#[test]
fn parse() {
    for (should_be, src) in shapes() {
        let got: Shape = src.parse().unwrap();
        assert_eq!(got, should_be);
    }
}

#[test]
fn parse_after_format_gives_the_shape_back() {
    let shape = Shape::new(ElementType::I64, vec![0, 7, 18446744073709551615]);
    let text = shape.to_string();
    assert_eq!(text, "i64[0, 7, 18446744073709551615]");
    assert_eq!(Shape::parse(&text).unwrap(), shape);
}

#[test]
fn parse_trims_whitespace() {
    let got = Shape::parse("  utf8 [ 3 ,4 ]").unwrap();
    assert_eq!(got, Shape::new(ElementType::Utf8, vec![3, 4]));
}

#[test]
fn parse_accepts_a_plus_sign() {
    assert_eq!(Shape::parse("u16[+5]").unwrap(), Shape::new(ElementType::U16, vec![5]));
}

#[test]
fn parse_without_brackets_is_malformed() {
    assert_eq!(Shape::parse("f32"), Err(FormatError::Malformed));
    assert_eq!(Shape::parse("f32[1"), Err(FormatError::Malformed));
    assert_eq!(
        Shape::parse("f32]1["),
        Err(FormatError::UnknownElementType { found: "f32]1".to_string() })
    );
}

#[test]
fn parse_unknown_element_type() {
    assert_eq!(
        Shape::parse(" x32 [1]"),
        Err(FormatError::UnknownElementType { found: "x32".to_string() })
    );
}

#[test]
fn parse_bad_dimensions() {
    assert_eq!(
        Shape::parse("f32[1, a, -]"),
        Err(FormatError::BadDimension { found: "a".to_string(), reason: IntErrorKind::InvalidDigit })
    );
    assert_eq!(
        Shape::parse("f32[1,,2]"),
        Err(FormatError::BadDimension { found: "".to_string(), reason: IntErrorKind::Empty })
    );
    assert_eq!(
        Shape::parse("u8[18446744073709551616]"),
        Err(FormatError::BadDimension {
            found: "18446744073709551616".to_string(),
            reason: IntErrorKind::PosOverflow,
        })
    );
}

#[test]
fn scalar_shape_reads_back() {
    let shape = Shape::new(ElementType::F32, vec![]);
    assert_eq!(shape.to_string(), "f32[]");
    assert_eq!(Shape::parse("f32[]"), Ok(Shape::new(ElementType::F32, vec![])));
    assert_eq!(Shape::parse("u8[  ]"), Ok(Shape::new(ElementType::U8, vec![])));
}

#[test]
fn size_is_product_times_width() {
    assert_eq!(Shape::new(ElementType::F32, vec![1, 2, 3]).size(), Some(24));
    assert_eq!(Shape::new(ElementType::U8, vec![42]).size(), Some(42));
    assert_eq!(Shape::new(ElementType::F64, vec![]).size(), Some(8));
    assert_eq!(Shape::new(ElementType::I16, vec![usize::MAX, 0]).size(), Some(0));
    assert_eq!(Shape::new(ElementType::Utf8, vec![4]).size(), None);
}

#[test]
fn accessors_and_to_owned() {
    let shape = Shape::new(ElementType::U32, vec![2, 5]);
    assert_eq!(shape.element_type(), ElementType::U32);
    assert_eq!(shape.dimensions(), &[2, 5]);
    assert_eq!(shape.to_owned(), shape);
}

#[test]
fn error_messages() {
    assert_eq!(FormatError::Malformed.message(), "Malformed shape");
    assert_eq!(
        FormatError::UnknownElementType { found: "x".to_string() }.message(),
        "Couldn't recognise the \"x\" element type"
    );
    assert_eq!(
        FormatError::BadDimension { found: "a".to_string(), reason: IntErrorKind::InvalidDigit }
            .message(),
        "\"a\" isn't a valid dimension"
    );
}
