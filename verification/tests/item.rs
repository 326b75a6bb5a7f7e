use throttler::item::{
    calculate_estimated_attr_size, calculate_estimated_item_size, AttributeValue,
    ItemSizeCalculationError,
};
use throttler::number::NumberParseError;

#[test]
fn item_size_of_two_attribute_record() {
    // {"a": String("x"), "b": Number("10")}: each attribute contributes its
    // name length plus its value size; "10" has one significant digit, so
    // its encoded size is ceil(1/2) + 1.
    let item = vec![
        ("a".to_string(), AttributeValue::S("x".to_string())),
        ("b".to_string(), AttributeValue::N("10".to_string())),
    ];
    let number_size = (1 + 1) / 2 + 1;
    let expected = ("a".len() + "x".len()) + ("b".len() + number_size);
    assert_eq!(calculate_estimated_item_size(&item), Ok(expected));
}

#[test]
fn map_attribute_adds_envelope_and_per_entry_overhead() {
    // As a nested map value the same two entries cost one extra byte each,
    // plus a three-byte envelope.
    let map = AttributeValue::M(vec![
        ("a".to_string(), AttributeValue::S("x".to_string())),
        ("b".to_string(), AttributeValue::N("10".to_string())),
    ]);
    let number_size = (1 + 1) / 2 + 1;
    let expected = 3 + (1 + 1 + 1) + (1 + number_size + 1);
    assert_eq!(calculate_estimated_attr_size(&map), Ok(expected));
}

#[test]
fn scalar_attribute_sizes() {
    assert_eq!(
        calculate_estimated_attr_size(&AttributeValue::B(vec![1, 2, 3])),
        Ok(3)
    );
    assert_eq!(
        calculate_estimated_attr_size(&AttributeValue::Bool(true)),
        Ok(1)
    );
    assert_eq!(
        calculate_estimated_attr_size(&AttributeValue::Null(true)),
        Ok(1)
    );
    assert_eq!(
        calculate_estimated_attr_size(&AttributeValue::S("hello".to_string())),
        Ok(5)
    );
    // A text value is priced by its UTF-8 byte length, not its character count.
    assert_eq!(
        calculate_estimated_attr_size(&AttributeValue::S("\u{e9}".to_string())),
        Ok(2)
    );
    assert_eq!(
        calculate_estimated_attr_size(&AttributeValue::N("123.456".to_string())),
        Ok(4)
    );
}

#[test]
fn set_attribute_sizes_sum_members() {
    assert_eq!(
        calculate_estimated_attr_size(&AttributeValue::Bs(vec![vec![1], vec![2, 3], vec![]])),
        Ok(3)
    );
    assert_eq!(
        calculate_estimated_attr_size(&AttributeValue::Ss(vec![
            "ab".to_string(),
            "".to_string(),
            "cde".to_string(),
        ])),
        Ok(5)
    );
    // "1" -> 2 bytes, "123.456" -> 4 bytes.
    assert_eq!(
        calculate_estimated_attr_size(&AttributeValue::Ns(vec![
            "1".to_string(),
            "123.456".to_string(),
        ])),
        Ok(6)
    );
}

#[test]
fn list_attribute_adds_envelope_and_per_element_overhead() {
    let list = AttributeValue::L(vec![
        AttributeValue::Bool(false),
        AttributeValue::N("10".to_string()),
    ]);
    let expected = 3 + (1 + 1) + (2 + 1);
    assert_eq!(calculate_estimated_attr_size(&list), Ok(expected));

    let nested = AttributeValue::L(vec![list]);
    assert_eq!(calculate_estimated_attr_size(&nested), Ok(3 + (expected + 1)));
}

#[test]
fn unsupported_attribute_is_invalid() {
    assert_eq!(
        calculate_estimated_attr_size(&AttributeValue::Unsupported),
        Err(ItemSizeCalculationError::InvalidAttribute)
    );
}

#[test]
fn bad_number_reports_parse_error() {
    assert_eq!(
        calculate_estimated_attr_size(&AttributeValue::N("0e3".to_string())),
        Err(ItemSizeCalculationError::InvalidNumberFormat(
            NumberParseError::UnexpectedChar {
                pos: 1,
                unexpected_byte: b'e'
            }
        ))
    );
}

#[test]
fn traversal_fails_fast_on_first_error() {
    // The list's first invalid member decides the error; the later, equally
    // invalid members are never reached.
    let list = AttributeValue::L(vec![
        AttributeValue::Bool(true),
        AttributeValue::N("".to_string()),
        AttributeValue::Unsupported,
    ]);
    assert_eq!(
        calculate_estimated_attr_size(&list),
        Err(ItemSizeCalculationError::InvalidNumberFormat(
            NumberParseError::EmptyString
        ))
    );

    let ns = AttributeValue::Ns(vec![
        "1".to_string(),
        "x".to_string(),
        "-".to_string(),
    ]);
    assert_eq!(
        calculate_estimated_attr_size(&ns),
        Err(ItemSizeCalculationError::InvalidNumberFormat(
            NumberParseError::UnexpectedChar {
                pos: 0,
                unexpected_byte: b'x'
            }
        ))
    );
}

#[test]
fn item_error_stops_at_first_bad_attribute() {
    let item = vec![
        ("ok".to_string(), AttributeValue::Bool(true)),
        ("bad".to_string(), AttributeValue::Unsupported),
        ("worse".to_string(), AttributeValue::N("-".to_string())),
    ];
    assert_eq!(
        calculate_estimated_item_size(&item),
        Err(ItemSizeCalculationError::InvalidAttribute)
    );
}

#[test]
fn empty_item_costs_nothing() {
    assert_eq!(calculate_estimated_item_size(&vec![]), Ok(0));
}

#[test]
fn number_parse_error_converts_into_item_error() {
    let converted: ItemSizeCalculationError = NumberParseError::EmptyString.into();
    assert_eq!(
        converted,
        ItemSizeCalculationError::InvalidNumberFormat(NumberParseError::EmptyString)
    );
}
