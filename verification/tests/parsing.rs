use num_bigint::BigInt;
use refaddr::address::{
    parse_dereference, parse_dereference_no_offsets, parse_dereference_with_one_offset,
    parse_dereference_with_two_offsets, parse_reference, parse_reference_no_offsets,
    parse_reference_with_one_offset, parse_reference_with_two_offsets, ParseError, Register,
    ValueAddress,
};

#[test]
// parse value string of format `[cast(reg + offset1, felt*)]`
fn parse_dereference_with_one_offset_test() {
    let value_string: &str = "[cast(fp + (-3), felt*)]";
    let splitted_value: Vec<&str> = value_string.split(" + ").collect();

    let parsed_value = parse_dereference_with_one_offset(splitted_value).unwrap();

    let value_address = ValueAddress {
        register: Some(Register::FP),
        offset1: -3,
        offset2: 0,
        immediate: None,
        dereference: true,
    };

    assert_eq!(value_address, parsed_value);
}

#[test]
fn parse_dereference_with_two_offsets_test() {
    let value_string: &str = "[cast([fp + (-4)] + 1, felt*)]";
    let splitted_value: Vec<&str> = value_string.split(" + ").collect();

    let parsed_value = parse_dereference_with_two_offsets(splitted_value).unwrap();

    let value_address = ValueAddress {
        register: Some(Register::FP),
        offset1: -4,
        offset2: 1,
        immediate: None,
        dereference: true,
    };

    assert_eq!(value_address, parsed_value);
}

#[test]
fn parse_dereference_no_offsets_test() {
    let value_string: &str = "[cast(fp, felt*)]";
    let splitted_value: Vec<&str> = value_string.split(" + ").collect();

    let parsed_value = parse_dereference_no_offsets(splitted_value).unwrap();

    let value_address = ValueAddress {
        register: Some(Register::FP),
        offset1: 0,
        offset2: 0,
        immediate: None,
        dereference: true,
    };

    assert_eq!(value_address, parsed_value);
}

#[test]
// parse value string of format `[cast(reg + offset1, felt*)]`
fn parse_reference_with_one_offset_test() {
    let value_string: &str = "cast(fp + (-3), felt*)";
    let splitted_value: Vec<&str> = value_string.split(" + ").collect();

    let parsed_value = parse_reference_with_one_offset(splitted_value).unwrap();

    let value_address = ValueAddress {
        register: Some(Register::FP),
        offset1: -3,
        offset2: 0,
        immediate: None,
        dereference: false,
    };

    assert_eq!(value_address, parsed_value);
}

#[test]
fn parse_reference_with_two_offsets_test() {
    let value_string: &str = "cast([fp + (-4)] + 1, felt*)";
    let splitted_value: Vec<&str> = value_string.split(" + ").collect();

    let parsed_value = parse_reference_with_two_offsets(splitted_value).unwrap();

    let value_address = ValueAddress {
        register: Some(Register::FP),
        offset1: -4,
        offset2: 0,
        immediate: Some(BigInt::from(1)),
        dereference: false,
    };

    assert_eq!(value_address, parsed_value);
}

#[test]
fn parse_reference_no_offsets_test() {
    let value_string: &str = "cast(fp, felt*)";
    let splitted_value: Vec<&str> = value_string.split(" + ").collect();

    let parsed_value = parse_reference_no_offsets(splitted_value).unwrap();

    let value_address = ValueAddress {
        register: Some(Register::FP),
        offset1: 0,
        offset2: 0,
        immediate: None,
        dereference: false,
    };

    assert_eq!(value_address, parsed_value);
}

#[test]
fn parse_dereference_entry_point_all_shapes() {
    assert_eq!(
        parse_dereference("[cast(fp, felt*)]").unwrap(),
        ValueAddress {
            register: Some(Register::FP),
            offset1: 0,
            offset2: 0,
            immediate: None,
            dereference: true,
        }
    );
    assert_eq!(
        parse_dereference("[cast(fp + (-3), felt*)]").unwrap(),
        ValueAddress {
            register: Some(Register::FP),
            offset1: -3,
            offset2: 0,
            immediate: None,
            dereference: true,
        }
    );
    assert_eq!(
        parse_dereference("[cast([fp + (-4)] + 1, felt*)]").unwrap(),
        ValueAddress {
            register: Some(Register::FP),
            offset1: -4,
            offset2: 1,
            immediate: None,
            dereference: true,
        }
    );
}

#[test]
fn parse_reference_entry_point_all_shapes() {
    assert_eq!(
        parse_reference("cast(fp, felt*)").unwrap(),
        ValueAddress {
            register: Some(Register::FP),
            offset1: 0,
            offset2: 0,
            immediate: None,
            dereference: false,
        }
    );
    assert_eq!(
        parse_reference("cast(fp + (-3), felt*)").unwrap(),
        ValueAddress {
            register: Some(Register::FP),
            offset1: -3,
            offset2: 0,
            immediate: None,
            dereference: false,
        }
    );
    assert_eq!(
        parse_reference("cast([fp + (-4)] + 1, felt*)").unwrap(),
        ValueAddress {
            register: Some(Register::FP),
            offset1: -4,
            offset2: 0,
            immediate: Some(BigInt::from(1)),
            dereference: false,
        }
    );
}

#[test]
fn parse_with_ap_register() {
    assert_eq!(
        parse_dereference("[cast(ap + (-2), felt*)]").unwrap(),
        ValueAddress {
            register: Some(Register::AP),
            offset1: -2,
            offset2: 0,
            immediate: None,
            dereference: true,
        }
    );
    assert_eq!(
        parse_reference("cast(ap, felt*)").unwrap(),
        ValueAddress {
            register: Some(Register::AP),
            offset1: 0,
            offset2: 0,
            immediate: None,
            dereference: false,
        }
    );
}

#[test]
fn unrecognized_register_token_is_not_an_error() {
    assert_eq!(
        parse_dereference("[cast(xx, felt*)]").unwrap(),
        ValueAddress {
            register: None,
            offset1: 0,
            offset2: 0,
            immediate: None,
            dereference: true,
        }
    );
    assert_eq!(
        parse_reference("cast(zz + 5, felt*)").unwrap(),
        ValueAddress {
            register: None,
            offset1: 5,
            offset2: 0,
            immediate: None,
            dereference: false,
        }
    );
}

#[test]
fn negative_offsets_keep_their_sign() {
    let parsed = parse_dereference("[cast([fp + (-4)] + (-1), felt*)]").unwrap();
    assert_eq!(parsed.offset1, -4);
    assert_eq!(parsed.offset2, -1);
    let extreme = parse_reference("cast(fp + (-2147483648), felt*)").unwrap();
    assert_eq!(extreme.offset1, i32::MIN);
}

#[test]
fn four_segments_are_unsupported() {
    assert_eq!(
        parse_dereference("[cast([fp + (-4)] + 1 + 2, felt*)]"),
        Err(ParseError::UnsupportedSegmentCount)
    );
    assert_eq!(
        parse_reference("cast([fp + (-4)] + 1 + 2, felt*)"),
        Err(ParseError::UnsupportedSegmentCount)
    );
}

#[test]
fn malformed_numerals_are_reported() {
    assert_eq!(
        parse_dereference("[cast(fp + (abc), felt*)]"),
        Err(ParseError::NumericLiteralMalformed)
    );
    assert_eq!(
        parse_dereference("[cast(fp + (99999999999), felt*)]"),
        Err(ParseError::NumericLiteralMalformed)
    );
    assert_eq!(
        parse_reference("cast([fp + (-4)] + x, felt*)"),
        Err(ParseError::NumericLiteralMalformed)
    );
}

#[test]
fn immediate_numeral_grammar_matches_bigint() {
    // an embedded underscore is accepted by the big-integer numeral grammar
    let parsed = parse_reference("cast([fp + (-4)] + 1_0, felt*)").unwrap();
    assert_eq!(parsed.immediate, Some(BigInt::from(10)));
    // a leading underscore is not
    assert_eq!(
        parse_reference("cast([fp + (-4)] + _10, felt*)"),
        Err(ParseError::NumericLiteralMalformed)
    );
}

#[test]
fn immediate_may_exceed_machine_integers() {
    let parsed = parse_reference("cast([fp + (-4)] + 123456789012345678901234567890, felt*)")
        .unwrap();
    assert_eq!(
        parsed.immediate,
        Some(BigInt::from(123456789012345678901234567890u128))
    );
    assert_eq!(parsed.offset2, 0);
}
