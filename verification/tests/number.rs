use throttler::number::{calc_digits, calc_num_size, NumberParseError};

#[test]
fn test_calc_digits() {
    assert_eq!(calc_digits(b"0"), Ok((0, 0)));
    for d in [b"1", b"2", b"3", b"4", b"5", b"6", b"7", b"8", b"9"] {
        assert_eq!(calc_digits(d), Ok((1, 0)));
    }
    assert_eq!(calc_digits(b"9"), Ok((1, 0)));
    assert_eq!(calc_digits(b"10"), Ok((1, 1)));
    assert_eq!(calc_digits(b"11"), Ok((2, 1)));
    assert_eq!(calc_digits(b"99"), Ok((2, 1)));
    assert_eq!(calc_digits(b"100"), Ok((1, 2)));
    assert_eq!(calc_digits(b"101"), Ok((3, 2)));
    assert_eq!(calc_digits(b"110"), Ok((2, 2)));
    assert_eq!(calc_digits(b"0.1"), Ok((1, -1)));

    assert_eq!(calc_digits(b"10100"), Ok((3, 4)));
    assert_eq!(calc_digits(b"1010"), Ok((3, 3)));
    assert_eq!(calc_digits(b"101"), Ok((3, 2)));
    assert_eq!(calc_digits(b"10.1"), Ok((3, 1)));
    assert_eq!(calc_digits(b"1.01"), Ok((3, 0)));
    assert_eq!(calc_digits(b"0.101"), Ok((3, -1)));
    assert_eq!(calc_digits(b"0.0101"), Ok((3, -2)));
    assert_eq!(calc_digits(b"0.00101"), Ok((3, -3)));

    assert_eq!(calc_digits(b"-23400"), Ok((3, 4)));
    assert_eq!(calc_digits(b"-2340"), Ok((3, 3)));
    assert_eq!(calc_digits(b"-234"), Ok((3, 2)));
    assert_eq!(calc_digits(b"-23.4"), Ok((3, 1)));
    assert_eq!(calc_digits(b"-2.34"), Ok((3, 0)));
    assert_eq!(calc_digits(b"-0.234"), Ok((3, -1)));
    assert_eq!(calc_digits(b"-0.0234"), Ok((3, -2)));
    assert_eq!(calc_digits(b"-0.00234"), Ok((3, -3)));

    assert_eq!(calc_digits(b"+56700"), Ok((3, 4)));
    assert_eq!(calc_digits(b"+5670"), Ok((3, 3)));
    assert_eq!(calc_digits(b"+567"), Ok((3, 2)));
    assert_eq!(calc_digits(b"+56.7"), Ok((3, 1)));
    assert_eq!(calc_digits(b"+5.67"), Ok((3, 0)));
    assert_eq!(calc_digits(b"+0.567"), Ok((3, -1)));
    assert_eq!(calc_digits(b"+0.0567"), Ok((3, -2)));
    assert_eq!(calc_digits(b"+0.00567"), Ok((3, -3)));

    assert_eq!(calc_digits(b"-0.0000000000000000000000000000000000000000000000000000000000000000000000000000000000000000000000000000000000000000000000000000000001"),
               Ok((1, -130)));
    assert_eq!(calc_digits(b"-999999999999999999999999999999999999990000000000000000000000000000000000000000000000000000000000000000000000000000000000000000"),
               Ok((38, 125)));
    assert_eq!(calc_digits(b"0.0000000000000000000000000000000000000000000000000000000000000000000000000000000000000000000000000000000000000000000000000000000001"),
               Ok((1, -130)));
    assert_eq!(calc_digits(b"999999999999999999999999999999999999990000000000000000000000000000000000000000000000000000000000000000000000000000000000000000"),
               Ok((38, 125)));

    assert_eq!(calc_digits(b".8"), Ok((1, -1)));
    assert_eq!(calc_digits(b"-.8"), Ok((1, -1)));
    assert_eq!(calc_digits(b"+.8"), Ok((1, -1)));
    assert_eq!(calc_digits(b"+.08"), Ok((1, -2)));
    assert_eq!(calc_digits(b"-.08"), Ok((1, -2)));

    assert_eq!(calc_digits(b"10.00"), Ok((1, 1)));
    assert_eq!(calc_digits(b"10.0"), Ok((1, 1)));
    assert_eq!(calc_digits(b"1.0"), Ok((1, 0)));
    assert_eq!(calc_digits(b"0.10"), Ok((1, -1)));
    assert_eq!(calc_digits(b"0.100"), Ok((1, -1)));

    assert_eq!(calc_digits(b"01"), Ok((1, 0)));
    assert_eq!(calc_digits(b"001"), Ok((1, 0)));
    assert_eq!(calc_digits(b"0010"), Ok((1, 1)));
    assert_eq!(calc_digits(b"00110"), Ok((2, 2)));
    assert_eq!(calc_digits(b"001100"), Ok((2, 3)));
    assert_eq!(calc_digits(b"00"), Ok((0, 0)));
    assert_eq!(calc_digits(b"000"), Ok((0, 0)));

    assert_eq!(calc_digits(b"0."), Err(NumberParseError::IncompleteInput));
    assert_eq!(calc_digits(b"1."), Err(NumberParseError::IncompleteInput));
    assert_eq!(calc_digits(b"."), Err(NumberParseError::IncompleteInput));
    assert_eq!(calc_digits(b"+"), Err(NumberParseError::IncompleteInput));
    assert_eq!(calc_digits(b"-"), Err(NumberParseError::IncompleteInput));
    assert_eq!(calc_digits(b""), Err(NumberParseError::EmptyString));
    assert_eq!(
        calc_digits(b"a"),
        Err(NumberParseError::UnexpectedChar {
            pos: 0,
            unexpected_byte: b'a'
        })
    );
    assert_eq!(
        calc_digits(b"0e3"),
        Err(NumberParseError::UnexpectedChar {
            pos: 1,
            unexpected_byte: b'e'
        })
    );

    assert_eq!(calc_digits(b"123.456"), Ok((6, 2)));
    assert_eq!(calc_digits(b"0.0012300"), Ok((3, -3)));
    assert_eq!(calc_digits(b"-12.34"), Ok((4, 1)));
    assert_eq!(calc_digits(b"+.1"), Ok((1, -1)));
    assert_eq!(calc_digits(b"-0."), Err(NumberParseError::IncompleteInput));
    assert_eq!(
        calc_digits(b"abc"),
        Err(NumberParseError::UnexpectedChar {
            pos: 0,
            unexpected_byte: 97
        })
    );
}

#[test]
fn calc_num_size_packs_digit_pairs() {
    // Encoded length is ceil(significant digits / 2) + 1.
    assert_eq!(calc_num_size("0"), Ok(1));
    assert_eq!(calc_num_size("10"), Ok(2));
    assert_eq!(calc_num_size("123.456"), Ok(4));
    assert_eq!(calc_num_size("0.0012300"), Ok(3));
    assert_eq!(calc_num_size("-12.34"), Ok(3));
    assert_eq!(calc_num_size("+.1"), Ok(2));
}

#[test]
fn calc_num_size_propagates_parse_errors() {
    assert_eq!(calc_num_size(""), Err(NumberParseError::EmptyString));
    assert_eq!(calc_num_size("-0."), Err(NumberParseError::IncompleteInput));
    assert_eq!(
        calc_num_size("0e3"),
        Err(NumberParseError::UnexpectedChar {
            pos: 1,
            unexpected_byte: b'e'
        })
    );
}
