use web_crawler::number::{read_number, NumberError};

#[test]
fn number_reads_decimal_digits() {
    assert_eq!(read_number("0", 10), Ok(0));
    assert_eq!(read_number("007", 10), Ok(7));
    assert_eq!(read_number("+7", 10), Ok(7));
    assert_eq!(read_number("18446744073709551615", u64::MAX), Ok(u64::MAX));
}

#[test]
fn number_refuses_what_is_none() {
    assert_eq!(read_number("", 10), Err(NumberError::Empty));
    for text in ["+", "-", "-1", "++1", " 1", "1 ", "0x1", "1.0", "\u{661}"] {
        assert_eq!(read_number(text, 10), Err(NumberError::InvalidDigit));
    }
}

#[test]
fn number_refuses_what_is_too_large() {
    assert_eq!(read_number("10", 10), Ok(10));
    assert_eq!(read_number("11", 10), Err(NumberError::TooLarge));
    assert_eq!(read_number("5", 4), Err(NumberError::TooLarge));
    assert_eq!(read_number("18446744073709551616", u64::MAX), Err(NumberError::TooLarge));
    // The first thing that is wrong counts.
    assert_eq!(read_number("99x", 10), Err(NumberError::TooLarge));
    assert_eq!(read_number("9x9", 10), Err(NumberError::InvalidDigit));
}

#[test]
fn number_reads_as_the_standard_library_does() {
    let texts = [
        "", "+", "-", "-0", "+0", "00", "12", "4294967296", "18446744073709551615",
        "18446744073709551616", "184467440737095516160", "99999999999999999999x", "1x", "x1",
    ];
    for text in texts {
        let expected = text.parse::<u64>();
        match read_number(text, u64::MAX) {
            Ok(n) => assert_eq!(expected, Ok(n)),
            Err(e) => {
                let kind = match expected {
                    Ok(n) => panic!("{text} is {n}"),
                    Err(kind) => kind.to_string(),
                };
                let message = match e {
                    NumberError::Empty => "cannot parse integer from empty string",
                    NumberError::InvalidDigit => "invalid digit found in string",
                    NumberError::TooLarge => "number too large to fit in target type",
                };
                assert_eq!(kind, message);
            }
        }
    }
}
