use memoir::parsetime::{parse_time, time_is_representable, try_parse_time, ParseError};

#[test]
fn it_works() {
    assert_eq!(parse_time("1"), Ok(1));
    assert_eq!(parse_time("20"), Ok(20));
    assert_eq!(parse_time("1s"), Ok(1));
    assert_eq!(parse_time("20s"), Ok(20));
    assert_eq!(parse_time("1m"), Ok(60));
    assert_eq!(parse_time("20m"), Ok(20 * 60));
    assert_eq!(parse_time("1h"), Ok(60 * 60));
    assert_eq!(parse_time("20h"), Ok(20 * 60 * 60));
    assert_eq!(parse_time("1d"), Ok(60 * 60 * 24));
    assert_eq!(parse_time("20d"), Ok(20 * 60 * 60 * 24));
}

#[test]
fn it_fails() {
    assert_eq!(parse_time(""), Err(ParseError::EmptyString));
    assert_eq!(
        parse_time("input"),
        Err(ParseError::InvalidCharacter {
            index: 0,
            value: 'i',
        })
    );
    assert_eq!(
        parse_time("-1"),
        Err(ParseError::InvalidCharacter {
            index: 0,
            value: '-',
        })
    );
    assert_eq!(
        parse_time("1z"),
        Err(ParseError::InvalidCharacter {
            index: 1,
            value: 'z',
        })
    );
    assert_eq!(
        parse_time("2d6"),
        Err(ParseError::InvalidCharacter {
            index: 2,
            value: '6',
        })
    );
    assert_eq!(
        parse_time("2dd"),
        Err(ParseError::InvalidCharacter {
            index: 2,
            value: 'd',
        })
    );
    assert_eq!(
        parse_time("2hs"),
        Err(ParseError::InvalidCharacter {
            index: 2,
            value: 's',
        })
    );
}

#[test]
fn unit_alone_has_no_digits() {
    assert_eq!(parse_time("s"), Err(ParseError::NoDigits));
    assert_eq!(parse_time("d"), Err(ParseError::NoDigits));
    assert_eq!(
        parse_time("sx"),
        Err(ParseError::InvalidCharacter { index: 1, value: 'x' })
    );
}

#[test]
fn leading_zeros_are_digits() {
    assert_eq!(parse_time("007"), Ok(7));
    assert_eq!(parse_time("0h"), Ok(0));
}

#[test]
fn index_counts_bytes() {
    // The Arabic-Indic digit three is numeric and two bytes long.
    assert_eq!(
        parse_time("\u{663}x"),
        Err(ParseError::InvalidCharacter { index: 2, value: 'x' })
    );
    assert_eq!(
        parse_time("1\u{e9}"),
        Err(ParseError::InvalidCharacter { index: 1, value: '\u{e9}' })
    );
    assert_eq!(
        parse_time("1s\u{1F600}"),
        Err(ParseError::InvalidCharacter { index: 2, value: '\u{1F600}' })
    );
}

#[test]
fn other_digits_are_not_representable() {
    assert!(!time_is_representable("\u{663}"));
    assert!(!time_is_representable("1\u{663}m"));
    assert_eq!(try_parse_time("\u{663}"), None);
    assert!(time_is_representable("\u{663}x"));
}

#[test]
fn largest_values() {
    let max = usize::MAX.to_string();
    assert!(time_is_representable(&max));
    assert_eq!(parse_time(&max), Ok(usize::MAX));
    assert_eq!(try_parse_time(&max), Some(Ok(usize::MAX)));

    let too_many_minutes = format!("{}m", usize::MAX / 60 + 1);
    assert!(!time_is_representable(&too_many_minutes));
    assert_eq!(try_parse_time(&too_many_minutes), None);

    let most_minutes = format!("{}m", usize::MAX / 60);
    assert_eq!(try_parse_time(&most_minutes), Some(Ok(usize::MAX / 60 * 60)));

    let beyond = format!("{}0", usize::MAX);
    assert!(!time_is_representable(&beyond));
    assert_eq!(try_parse_time(&beyond), None);
    assert_eq!(try_parse_time("99999999999999999999999999999999999999999s"), None);
}

#[test]
fn errors_are_always_representable() {
    assert_eq!(try_parse_time(""), Some(Err(ParseError::EmptyString)));
    assert_eq!(try_parse_time("h"), Some(Err(ParseError::NoDigits)));
    assert_eq!(
        try_parse_time("99999999999999999999999999999999999999999x"),
        Some(Err(ParseError::InvalidCharacter { index: 41, value: 'x' }))
    );
    assert_eq!(try_parse_time("90m"), Some(Ok(5400)));
}
