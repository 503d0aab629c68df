use clocktime::{new, parse, ParseClockTimeError, TimeFormat};

#[test]
fn twelve_bounds1() {
    let invalid_time = "13:00:00 PM";
    match parse(invalid_time) {
        Ok(_) => panic!(),
        Err(err) => assert!(matches!(err, ParseClockTimeError::HoursOverflow)),
    }
}

#[test]
fn twelve_bounds2() {
    let invalid_time = "14:03:01 AM";
    match parse(invalid_time) {
        Ok(_) => panic!(),
        Err(err) => assert!(matches!(err, ParseClockTimeError::HoursOverflow)),
    }
}

#[test]
fn midnight() {
    let variants = vec!["0:0:0", "  0:  000: 0", "0:0:00 AM", "  000:0: 0 "];
    for var in variants {
        assert_eq!(
            "00:00:00",
            parse(var)
                .unwrap()
                .to_string(TimeFormat::TwentyFour)
                .as_str()
        )
    }
}

#[test]
fn basic_conversion1() {
    let string_time = "3:  000 :0";
    assert_eq!(
        "03:00:00 AM",
        parse(string_time).unwrap().to_string(TimeFormat::Twelve)
    );
}

#[test]
fn basic_conversion2() {
    let string_time = "4:  000  :1 PM";
    assert_eq!(
        "16:00:01",
        parse(string_time).unwrap().to_string(TimeFormat::TwentyFour)
    );
}

#[test]
fn back_and_forth() {
    let string_time = "4: 32: 0";
    let new_clocktime = parse(string_time).unwrap();
    assert_eq!("04:32:00", new_clocktime.to_string(TimeFormat::TwentyFour));
    assert_eq!(
        new_clocktime.to_string(TimeFormat::Twelve),
        parse(new_clocktime.to_string(TimeFormat::Twelve).as_str())
            .unwrap()
            .to_string(TimeFormat::Twelve)
    )
}

#[test]
fn construct_renders_padded() {
    let t = new(7, 5, 9).unwrap();
    assert_eq!("07:05:09", t.to_string(TimeFormat::TwentyFour));
    let t = new(23, 59, 59).unwrap();
    assert_eq!("23:59:59", t.to_string(TimeFormat::TwentyFour));
    let t = new(0, 0, 0).unwrap();
    assert_eq!("00:00:00", t.to_string(TimeFormat::TwentyFour));
}

#[test]
fn construct_first_invalid_field() {
    assert!(matches!(
        new(99, 99, 99),
        Err(ParseClockTimeError::InvalidHours)
    ));
    assert!(matches!(
        new(24, 0, 0),
        Err(ParseClockTimeError::InvalidHours)
    ));
    assert!(matches!(
        new(5, 99, 99),
        Err(ParseClockTimeError::InvalidMinutes)
    ));
    assert!(matches!(
        new(5, 60, 0),
        Err(ParseClockTimeError::InvalidMinutes)
    ));
    assert!(matches!(
        new(5, 5, 99),
        Err(ParseClockTimeError::InvalidSeconds)
    ));
}

#[test]
fn range_errors_from_parse() {
    assert!(matches!(
        parse("25:00:00"),
        Err(ParseClockTimeError::InvalidHours)
    ));
    assert!(matches!(
        parse("1:60:0"),
        Err(ParseClockTimeError::InvalidMinutes)
    ));
    assert!(matches!(
        parse("1:2:60"),
        Err(ParseClockTimeError::InvalidSeconds)
    ));
}

#[test]
fn bad_segment_count() {
    assert!(matches!(parse("1:2"), Err(ParseClockTimeError::BadFormat)));
    assert!(matches!(
        parse("1:2:3:4"),
        Err(ParseClockTimeError::BadFormat)
    ));
    assert!(matches!(parse(""), Err(ParseClockTimeError::BadFormat)));
}

#[test]
fn bad_seconds_segment() {
    // Letters mixed into the seconds digits are only accepted when they
    // form an AM/PM marker.
    assert!(matches!(
        parse("0:0:3M"),
        Err(ParseClockTimeError::BadFormat)
    ));
    assert!(matches!(
        parse("0:0:0X"),
        Err(ParseClockTimeError::BadFormat)
    ));
    assert!(matches!(parse("1:2:"), Err(ParseClockTimeError::BadFormat)));
    assert!(matches!(
        parse("a:0:0"),
        Err(ParseClockTimeError::BadFormat)
    ));
    assert!(matches!(
        parse("0:b:0"),
        Err(ParseClockTimeError::BadFormat)
    ));
}

#[test]
fn marker_is_case_insensitive() {
    assert_eq!(
        "16:00:01",
        parse("4:0:1 pm").unwrap().to_string(TimeFormat::TwentyFour)
    );
    assert_eq!(
        "04:00:01",
        parse("4:0:1 am").unwrap().to_string(TimeFormat::TwentyFour)
    );
}

#[test]
fn round_trip_pm_value() {
    let t = parse("16:00:01").unwrap();
    let twelve = t.to_string(TimeFormat::Twelve);
    assert_eq!("04:00:01 PM", twelve);
    let back = parse(&twelve).unwrap();
    assert_eq!("16:00:01", back.to_string(TimeFormat::TwentyFour));
}

#[test]
fn noon_midnight_markers() {
    let t = new(0, 1, 2).unwrap();
    assert_eq!("12:01:02 AM", t.to_string(TimeFormat::Twelve));
    let t = new(12, 0, 0).unwrap();
    assert_eq!("12:00:00 PM", t.to_string(TimeFormat::Twelve));
    let t = new(11, 59, 59).unwrap();
    assert_eq!("11:59:59 AM", t.to_string(TimeFormat::Twelve));
    let t = new(13, 0, 0).unwrap();
    assert_eq!("01:00:00 PM", t.to_string(TimeFormat::Twelve));
}

#[test]
fn twelve_am_stays_twelve() {
    // An hour of twelve with an AM marker is kept as stored hour twelve,
    // so midnight is the one value whose 12-hour rendering does not parse
    // back to itself.
    let t = parse("12:00:00 AM").unwrap();
    assert_eq!("12:00:00", t.to_string(TimeFormat::TwentyFour));
}

#[test]
fn stray_tokens_after_seconds() {
    // Only the first whitespace-delimited token of the seconds segment is
    // read as the number; the marker may follow at a distance.
    let t = parse("1:2:3   PM").unwrap();
    assert_eq!("13:02:03", t.to_string(TimeFormat::TwentyFour));
}

#[test]
fn leading_zeros_are_stripped() {
    let t = parse("000000000000009:0000008:00000007").unwrap();
    assert_eq!("09:08:07", t.to_string(TimeFormat::TwentyFour));
}

#[test]
fn numeric_overflow_is_bad_format() {
    // A field beyond the byte range fails the integer parse itself.
    assert!(matches!(
        parse("300:0:0"),
        Err(ParseClockTimeError::BadFormat)
    ));
    assert!(matches!(
        parse("99999999999999999999:0:0"),
        Err(ParseClockTimeError::BadFormat)
    ));
}
