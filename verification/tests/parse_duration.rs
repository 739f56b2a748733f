use tonegen::duration::{parse_duration, DurationError, TimeSpan};

fn parse(s: &str) -> Result<TimeSpan, DurationError> {
    let bytes: Vec<u8> = s.as_bytes().to_vec();
    parse_duration(&bytes)
}

fn span(secs: u64, nanos: u32) -> Result<TimeSpan, DurationError> {
    Ok(TimeSpan { secs, nanos })
}

#[test]
fn one_second() {
    assert_eq!(parse("1s"), span(1, 0));
}

#[test]
fn three_hours() {
    assert_eq!(parse("3h"), span(10_800, 0));
}

#[test]
fn half_day() {
    assert_eq!(parse("0.5d"), span(43_200, 0));
}

#[test]
fn malformed_input() {
    assert_eq!(parse("xyz"), Err(DurationError::Malformed));
}

#[test]
fn empty_input() {
    assert_eq!(parse(""), Err(DurationError::Malformed));
}

#[test]
fn missing_unit() {
    assert_eq!(parse("5"), Err(DurationError::Malformed));
}

#[test]
fn unknown_unit() {
    assert_eq!(parse("5q"), Err(DurationError::Malformed));
}

#[test]
fn dot_without_digits() {
    assert_eq!(parse("1.s"), Err(DurationError::Malformed));
}

#[test]
fn missing_integer_digits() {
    assert_eq!(parse(".5s"), Err(DurationError::Malformed));
}

#[test]
fn trailing_garbage() {
    assert_eq!(parse("1s "), Err(DurationError::Malformed));
}

#[test]
fn hundred_milliseconds() {
    assert_eq!(parse("100ms"), span(0, 100_000_000));
}

#[test]
fn nanoseconds() {
    assert_eq!(parse("1500ns"), span(0, 1_500));
}

#[test]
fn microseconds_ascii() {
    assert_eq!(parse("2us"), span(0, 2_000));
}

#[test]
fn microseconds_micro_sign() {
    // "2µs": the micro sign is the two bytes 0xc2 0xb5.
    let bytes: Vec<u8> = vec![0x32, 0xc2, 0xb5, 0x73];
    assert_eq!(parse_duration(&bytes), span(0, 2_000));
}

#[test]
fn minutes() {
    assert_eq!(parse("90m"), span(5_400, 0));
}

#[test]
fn weeks() {
    assert_eq!(parse("2w"), span(1_209_600, 0));
}

#[test]
fn one_month() {
    // A month counts as 30.44 days.
    assert_eq!(parse("1M"), span(2_630_016, 0));
}

#[test]
fn default_twelve_centuries() {
    // The generator's default duration; a year counts as 365.25 days.
    assert_eq!(parse("1234y"), span(38_942_078_400, 0));
}

#[test]
fn leading_zeros() {
    assert_eq!(parse("007s"), span(7, 0));
}

#[test]
fn decimal_seconds() {
    assert_eq!(parse("10.25s"), span(10, 250_000_000));
}

#[test]
fn sub_nanosecond_rounds_down() {
    assert_eq!(parse("0.5ns"), span(0, 0));
}

#[test]
fn long_fraction_is_exact() {
    assert_eq!(parse("0.123456789123456789123456789d"), span(10_666, 666_580_266));
}

#[test]
fn overflow_years() {
    assert_eq!(parse("600000000000y"), Err(DurationError::Overflow));
}

#[test]
fn overflow_many_digits() {
    let s = format!("{}s", "9".repeat(50));
    assert_eq!(parse(&s), Err(DurationError::Overflow));
}
