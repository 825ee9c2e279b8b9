use drainpipe::file::dhms_duration::{deserialize, serialize, DurationError};
use drainpipe::file::dhms_duration_option;

#[test]
fn every_part_is_written_with_its_unit() {
    assert_eq!(serialize(90_061), "1d1h1m1s");
    assert_eq!(serialize(30 * 86_400), "30d");
    assert_eq!(serialize(3_600), "1h");
    assert_eq!(serialize(60), "1m");
    assert_eq!(serialize(59), "59s");
    assert_eq!(serialize(86_399), "23h59m59s");
    assert_eq!(serialize(86_400 + 5), "1d5s");
    assert_eq!(serialize(1_234_567), "14d6h56m7s");
    assert_eq!(serialize(10), "10s");
    assert_eq!(serialize(100 * 86_400 + 10 * 3_600 + 10 * 60), "100d10h10m");
}

#[test]
fn the_longest_duration_is_written_in_full() {
    assert_eq!(serialize(i64::MAX), "106751991167300d15h30m7s");
}

#[test]
fn a_duration_that_is_not_positive_is_written_as_nothing() {
    assert_eq!(serialize(0), "");
    assert_eq!(serialize(-1), "");
    assert_eq!(serialize(-86_400), "");
    assert_eq!(serialize(i64::MIN), "");
}

#[test]
fn every_part_is_read() {
    assert_eq!(deserialize("1d1h1m1s"), Ok(90_061));
    assert_eq!(deserialize("1d12h30m"), Ok(131_400));
    assert_eq!(deserialize("30d"), Ok(2_592_000));
    assert_eq!(deserialize("7d"), Ok(604_800));
    assert_eq!(deserialize("90s"), Ok(90));
    assert_eq!(deserialize("2h5s"), Ok(7_205));
    assert_eq!(deserialize("007m"), Ok(420));
}

#[test]
fn a_text_without_units_is_no_time_at_all() {
    assert_eq!(deserialize(""), Ok(0));
    assert_eq!(deserialize("15"), Ok(0));
    assert_eq!(deserialize("abc"), Ok(0));
}

#[test]
fn what_follows_the_last_unit_is_not_read() {
    assert_eq!(deserialize("1d5"), Ok(86_400));
    assert_eq!(deserialize("1h2h"), Ok(3_600));
    assert_eq!(deserialize("3s4d x"), Err(DurationError::BadNumber('d')));
    assert_eq!(deserialize("5m tail"), Ok(300));
}

#[test]
fn signs_are_read() {
    assert_eq!(deserialize("+2h"), Ok(7_200));
    assert_eq!(deserialize("-2h"), Ok(-7_200));
    assert_eq!(deserialize("1d-1s"), Ok(86_399));
    assert_eq!(deserialize("-0d"), Ok(0));
}

#[test]
fn a_unit_without_number_is_wrong() {
    assert_eq!(deserialize("d"), Err(DurationError::BadNumber('d')));
    assert_eq!(deserialize("1dh"), Err(DurationError::BadNumber('h')));
    assert_eq!(deserialize("1d2hm"), Err(DurationError::BadNumber('m')));
    assert_eq!(deserialize("1d2h3ms"), Err(DurationError::BadNumber('s')));
    assert_eq!(deserialize("+d"), Err(DurationError::BadNumber('d')));
    assert_eq!(deserialize("-s"), Err(DurationError::BadNumber('s')));
}

#[test]
fn a_number_with_other_characters_is_wrong() {
    assert_eq!(deserialize("1.5h"), Err(DurationError::BadNumber('h')));
    assert_eq!(deserialize(" 1h"), Err(DurationError::BadNumber('h')));
    assert_eq!(deserialize("1 h"), Err(DurationError::BadNumber('h')));
    assert_eq!(deserialize("2m1h"), Err(DurationError::BadNumber('h')));
    assert_eq!(deserialize("1h2d"), Err(DurationError::BadNumber('d')));
    assert_eq!(deserialize("--1s"), Err(DurationError::BadNumber('s')));
    assert_eq!(deserialize("٣s"), Err(DurationError::BadNumber('s')));
}

#[test]
fn a_number_that_does_not_fit_is_wrong() {
    assert_eq!(deserialize("9223372036854775807s"), Ok(i64::MAX));
    assert_eq!(deserialize("9223372036854775808s"), Err(DurationError::BadNumber('s')));
    assert_eq!(deserialize("-9223372036854775808s"), Ok(i64::MIN));
    assert_eq!(deserialize("-9223372036854775809s"), Err(DurationError::BadNumber('s')));
    assert_eq!(
        deserialize("99999999999999999999999999999999999999999999999999d"),
        Err(DurationError::BadNumber('d'))
    );
}

#[test]
fn a_sum_that_does_not_fit_is_out_of_range() {
    assert_eq!(deserialize("9223372036854775807d"), Err(DurationError::OutOfRange));
    assert_eq!(deserialize("9223372036854775807m1s"), Err(DurationError::OutOfRange));
    assert_eq!(deserialize("-9223372036854775808h"), Err(DurationError::OutOfRange));
    assert_eq!(deserialize("106751991167300d15h30m7s"), Ok(i64::MAX));
    assert_eq!(deserialize("106751991167300d15h30m8s"), Err(DurationError::OutOfRange));
    assert_eq!(deserialize("9223372036854775807d-9223372036854775807h"), Err(DurationError::OutOfRange));
    assert_eq!(deserialize("106751991167301d-24h"), Ok(106_751_991_167_300 * 86_400));
}

#[test]
fn what_was_written_is_read_back() {
    for seconds in [1, 59, 60, 61, 3_599, 3_600, 86_399, 86_400, 2_592_000, 1_234_567, i64::MAX] {
        assert_eq!(deserialize(&serialize(seconds)), Ok(seconds));
    }
    assert_eq!(deserialize(&serialize(-5)), Ok(0));
}

#[test]
fn a_missing_duration_is_not_written() {
    assert_eq!(dhms_duration_option::serialize(None), None);
    assert_eq!(dhms_duration_option::serialize(Some(3_661)), Some("1h1m1s".to_string()));
    assert_eq!(dhms_duration_option::serialize(Some(0)), Some(String::new()));
}

#[test]
fn a_written_duration_is_always_present() {
    assert_eq!(dhms_duration_option::deserialize("30d"), Ok(Some(2_592_000)));
    assert_eq!(dhms_duration_option::deserialize(""), Ok(Some(0)));
    assert_eq!(dhms_duration_option::deserialize("xd"), Err(DurationError::BadNumber('d')));
}
