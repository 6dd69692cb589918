use dragonfly::timestamp::{iso_text, moment_of, timestamp, Moment};

fn written(seconds: u64) -> String {
    String::from_utf8(timestamp(seconds)).unwrap()
}

#[test]
fn the_first_second_of_1970() {
    assert_eq!(written(0), "1970-01-01T00:00:00Z");
    assert_eq!(
        moment_of(0),
        Moment { year: 1970, month: 1, day: 1, hour: 0, minute: 0, second: 0 }
    );
}

#[test]
fn seconds_are_told_as_dates() {
    assert_eq!(written(59), "1970-01-01T00:00:59Z");
    assert_eq!(written(86_399), "1970-01-01T23:59:59Z");
    assert_eq!(written(86_400), "1970-01-02T00:00:00Z");
    assert_eq!(written(31 * 86_400), "1970-02-01T00:00:00Z");
    assert_eq!(written(365 * 86_400 - 1), "1970-12-31T23:59:59Z");
    assert_eq!(written(365 * 86_400), "1971-01-01T00:00:00Z");
    assert_eq!(written(1_635_847_200), "2021-11-02T10:00:00Z");
    assert_eq!(written(1_000_000_000), "2001-09-09T01:46:40Z");
    assert_eq!(written(2_147_483_647), "2038-01-19T03:14:07Z");
}

#[test]
fn leap_years_have_their_29th_of_february() {
    assert_eq!(written(68_169_600), "1972-02-29T00:00:00Z");
    assert_eq!(written(951_782_400), "2000-02-29T00:00:00Z");
    assert_eq!(written(951_868_800), "2000-03-01T00:00:00Z");
    assert_eq!(written(4_107_456_000), "2100-02-28T00:00:00Z");
    assert_eq!(written(4_107_542_400), "2100-03-01T00:00:00Z");
    assert_eq!(written(1_709_251_199), "2024-02-29T23:59:59Z");
}

#[test]
fn years_of_five_digits_are_written_in_full() {
    assert_eq!(written(253_402_300_799), "9999-12-31T23:59:59Z");
    assert_eq!(written(253_402_300_800), "10000-01-01T00:00:00Z");
    let moment = Moment { year: 123_456, month: 7, day: 8, hour: 9, minute: 10, second: 11 };
    assert_eq!(String::from_utf8(iso_text(&moment)).unwrap(), "123456-07-08T09:10:11Z");
    let moment = Moment { year: 7, month: 1, day: 2, hour: 3, minute: 4, second: 5 };
    assert_eq!(String::from_utf8(iso_text(&moment)).unwrap(), "0007-01-02T03:04:05Z");
}
