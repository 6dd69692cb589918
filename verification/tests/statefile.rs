use dragonfly::device::{DeviceError, DeviceState, Frame, StateFile, TiltCommand};
use dragonfly::fixed::Fixed;
use dragonfly::statefile::{execute_simulated, found_in, read_state, write_state};

fn q(text: &str) -> Fixed {
    dragonfly::decimal::parse_decimal(text.as_bytes()).unwrap()
}

fn state(description: &[u8], zero: &str, raw: &str, date: &[u8]) -> DeviceState {
    DeviceState {
        description: description.to_vec(),
        zero_point: q(zero),
        raw_angle: q(raw),
        timestamp: date.to_vec(),
    }
}

#[test]
fn a_state_is_written_as_one_record() {
    let text = write_state(&state(b"bench", "0", "171", b"2021-11-02T10:00:00Z"));
    assert_eq!(
        String::from_utf8(text).unwrap(),
        "{\"description\":\"bench\",\"zero_point\":0.000000000,\"raw_angle\":171.000000000,\"date\":\"2021-11-02T10:00:00Z\"}"
    );
}

#[test]
fn quotation_marks_and_backslashes_are_escaped() {
    let text = write_state(&state(b"a \"b\" \\ c", "-1.5", "2", b"\\\""));
    assert_eq!(
        String::from_utf8(text).unwrap(),
        "{\"description\":\"a \\\"b\\\" \\\\ c\",\"zero_point\":-1.500000000,\"raw_angle\":2.000000000,\"date\":\"\\\\\\\"\"}"
    );
}

#[test]
fn a_written_state_is_read_back() {
    for s in [
        state(b"bench", "0", "171", b"2021-11-02T10:00:00Z"),
        state(b"", "0", "0", b""),
        state(b"a \"b\" \\ c\n{},:", "-12.000000001", "359.999999999", b"\\"),
        state("Kippschalter \u{e4}\u{f6}\u{fc}".as_bytes(), "9223372036.854775807", "-9223372036.854775808", b"x"),
        state(&[0, 1, 2, 255, 34, 92, 34], "1", "2", &[92, 92, 34, 34]),
    ] {
        let text = write_state(&s);
        assert_eq!(read_state(&text), Some(s));
    }
}

#[test]
fn blanks_are_allowed_between_the_parts() {
    let text = b" {\n  \"description\" : \"bench\" ,\n  \"zero_point\": 1.5,\n  \"raw_angle\":\t1.71e2,\r\n  \"date\": \"now\"\n}\n";
    assert_eq!(read_state(text), Some(state(b"bench", "1.5", "171", b"now")));
}

#[test]
fn what_is_no_record_is_not_read() {
    let good = "{\"description\":\"bench\",\"zero_point\":1,\"raw_angle\":2,\"date\":\"now\"}";
    assert!(read_state(good.as_bytes()).is_some());
    for bad in [
        "",
        "{}",
        "nonsense",
        "{\"description\":\"bench\",\"zero_point\":1,\"raw_angle\":2,\"date\":\"now\"",
        "{\"description\":\"bench\",\"zero_point\":1,\"raw_angle\":2,\"date\":\"now\"}x",
        "{\"description\":\"bench\",\"zero_point\":1,\"raw_angle\":2,\"date\":\"now\"}}",
        "\"description\":\"bench\",\"zero_point\":1,\"raw_angle\":2,\"date\":\"now\"}",
        "{\"description\":\"bench\",\"raw_angle\":2,\"zero_point\":1,\"date\":\"now\"}",
        "{\"description\":\"bench\",\"zero_point\":1,\"raw_angle\":2}",
        "{\"description\":\"bench\",\"zero_point\":1,\"raw_angle\":2,\"date\":\"now\",}",
        "{\"description\":\"bench\" \"zero_point\":1,\"raw_angle\":2,\"date\":\"now\"}",
        "{\"description\" \"bench\",\"zero_point\":1,\"raw_angle\":2,\"date\":\"now\"}",
        "{\"description\":bench,\"zero_point\":1,\"raw_angle\":2,\"date\":\"now\"}",
        "{\"description\":\"bench,\"zero_point\":1,\"raw_angle\":2,\"date\":\"now\"}",
        "{\"description\":\"be\\nch\",\"zero_point\":1,\"raw_angle\":2,\"date\":\"now\"}",
        "{\"description\":\"bench\\\",\"zero_point\":1,\"raw_angle\":2,\"date\":\"now\"}",
        "{\"description\":\"bench\",\"zero_point\":\"1\",\"raw_angle\":2,\"date\":\"now\"}",
        "{\"description\":\"bench\",\"zero_point\":,\"raw_angle\":2,\"date\":\"now\"}",
        "{\"description\":\"bench\",\"zero_point\":1 0,\"raw_angle\":2,\"date\":\"now\"}",
        "{\"description\":\"bench\",\"zero_point\":1e10,\"raw_angle\":2,\"date\":\"now\"}",
        "{\"description\":\"bench\",\"zero_point\":1,\"raw_angle\":nan,\"date\":\"now\"}",
        "{\"description\":\"bench\",\"zero_point\":1,\"raw_angle\":2,\"date\":now}",
        "{\"Description\":\"bench\",\"zero_point\":1,\"raw_angle\":2,\"date\":\"now\"}",
        "{\"description\":\"bench\",\"zero_point\":1,\"raw_angle\":2,\"date\":\"now",
    ] {
        assert_eq!(read_state(bad.as_bytes()), None);
    }
}

#[test]
fn what_is_found_in_a_file() {
    assert_eq!(found_in(None), StateFile::Missing);
    assert_eq!(found_in(Some(b"")), StateFile::Corrupt);
    assert_eq!(found_in(Some(b"{}")), StateFile::Corrupt);
    let s = state(b"bench", "3", "174", b"now");
    let text = write_state(&s);
    assert_eq!(found_in(Some(&text)), StateFile::Loaded(s));
}

#[test]
fn the_first_command_creates_the_file() {
    let (text, outcome) = execute_simulated(
        None,
        TiltCommand::GetAngle(q("175")),
        b"simulated tilter".to_vec(),
        b"2021-11-02T10:00:00Z".to_vec(),
    )
    .unwrap();
    assert_eq!((outcome.frame, outcome.angle), (Frame::Absolute, q("175")));
    assert_eq!(
        read_state(&text),
        Some(state(b"simulated tilter", "0", "175", b"2021-11-02T10:00:00Z"))
    );
}

#[test]
fn every_command_rewrites_the_file_and_the_next_one_sees_it() {
    let label = || (b"bench".to_vec(), b"t0".to_vec());
    let run = |contents: Option<&[u8]>, command| {
        let (d, t) = label();
        execute_simulated(contents, command, d, t).unwrap()
    };
    let (file, _) = run(None, TiltCommand::SetZero(q("1.234567891")));
    let (file, outcome) = run(Some(&file), TiltCommand::GetZero);
    assert_eq!(outcome.angle, q("1.234567891"));
    let (file, outcome) = run(Some(&file), TiltCommand::GetRaw);
    assert_eq!(outcome.angle, q("171"));
    let (file, outcome) = run(Some(&file), TiltCommand::GetAngle(q("180")));
    assert_eq!(outcome.angle, q("180"));
    let (file, outcome) = run(Some(&file), TiltCommand::Zero);
    assert_eq!((outcome.frame, outcome.angle), (Frame::Zero, q("181.234567891")));
    let (file, outcome) = run(Some(&file), TiltCommand::SetRaw(q("-0.000000001")));
    assert_eq!(outcome.frame, Frame::Raw);
    assert_eq!(
        read_state(&file),
        Some(state(b"bench", "181.234567891", "-0.000000001", b"t0"))
    );
}

#[test]
fn a_file_that_holds_no_state_fails_the_command() {
    let result = execute_simulated(Some(b"{oops"), TiltCommand::GetRaw, b"d".to_vec(), b"t".to_vec());
    assert_eq!(result, Err(DeviceError::CorruptState));
}

#[test]
fn an_angle_that_cannot_be_stored_fails_the_command() {
    let text = write_state(&state(b"bench", "1", "171", b"now"));
    let result = execute_simulated(
        Some(&text),
        TiltCommand::GetAngle(Fixed::from_nanos(i64::MAX)),
        b"d".to_vec(),
        b"t".to_vec(),
    );
    assert_eq!(result, Err(DeviceError::OutOfRange));
}
