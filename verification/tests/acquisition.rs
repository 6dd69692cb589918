use dragonfly::acquisition::{
    select_spot, CalibrationPlan, Detection, Tally, ValidationError,
};
use dragonfly::fixed::Fixed;

fn q(text: &str) -> Fixed {
    dragonfly::decimal::parse_decimal(text.as_bytes()).unwrap()
}

fn plan(start: &str, end: &str, nstep: usize, exptime: &str) -> CalibrationPlan {
    CalibrationPlan {
        start: q(start),
        end: q(end),
        nstep,
        exptime: q(exptime),
        naverage: 1,
        keep_images: false,
        simulate: true,
    }
}

fn spot(flux: &str, area: &str) -> Detection {
    Detection { flux: q(flux), area: q(area) }
}

#[test]
fn a_sound_plan_is_accepted() {
    assert_eq!(plan("160", "200", 30, "60").validate(), Ok(()));
    assert_eq!(plan("160", "160", 2, "0.000000001").validate(), Ok(()));
    assert_eq!(plan("200", "200", 2, "1").validate(), Ok(()));
}

#[test]
fn each_rule_has_its_error() {
    assert_eq!(plan("159.999999999", "200", 30, "60").validate(), Err(ValidationError::StartOutOfRange));
    assert_eq!(plan("200.000000001", "200", 30, "60").validate(), Err(ValidationError::StartOutOfRange));
    assert_eq!(plan("160", "159.9", 30, "60").validate(), Err(ValidationError::EndOutOfRange));
    assert_eq!(plan("160", "200.1", 30, "60").validate(), Err(ValidationError::EndOutOfRange));
    assert_eq!(plan("190", "180", 30, "60").validate(), Err(ValidationError::StartAfterEnd));
    assert_eq!(plan("160", "200", 1, "60").validate(), Err(ValidationError::TooFewSteps));
    assert_eq!(plan("160", "200", 0, "60").validate(), Err(ValidationError::TooFewSteps));
    assert_eq!(plan("160", "200", 30, "0").validate(), Err(ValidationError::ExposureNotPositive));
    assert_eq!(plan("160", "200", 30, "-1").validate(), Err(ValidationError::ExposureNotPositive));
}

#[test]
fn the_first_broken_rule_is_reported() {
    assert_eq!(plan("100", "300", 0, "0").validate(), Err(ValidationError::StartOutOfRange));
    assert_eq!(plan("170", "300", 0, "0").validate(), Err(ValidationError::EndOutOfRange));
    assert_eq!(plan("180", "170", 0, "0").validate(), Err(ValidationError::StartAfterEnd));
    assert_eq!(plan("170", "180", 0, "0").validate(), Err(ValidationError::TooFewSteps));
}

#[test]
fn three_steps_from_170_to_180() {
    let angles = plan("170", "180", 3, "1").target_angles();
    assert_eq!(angles, vec![q("170.0"), q("175.0"), q("180.0")]);
}

#[test]
fn target_angles_are_rounded_to_one_decimal() {
    let angles = plan("160", "161", 4, "1").target_angles();
    assert_eq!(angles, vec![q("160.0"), q("160.3"), q("160.7"), q("161.0")]);
    let angles = plan("170.04", "170.26", 3, "1").target_angles();
    assert_eq!(angles, vec![q("170.0"), q("170.2"), q("170.3")]);
    let angles = plan("170.05", "170.05", 2, "1").target_angles();
    assert_eq!(angles, vec![q("170.1"), q("170.1")]);
}

#[test]
fn thirty_steps_over_the_whole_range() {
    let angles = plan("160", "200", 30, "60").target_angles();
    assert_eq!(angles.len(), 30);
    assert_eq!(angles[0], q("160"));
    assert_eq!(angles[1], q("161.4"));
    assert_eq!(angles[2], q("162.8"));
    assert_eq!(angles[15], q("180.7"));
    assert_eq!(angles[29], q("200"));
    for pair in angles.windows(2) {
        assert!(pair[0].nanos() <= pair[1].nanos());
    }
}

#[test]
fn the_spot_is_the_first_source_of_least_area() {
    assert_eq!(select_spot(&vec![]), None);
    assert_eq!(select_spot(&vec![spot("1", "5")]), Some(0));
    let found = vec![spot("10", "7"), spot("20", "3"), spot("30", "9"), spot("40", "3")];
    assert_eq!(select_spot(&found), Some(1));
    let found = vec![spot("10", "-1"), spot("20", "0")];
    assert_eq!(select_spot(&found), Some(0));
}

#[test]
fn a_single_exposure_is_not_averaged() {
    let mut tally = Tally::new();
    tally.record(&vec![spot("123.456789012", "7.000000001"), spot("5", "9")]);
    let frame = tally.average(q("175"), q("175.25"));
    assert_eq!(frame.angle, q("175"));
    assert_eq!(frame.raw_angle, q("175.25"));
    assert_eq!(frame.spotflux, q("123.456789012"));
    assert_eq!(frame.spotarea, q("7.000000001"));
    assert_eq!(frame.nobj, 2);
}

#[test]
fn exposures_are_averaged() {
    let mut tally = Tally::new();
    assert_eq!(tally.exposures(), 0);
    tally.record(&vec![spot("100", "5")]);
    tally.record(&vec![spot("50", "9"), spot("101", "4"), spot("7", "30")]);
    tally.record(&vec![]);
    assert_eq!(tally.exposures(), 3);
    let frame = tally.average(q("170"), q("170"));
    assert_eq!(frame.spotflux, q("67"));
    assert_eq!(frame.spotarea, q("3"));
    assert_eq!(frame.nobj, 1);
}

#[test]
fn means_are_rounded_to_the_nearest_billionth() {
    let mut tally = Tally::new();
    tally.record(&vec![spot("0.000000001", "0.000000002")]);
    tally.record(&vec![spot("0.000000002", "0.000000002")]);
    let frame = tally.average(q("170"), q("170"));
    assert_eq!(frame.spotflux, q("0.000000002"));
    assert_eq!(frame.spotarea, q("0.000000002"));
    let mut tally = Tally::new();
    tally.record(&vec![spot("-0.000000001", "1")]);
    tally.record(&vec![spot("-0.000000002", "1")]);
    tally.record(&vec![spot("-0.000000001", "2")]);
    let frame = tally.average(q("170"), q("170"));
    assert_eq!(frame.spotflux, q("-0.000000001"));
    assert_eq!(frame.spotarea, q("1.333333333"));
}

#[test]
fn an_exposure_without_sources_counts_as_an_exposure() {
    let mut tally = Tally::new();
    tally.record(&vec![]);
    let frame = tally.average(q("170"), q("171"));
    assert_eq!(frame.spotflux, q("0"));
    assert_eq!(frame.spotarea, q("0"));
    assert_eq!(frame.nobj, 0);
}

#[test]
fn the_largest_values_do_not_overflow() {
    let most = Fixed::from_nanos(i64::MAX);
    let least = Fixed::from_nanos(i64::MIN);
    let mut tally = Tally::new();
    for _ in 0..4 {
        tally.record(&vec![Detection { flux: most, area: least }]);
    }
    let frame = tally.average(q("170"), q("170"));
    assert_eq!(frame.spotflux, most);
    assert_eq!(frame.spotarea, least);
    assert_eq!(frame.nobj, 1);
}
