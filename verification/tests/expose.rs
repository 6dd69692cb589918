use dragonfly::expose::{exposure_arguments, saved_path, ImageType};

#[test]
fn a_light_exposure() {
    assert_eq!(
        exposure_arguments(ImageType::Light, "0.1", "/code/out/test.fits"),
        vec!["expose", "--duration", "0.1", "--file", "/code/out/test.fits"]
    );
}

#[test]
fn a_dark_exposure() {
    assert_eq!(
        exposure_arguments(ImageType::Dark, "60", "dark.fits"),
        vec!["expose", "--dark", "--duration", "60", "--file", "dark.fits"]
    );
}

#[test]
fn the_saved_image_is_the_second_word() {
    let report = b"Saved /home/js/data/DRAGONFLY301_1_light.fits";
    assert_eq!(saved_path(report), Some(&b"/home/js/data/DRAGONFLY301_1_light.fits"[..]));
    assert_eq!(saved_path(b"  Saved\tC:\\images\\a.fits\r\n"), Some(&b"C:\\images\\a.fits"[..]));
}

#[test]
fn a_report_of_other_than_two_words() {
    assert_eq!(saved_path(b""), None);
    assert_eq!(saved_path(b"Saved"), None);
    assert_eq!(saved_path(b"Saved a b"), None);
    assert_eq!(saved_path(b"a b c d e f g h i j k l m n o p q"), None);
}

#[test]
fn the_exposure_script_is_asked_for_a_light_exposure() {
    assert_eq!(
        dragonfly::expose::script_arguments("C:\\df", "60", "172.4", "172.4"),
        vec![
            "/nologo",
            "C:\\df\\VBScript\\Expose.vbs",
            "light",
            "60",
            "/tiltgoal:172.4",
            "/rawtilt:172.4"
        ]
    );
}

#[test]
fn a_simulated_exposure_reports_the_image_of_its_number() {
    let report = dragonfly::expose::simulated_report(7);
    assert_eq!(
        String::from_utf8(report.clone()).unwrap(),
        "Saved /home/js/programs/dragonfly/data/LaserCalibration/DRAGONFLY301_7_light.fits"
    );
    assert_eq!(
        saved_path(&report),
        Some(&b"/home/js/programs/dragonfly/data/LaserCalibration/DRAGONFLY301_7_light.fits"[..])
    );
    let report = dragonfly::expose::simulated_report(1234567890);
    assert_eq!(
        saved_path(&report),
        Some(&b"/home/js/programs/dragonfly/data/LaserCalibration/DRAGONFLY301_1234567890_light.fits"[..])
    );
}
