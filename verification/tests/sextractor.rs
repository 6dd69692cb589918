use dragonfly::acquisition::Detection;
use dragonfly::fields::split_fields;
use dragonfly::fixed::Fixed;
use dragonfly::sextractor::{
    assemble, deserialize_sextractor, detections, read_record, CatalogError, CatalogObject, Fault,
    Readings,
};

fn q(text: &str) -> Fixed {
    dragonfly::decimal::parse_decimal(text.as_bytes()).unwrap()
}

const FIRST: &str =
    "         1   512.3456   498.1234   500   525   490   510  1.234568e+05   0   3.45  -12.3456   120   1.234   1023.456";
const SECOND: &str = "2 10.5 20.25 8 13 18 23 250 3 2.1 -8.5 16 1.05 1000";

fn first() -> CatalogObject {
    CatalogObject {
        number: 1,
        x_image: q("512.3456"),
        y_image: q("498.1234"),
        x_min_image: 500,
        y_min_image: 525,
        x_max_image: 490,
        y_max_image: 510,
        flux: q("123456.8"),
        flags: 0,
        fwhm: q("3.45"),
        mag_best: q("-12.3456"),
        area: q("120"),
        elongation: q("1.234"),
        background: q("1023.456"),
    }
}

fn second() -> CatalogObject {
    CatalogObject {
        number: 2,
        x_image: q("10.5"),
        y_image: q("20.25"),
        x_min_image: 8,
        y_min_image: 13,
        x_max_image: 18,
        y_max_image: 23,
        flux: q("250"),
        flags: 3,
        fwhm: q("2.1"),
        mag_best: q("-8.5"),
        area: q("16"),
        elongation: q("1.05"),
        background: q("1000"),
    }
}

#[test]
fn nothing_printed_is_an_empty_catalogue() {
    assert_eq!(deserialize_sextractor(""), Ok(vec![]));
    assert_eq!(deserialize_sextractor("\n"), Ok(vec![]));
    assert_eq!(deserialize_sextractor("\n\n\n"), Ok(vec![]));
}

#[test]
fn one_line_is_one_source() {
    assert_eq!(deserialize_sextractor(FIRST), Ok(vec![first()]));
    assert_eq!(read_record(FIRST.as_bytes()), Ok(first()));
    assert_eq!(read_record(SECOND.as_bytes()), Ok(second()));
}

#[test]
fn lines_are_read_in_order_and_empty_ones_passed_over() {
    let text = format!("{}\n{}\n", FIRST, SECOND);
    assert_eq!(deserialize_sextractor(&text), Ok(vec![first(), second()]));
    let text = format!("\n{}\n\n\n{}", SECOND, FIRST);
    assert_eq!(deserialize_sextractor(&text), Ok(vec![second(), first()]));
    let text = format!("{}\r\n{}\r\n", FIRST, SECOND);
    assert_eq!(deserialize_sextractor(&text), Ok(vec![first(), second()]));
    let text = format!("\t{}\t \n", SECOND.replace(' ', "\t"));
    assert_eq!(deserialize_sextractor(&text), Ok(vec![second()]));
}

#[test]
fn counts_are_read_as_numbers() {
    let text = "18446744073709551615 1 1 0012 4 5 6 7 8 9 10 11 12 13";
    let object = read_record(text.as_bytes()).unwrap();
    assert_eq!(object.number, u64::MAX);
    assert_eq!(object.x_min_image, 12);
    assert_eq!(object.flags, 8);
}

#[test]
fn a_line_with_too_few_or_too_many_fields() {
    let fault = |line: usize| Err(CatalogError { line, fault: Fault::FieldCount });
    assert_eq!(deserialize_sextractor("1 2 3"), fault(0));
    assert_eq!(deserialize_sextractor("   "), fault(0));
    assert_eq!(deserialize_sextractor("\r\n"), fault(0));
    assert_eq!(deserialize_sextractor(&format!("{} 7", SECOND)), fault(0));
    assert_eq!(deserialize_sextractor(&format!("{} 7 8 9 10 11 12", SECOND)), fault(0));
    assert_eq!(deserialize_sextractor(&format!("{}\n\n{}\n1 2 3\n{}", FIRST, SECOND, FIRST)), fault(2));
    assert_eq!(deserialize_sextractor(&format!("{}\n1 2 3\nnonsense\n", FIRST)), fault(1));
}

#[test]
fn a_field_that_cannot_be_read() {
    let with = |column: usize, word: &str| {
        let mut words: Vec<&str> = SECOND.split(' ').collect();
        words[column] = word;
        words.join(" ")
    };
    for column in [0usize, 3, 4, 5, 6, 8] {
        for word in ["x", "-1", "1.5", "18446744073709551616", "1e3"] {
            assert_eq!(
                deserialize_sextractor(&with(column, word)),
                Err(CatalogError { line: 0, fault: Fault::Field(column) })
            );
        }
    }
    for column in [1usize, 2, 7, 9, 10, 11, 12, 13] {
        for word in ["x", "nan", "1e", "1.2.3", "1e10", "--1"] {
            assert_eq!(
                deserialize_sextractor(&with(column, word)),
                Err(CatalogError { line: 0, fault: Fault::Field(column) })
            );
        }
    }
    let two = with(7, "x").replace(" 2.1 ", " y ");
    assert_eq!(
        deserialize_sextractor(&format!("{}\n{}", FIRST, two)),
        Err(CatalogError { line: 1, fault: Fault::Field(7) })
    );
}

#[test]
fn readings_are_assembled_in_field_order() {
    let readings = Readings {
        number: Some(2),
        x_image: Some(q("10.5")),
        y_image: Some(q("20.25")),
        x_min_image: Some(8),
        y_min_image: Some(13),
        x_max_image: Some(18),
        y_max_image: Some(23),
        flux: Some(q("250")),
        flags: Some(3),
        fwhm: Some(q("2.1")),
        mag_best: Some(q("-8.5")),
        area: Some(q("16")),
        elongation: Some(q("1.05")),
        background: Some(q("1000")),
    };
    assert_eq!(assemble(readings), Ok(second()));
    assert_eq!(assemble(Readings { number: None, ..readings }), Err(Fault::Field(0)));
    assert_eq!(assemble(Readings { x_image: None, ..readings }), Err(Fault::Field(1)));
    assert_eq!(assemble(Readings { y_image: None, ..readings }), Err(Fault::Field(2)));
    assert_eq!(assemble(Readings { x_min_image: None, ..readings }), Err(Fault::Field(3)));
    assert_eq!(assemble(Readings { y_min_image: None, ..readings }), Err(Fault::Field(4)));
    assert_eq!(assemble(Readings { x_max_image: None, ..readings }), Err(Fault::Field(5)));
    assert_eq!(assemble(Readings { y_max_image: None, ..readings }), Err(Fault::Field(6)));
    assert_eq!(assemble(Readings { flux: None, ..readings }), Err(Fault::Field(7)));
    assert_eq!(assemble(Readings { flags: None, ..readings }), Err(Fault::Field(8)));
    assert_eq!(assemble(Readings { fwhm: None, ..readings }), Err(Fault::Field(9)));
    assert_eq!(assemble(Readings { mag_best: None, ..readings }), Err(Fault::Field(10)));
    assert_eq!(assemble(Readings { area: None, ..readings }), Err(Fault::Field(11)));
    assert_eq!(assemble(Readings { elongation: None, ..readings }), Err(Fault::Field(12)));
    assert_eq!(assemble(Readings { background: None, ..readings }), Err(Fault::Field(13)));
    assert_eq!(
        assemble(Readings { flux: None, x_min_image: None, background: None, ..readings }),
        Err(Fault::Field(3))
    );
}

#[test]
fn sources_become_detections() {
    assert_eq!(
        detections(&vec![first(), second()]),
        vec![
            Detection { flux: q("123456.8"), area: q("120") },
            Detection { flux: q("250"), area: q("16") },
        ]
    );
    assert_eq!(detections(&vec![]), vec![]);
}

#[test]
fn fields_are_runs_of_bytes_between_spaces() {
    let line = b"  alpha\tbeta \x0b\x0c gamma\r";
    let fields = split_fields(line).unwrap();
    assert_eq!(fields.len(), 3);
    assert_eq!(fields.field(line, 0), b"alpha");
    assert_eq!(fields.field(line, 1), b"beta");
    assert_eq!(fields.field(line, 2), b"gamma");
    assert_eq!(split_fields(b"").unwrap().len(), 0);
    assert_eq!(split_fields(b" \n ").unwrap().len(), 0);
    assert_eq!(split_fields(b"x").unwrap().len(), 1);
    let fourteen = b"a b c d e f g h i j k l m n";
    assert_eq!(split_fields(fourteen).unwrap().len(), 14);
    assert_eq!(split_fields(fourteen).unwrap().field(fourteen, 13), b"n");
    assert!(split_fields(b"a b c d e f g h i j k l m n o").is_none());
    assert!(split_fields(b"a b c d e f g h i j k l m n o ").is_none());
    let nbsp = "a\u{a0}b".as_bytes();
    assert_eq!(split_fields(nbsp).unwrap().len(), 1);
}
