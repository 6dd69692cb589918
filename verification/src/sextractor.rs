//! Reading the catalogue that the source detector prints.
//!
//! The detector prints one line for each source, fourteen fields to a line,
//! separated by blanks. Six fields are counts and are read by
//! `lexical::parse`; eight are decimal numbers and are read into
//! fixed-point quantities.

use crate::acquisition::Detection;
use crate::decimal::{decimal_value, parse_decimal};
use crate::fields::{fields_of, split_fields};
use crate::fixed::{fixed, Fixed};
use vstd::prelude::*;
use vstd::slice::slice_subrange;
use vstd::string::StringSliceAdditionalSpecFns;

verus! {

/// Number of fields of a catalogue line.
pub const COLUMNS: usize = 14;

/// One source of the catalogue.
#[derive(Clone, Copy, Debug, PartialEq, Eq, Structural)]
pub struct CatalogObject {
    /// Running number of the source.
    pub number: u64,
    /// Position along x, in pixels.
    pub x_image: Fixed,
    /// Position along y, in pixels.
    pub y_image: Fixed,
    /// The fourth field.
    pub x_min_image: u64,
    /// The fifth field.
    pub y_min_image: u64,
    /// The sixth field.
    pub x_max_image: u64,
    /// The seventh field.
    pub y_max_image: u64,
    /// Flux in counts.
    pub flux: Fixed,
    /// Extraction flags.
    pub flags: u64,
    /// Full width at half maximum, in pixels.
    pub fwhm: Fixed,
    /// Magnitude.
    pub mag_best: Fixed,
    /// Area in pixels.
    pub area: Fixed,
    /// Ratio of the major to the minor axis.
    pub elongation: Fixed,
    /// Background at the source, in counts.
    pub background: Fixed,
}

/// What was made of the fourteen fields of a line, field by field: `None`
/// where a field could not be read.
#[derive(Clone, Copy, Debug, PartialEq, Eq, Structural)]
pub struct Readings {
    pub number: Option<u64>,
    pub x_image: Option<Fixed>,
    pub y_image: Option<Fixed>,
    pub x_min_image: Option<u64>,
    pub y_min_image: Option<u64>,
    pub x_max_image: Option<u64>,
    pub y_max_image: Option<u64>,
    pub flux: Option<Fixed>,
    pub flags: Option<u64>,
    pub fwhm: Option<Fixed>,
    pub mag_best: Option<Fixed>,
    pub area: Option<Fixed>,
    pub elongation: Option<Fixed>,
    pub background: Option<Fixed>,
}

/// What is wrong with a line.
#[derive(Clone, Copy, Debug, PartialEq, Eq, Structural)]
pub enum Fault {
    /// The line has other than fourteen fields.
    FieldCount,
    /// The field with this index, counted from 0, could not be read.
    Field(usize),
}

/// A catalogue that could not be read: the first line at fault, counted
/// from 0 among the lines that are not empty, and what is wrong with it.
#[derive(Clone, Copy, Debug, PartialEq, Eq, Structural)]
pub struct CatalogError {
    pub line: usize,
    pub fault: Fault,
}

/// The source that the readings describe, or the first field that could not
/// be read.
pub open spec fn assembled(r: Readings) -> Result<CatalogObject, Fault> {
    if r.number is None {
        Err(Fault::Field(0))
    } else if r.x_image is None {
        Err(Fault::Field(1))
    } else if r.y_image is None {
        Err(Fault::Field(2))
    } else if r.x_min_image is None {
        Err(Fault::Field(3))
    } else if r.y_min_image is None {
        Err(Fault::Field(4))
    } else if r.x_max_image is None {
        Err(Fault::Field(5))
    } else if r.y_max_image is None {
        Err(Fault::Field(6))
    } else if r.flux is None {
        Err(Fault::Field(7))
    } else if r.flags is None {
        Err(Fault::Field(8))
    } else if r.fwhm is None {
        Err(Fault::Field(9))
    } else if r.mag_best is None {
        Err(Fault::Field(10))
    } else if r.area is None {
        Err(Fault::Field(11))
    } else if r.elongation is None {
        Err(Fault::Field(12))
    } else if r.background is None {
        Err(Fault::Field(13))
    } else {
        Ok(
            CatalogObject {
                number: r.number->Some_0,
                x_image: r.x_image->Some_0,
                y_image: r.y_image->Some_0,
                x_min_image: r.x_min_image->Some_0,
                y_min_image: r.y_min_image->Some_0,
                x_max_image: r.x_max_image->Some_0,
                y_max_image: r.y_max_image->Some_0,
                flux: r.flux->Some_0,
                flags: r.flags->Some_0,
                fwhm: r.fwhm->Some_0,
                mag_best: r.mag_best->Some_0,
                area: r.area->Some_0,
                elongation: r.elongation->Some_0,
                background: r.background->Some_0,
            },
        )
    }
}

/// Puts a source together from the readings of its fields. The fields are
/// taken in their order, and the first that could not be read is reported.
pub fn assemble(r: Readings) -> (result: Result<CatalogObject, Fault>)
    ensures
        result == assembled(r),
{
    let number = match r.number { Some(v) => v, None => { return Err(Fault::Field(0)); } };
    let x_image = match r.x_image { Some(v) => v, None => { return Err(Fault::Field(1)); } };
    let y_image = match r.y_image { Some(v) => v, None => { return Err(Fault::Field(2)); } };
    let x_min_image = match r.x_min_image { Some(v) => v, None => { return Err(Fault::Field(3)); } };
    let y_min_image = match r.y_min_image { Some(v) => v, None => { return Err(Fault::Field(4)); } };
    let x_max_image = match r.x_max_image { Some(v) => v, None => { return Err(Fault::Field(5)); } };
    let y_max_image = match r.y_max_image { Some(v) => v, None => { return Err(Fault::Field(6)); } };
    let flux = match r.flux { Some(v) => v, None => { return Err(Fault::Field(7)); } };
    let flags = match r.flags { Some(v) => v, None => { return Err(Fault::Field(8)); } };
    let fwhm = match r.fwhm { Some(v) => v, None => { return Err(Fault::Field(9)); } };
    let mag_best = match r.mag_best { Some(v) => v, None => { return Err(Fault::Field(10)); } };
    let area = match r.area { Some(v) => v, None => { return Err(Fault::Field(11)); } };
    let elongation = match r.elongation { Some(v) => v, None => { return Err(Fault::Field(12)); } };
    let background = match r.background { Some(v) => v, None => { return Err(Fault::Field(13)); } };
    Ok(
        CatalogObject {
            number,
            x_image,
            y_image,
            x_min_image,
            y_min_image,
            x_max_image,
            y_max_image,
            flux,
            flags,
            fwhm,
            mag_best,
            area,
            elongation,
            background,
        },
    )
}

/// What `lexical::parse::<u64, _>` makes of `text`: the number it reads, or
/// `None` where it reports an error.
pub uninterp spec fn lexical_u64(text: Seq<u8>) -> Option<u64>;

/// `lexical::parse::<u64, _>` on the bytes of a field.
#[verifier::external_body]
fn parse_count(text: &[u8]) -> (number: Option<u64>)
    ensures
        number == lexical_u64(text@),
{
    lexical::parse::<u64, _>(text).ok()
}

/// The quantity that the decimal literal `text` spells, if it is one.
pub open spec fn decimal_of(text: Seq<u8>) -> Option<Fixed> {
    match decimal_value(text) {
        Some(v) => Some(fixed(v)),
        None => None,
    }
}

/// The readings of fourteen fields.
pub open spec fn readings_of(f: Seq<Seq<u8>>) -> Readings {
    Readings {
        number: lexical_u64(f[0]),
        x_image: decimal_of(f[1]),
        y_image: decimal_of(f[2]),
        x_min_image: lexical_u64(f[3]),
        y_min_image: lexical_u64(f[4]),
        x_max_image: lexical_u64(f[5]),
        y_max_image: lexical_u64(f[6]),
        flux: decimal_of(f[7]),
        flags: lexical_u64(f[8]),
        fwhm: decimal_of(f[9]),
        mag_best: decimal_of(f[10]),
        area: decimal_of(f[11]),
        elongation: decimal_of(f[12]),
        background: decimal_of(f[13]),
    }
}

/// The source that `line` describes, or what is wrong with the line.
pub open spec fn record_of(line: Seq<u8>) -> Result<CatalogObject, Fault> {
    if fields_of(line).len() != COLUMNS {
        Err(Fault::FieldCount)
    } else {
        assembled(readings_of(fields_of(line)))
    }
}

fn read_decimal(text: &[u8]) -> (value: Option<Fixed>)
    ensures
        value == decimal_of(text@),
{
    parse_decimal(text)
}

/// Reads one line of the catalogue.
pub fn read_record(line: &[u8]) -> (result: Result<CatalogObject, Fault>)
    ensures
        result == record_of(line@),
{
    let fields = match split_fields(line) {
        Some(fields) => fields,
        None => {
            return Err(Fault::FieldCount);
        },
    };
    if fields.len() != COLUMNS {
        return Err(Fault::FieldCount);
    }
    let readings = Readings {
        number: parse_count(fields.field(line, 0)),
        x_image: read_decimal(fields.field(line, 1)),
        y_image: read_decimal(fields.field(line, 2)),
        x_min_image: parse_count(fields.field(line, 3)),
        y_min_image: parse_count(fields.field(line, 4)),
        x_max_image: parse_count(fields.field(line, 5)),
        y_max_image: parse_count(fields.field(line, 6)),
        flux: read_decimal(fields.field(line, 7)),
        flags: parse_count(fields.field(line, 8)),
        fwhm: read_decimal(fields.field(line, 9)),
        mag_best: read_decimal(fields.field(line, 10)),
        area: read_decimal(fields.field(line, 11)),
        elongation: read_decimal(fields.field(line, 12)),
        background: read_decimal(fields.field(line, 13)),
    };
    assemble(readings)
}

/// The lines of `text`: what stands between its line feeds, before the
/// first and after the last. Stated byte by byte: a line feed starts a new,
/// empty line, and any other byte is added to the last line.
pub open spec fn lines_of(text: Seq<u8>) -> Seq<Seq<u8>>
    decreases text.len(),
{
    if text.len() == 0 {
        seq![Seq::<u8>::empty()]
    } else {
        let before = lines_of(text.drop_last());
        if text.last() == 10 {
            before.push(Seq::<u8>::empty())
        } else {
            before.update(before.len() - 1, before.last().push(text.last()))
        }
    }
}

/// The sources that `lines` describe, one for each line that is not empty,
/// or the first line that is at fault.
pub open spec fn catalog_of(lines: Seq<Seq<u8>>) -> Result<Seq<CatalogObject>, CatalogError>
    decreases lines.len(),
{
    if lines.len() == 0 {
        Ok(Seq::empty())
    } else {
        match catalog_of(lines.drop_last()) {
            Err(e) => Err(e),
            Ok(objects) => if lines.last().len() == 0 {
                Ok(objects)
            } else {
                match record_of(lines.last()) {
                    Ok(object) => Ok(objects.push(object)),
                    Err(fault) => Err(CatalogError { line: objects.len() as usize, fault }),
                }
            },
        }
    }
}

/// Text always has a line.
pub proof fn lemma_lines_exist(text: Seq<u8>)
    ensures
        lines_of(text).len() >= 1,
    decreases text.len(),
{
    if text.len() > 0 {
        lemma_lines_exist(text.drop_last());
    }
}

/// The lines that a beginning of a text has left behind are lines of the
/// whole text.
pub proof fn lemma_lines_settle(text: Seq<u8>, upto: int)
    requires
        0 <= upto <= text.len(),
    ensures
        1 <= lines_of(text.take(upto)).len() <= lines_of(text).len(),
        lines_of(text).take(lines_of(text.take(upto)).len() - 1) =~= lines_of(
            text.take(upto),
        ).drop_last(),
    decreases text.len(),
{
    lemma_lines_exist(text.take(upto));
    if upto == text.len() {
        assert(text.take(upto) =~= text);
    } else {
        let front = text.drop_last();
        assert(front.take(upto) =~= text.take(upto));
        lemma_lines_settle(front, upto);
    }
}

/// A catalogue that fails on some of its first lines fails in the same way
/// as a whole.
pub proof fn lemma_catalog_fails(lines: Seq<Seq<u8>>, upto: int)
    requires
        0 <= upto <= lines.len(),
        catalog_of(lines.take(upto)) is Err,
    ensures
        catalog_of(lines) == catalog_of(lines.take(upto)),
    decreases lines.len(),
{
    if upto == lines.len() {
        assert(lines.take(upto) =~= lines);
    } else {
        assert(lines.drop_last().take(upto) =~= lines.take(upto));
        lemma_catalog_fails(lines.drop_last(), upto);
    }
}

/// Reads the catalogue that the detector printed. Empty lines are passed
/// over; every other line must describe a source.
pub fn deserialize_sextractor(output: &str) -> (catalog: Result<Vec<CatalogObject>, CatalogError>)
    ensures
        match catalog_of(lines_of(output.spec_bytes())) {
            Ok(objects) => catalog is Ok && catalog->Ok_0@ == objects,
            Err(e) => catalog == Err::<Vec<CatalogObject>, CatalogError>(e),
        },
{
    let bytes = output.as_bytes();
    let mut objects: Vec<CatalogObject> = Vec::new();
    let mut start: usize = 0;
    let mut i: usize = 0;
    while i < bytes.len()
        invariant
            bytes@ == output.spec_bytes(),
            start <= i <= bytes@.len(),
            lines_of(bytes@.take(i as int)).len() >= 1,
            lines_of(bytes@.take(i as int)).last() == bytes@.subrange(start as int, i as int),
            catalog_of(lines_of(bytes@.take(i as int)).drop_last()) == Ok::<
                Seq<CatalogObject>,
                CatalogError,
            >(objects@),
        decreases bytes@.len() - i,
    {
        let ghost before = lines_of(bytes@.take(i as int));
        proof {
            assert(bytes@.take(i + 1).drop_last() =~= bytes@.take(i as int));
            assert(bytes@.take(i + 1).last() == bytes@[i as int]);
        }
        if bytes[i] == 10 {
            proof {
                assert(before.push(Seq::<u8>::empty()).drop_last() =~= before);
                assert(bytes@.subrange(i + 1, i + 1) =~= Seq::<u8>::empty());
            }
            if i > start {
                match read_record(slice_subrange(bytes, start, i)) {
                    Ok(object) => {
                        objects.push(object);
                    },
                    Err(fault) => {
                        proof {
                            let settled = lines_of(bytes@.take(i + 1));
                            assert(before.last().len() > 0);
                            assert(record_of(before.last()) == Err::<CatalogObject, Fault>(fault));
                            assert(catalog_of(before) == Err::<Seq<CatalogObject>, CatalogError>(
                                CatalogError { line: objects@.len() as usize, fault },
                            ));
                            assert(settled.drop_last() =~= before);
                            lemma_lines_settle(bytes@, i + 1);
                            assert(lines_of(bytes@).take(before.len() as int) =~= before);
                            lemma_catalog_fails(lines_of(bytes@), before.len() as int);
                        }
                        return Err(CatalogError { line: objects.len(), fault });
                    },
                }
            }
            start = i + 1;
        } else {
            proof {
                let after = before.update(before.len() - 1, before.last().push(bytes@[i as int]));
                assert(after.drop_last() =~= before.drop_last());
                assert(bytes@.subrange(start as int, i + 1) =~= bytes@.subrange(
                    start as int,
                    i as int,
                ).push(bytes@[i as int]));
            }
        }
        i = i + 1;
    }
    proof {
        assert(bytes@.take(i as int) =~= bytes@);
    }
    if i > start {
        match read_record(slice_subrange(bytes, start, i)) {
            Ok(object) => {
                objects.push(object);
            },
            Err(fault) => {
                return Err(CatalogError { line: objects.len(), fault });
            },
        }
    }
    Ok(objects)
}

/// What each source of a catalogue means to the acquisition: its flux and
/// its area.
pub fn detections(catalog: &Vec<CatalogObject>) -> (found: Vec<Detection>)
    ensures
        found@.len() == catalog@.len(),
        forall|i: int|
            0 <= i < catalog@.len() ==> #[trigger] found@[i] == (Detection {
                flux: catalog@[i].flux,
                area: catalog@[i].area,
            }),
{
    let mut found: Vec<Detection> = Vec::new();
    let mut i: usize = 0;
    while i < catalog.len()
        invariant
            i <= catalog@.len(),
            found@.len() == i,
            forall|j: int|
                0 <= j < i ==> #[trigger] found@[j] == (Detection {
                    flux: catalog@[j].flux,
                    area: catalog@[j].area,
                }),
        decreases catalog@.len() - i,
    {
        found.push(Detection { flux: catalog[i].flux, area: catalog[i].area });
        i = i + 1;
    }
    found
}

} // verus!
