//! Reference transmittance tables of the bandpass filters.
//!
//! A table lists, wavelength by wavelength, the transmittance of one filter
//! for three families of incidence angles. The tables are read once, kept in
//! a [`TransmissionTables`], and only ever read from there.

use crate::fixed::Fixed;
use vstd::prelude::*;

verus! {

/// One row of a transmittance table: three wavelength columns, in
/// nanometres, and the transmittance measured in each family.
#[derive(Clone, Copy, Debug, PartialEq, Eq, Structural)]
pub struct AOIRecord {
    pub lambda_coll: Fixed,
    pub lambda_22deg: Fixed,
    pub lambda_3deg: Fixed,
    pub t_coll: Fixed,
    pub t_22deg: Fixed,
    pub t_3deg: Fixed,
}

/// A family of incidence angles.
#[derive(Clone, Copy, Debug, PartialEq, Eq, Structural)]
pub enum Wavefront {
    /// Collimated light.
    TCOLL,
    /// A cone of about 3 degrees.
    T3,
    /// A cone of about 22 degrees.
    T22,
}

/// A filter and the angle at which its table was measured.
#[derive(Clone, Copy, Debug, PartialEq, Eq, Structural)]
pub enum Filter {
    Bpf08Deg0,
    Bpf08Deg10,
    Bpf31Deg0,
    Bpf31Deg10,
}

/// The transmittance that `record` lists for `wavefront`.
pub open spec fn transmittance(record: AOIRecord, wavefront: Wavefront) -> Fixed {
    match wavefront {
        Wavefront::TCOLL => record.t_coll,
        Wavefront::T3 => record.t_3deg,
        Wavefront::T22 => record.t_22deg,
    }
}

/// The path of the table of `filter`, relative to the working directory.
pub open spec fn table_path(filter: Filter) -> Seq<char> {
    match filter {
        Filter::Bpf08Deg0 => "data/FilterTransmissionCurves/0.8BPF_0deg.csv"@,
        Filter::Bpf08Deg10 => "data/FilterTransmissionCurves/0.8BPF_10deg.csv"@,
        Filter::Bpf31Deg0 => "data/FilterTransmissionCurves/3.1BPF_0deg.csv"@,
        Filter::Bpf31Deg10 => "data/FilterTransmissionCurves/3.1BPF_10deg.csv"@,
    }
}

/// The path of the file that holds the table of `filter`.
pub fn transmission_path(filter: Filter) -> (path: &'static str)
    ensures
        path@ == table_path(filter),
{
    match filter {
        Filter::Bpf08Deg0 => "data/FilterTransmissionCurves/0.8BPF_0deg.csv",
        Filter::Bpf08Deg10 => "data/FilterTransmissionCurves/0.8BPF_10deg.csv",
        Filter::Bpf31Deg0 => "data/FilterTransmissionCurves/3.1BPF_0deg.csv",
        Filter::Bpf31Deg10 => "data/FilterTransmissionCurves/3.1BPF_10deg.csv",
    }
}

/// The tables of all four filters.
#[derive(Debug)]
pub struct TransmissionTables {
    pub bpf08_deg0: Vec<AOIRecord>,
    pub bpf08_deg10: Vec<AOIRecord>,
    pub bpf31_deg0: Vec<AOIRecord>,
    pub bpf31_deg10: Vec<AOIRecord>,
}

impl TransmissionTables {
    /// The rows of the table of `filter`.
    pub open spec fn rows(&self, filter: Filter) -> Seq<AOIRecord> {
        match filter {
            Filter::Bpf08Deg0 => self.bpf08_deg0@,
            Filter::Bpf08Deg10 => self.bpf08_deg10@,
            Filter::Bpf31Deg0 => self.bpf31_deg0@,
            Filter::Bpf31Deg10 => self.bpf31_deg10@,
        }
    }

    /// The table of `filter`.
    pub fn table(&self, filter: Filter) -> (table: &Vec<AOIRecord>)
        ensures
            table@ == self.rows(filter),
    {
        match filter {
            Filter::Bpf08Deg0 => &self.bpf08_deg0,
            Filter::Bpf08Deg10 => &self.bpf08_deg10,
            Filter::Bpf31Deg0 => &self.bpf31_deg0,
            Filter::Bpf31Deg10 => &self.bpf31_deg10,
        }
    }
}

/// The transmittance curve of `filter` for `wavefront`: the wavelengths of
/// the collimated column and, beside each, the transmittance of the chosen
/// family, row by row.
pub fn get_transmission(tables: &TransmissionTables, filter: Filter, wavefront: Wavefront) -> (curve:
    (Vec<Fixed>, Vec<Fixed>))
    ensures
        curve.0@.len() == tables.rows(filter).len(),
        curve.1@.len() == tables.rows(filter).len(),
        forall|i: int|
            0 <= i < tables.rows(filter).len() ==> #[trigger] curve.0@[i] == tables.rows(
                filter,
            )[i].lambda_coll,
        forall|i: int|
            0 <= i < tables.rows(filter).len() ==> #[trigger] curve.1@[i] == transmittance(
                tables.rows(filter)[i],
                wavefront,
            ),
{
    let table = tables.table(filter);
    let mut wavelengths: Vec<Fixed> = Vec::new();
    let mut values: Vec<Fixed> = Vec::new();
    let mut i: usize = 0;
    while i < table.len()
        invariant
            i <= table@.len(),
            wavelengths@.len() == i,
            values@.len() == i,
            forall|j: int| 0 <= j < i ==> #[trigger] wavelengths@[j] == table@[j].lambda_coll,
            forall|j: int|
                0 <= j < i ==> #[trigger] values@[j] == transmittance(table@[j], wavefront),
        decreases table@.len() - i,
    {
        let record = table[i];
        wavelengths.push(record.lambda_coll);
        values.push(
            match wavefront {
                Wavefront::TCOLL => record.t_coll,
                Wavefront::T3 => record.t_3deg,
                Wavefront::T22 => record.t_22deg,
            },
        );
        i = i + 1;
    }
    (wavelengths, values)
}

} // verus!
