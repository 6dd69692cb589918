use dragonfly::fixed::Fixed;
use dragonfly::transmission::{
    get_transmission, transmission_path, AOIRecord, Filter, TransmissionTables, Wavefront,
};

fn n(nanos: i64) -> Fixed {
    Fixed::from_nanos(nanos)
}

fn record(k: i64) -> AOIRecord {
    AOIRecord {
        lambda_coll: n(650_000_000_000 + k),
        lambda_22deg: n(640_000_000_000 + k),
        lambda_3deg: n(649_000_000_000 + k),
        t_coll: n(100 + k),
        t_22deg: n(200 + k),
        t_3deg: n(300 + k),
    }
}

fn tables() -> TransmissionTables {
    TransmissionTables {
        bpf08_deg0: vec![record(1), record(2)],
        bpf08_deg10: vec![record(3)],
        bpf31_deg0: vec![record(4), record(5), record(6)],
        bpf31_deg10: vec![],
    }
}

#[test]
fn each_filter_has_its_file() {
    assert_eq!(transmission_path(Filter::Bpf08Deg0), "data/FilterTransmissionCurves/0.8BPF_0deg.csv");
    assert_eq!(transmission_path(Filter::Bpf08Deg10), "data/FilterTransmissionCurves/0.8BPF_10deg.csv");
    assert_eq!(transmission_path(Filter::Bpf31Deg0), "data/FilterTransmissionCurves/3.1BPF_0deg.csv");
    assert_eq!(transmission_path(Filter::Bpf31Deg10), "data/FilterTransmissionCurves/3.1BPF_10deg.csv");
}

#[test]
fn each_filter_has_its_table() {
    let tables = tables();
    assert_eq!(tables.table(Filter::Bpf08Deg0), &vec![record(1), record(2)]);
    assert_eq!(tables.table(Filter::Bpf08Deg10), &vec![record(3)]);
    assert_eq!(tables.table(Filter::Bpf31Deg0).len(), 3);
    assert_eq!(tables.table(Filter::Bpf31Deg10).len(), 0);
}

#[test]
fn a_curve_pairs_the_collimated_wavelength_with_the_chosen_column() {
    let tables = tables();
    let (wavelengths, values) = get_transmission(&tables, Filter::Bpf31Deg0, Wavefront::TCOLL);
    assert_eq!(wavelengths, vec![n(650_000_000_004), n(650_000_000_005), n(650_000_000_006)]);
    assert_eq!(values, vec![n(104), n(105), n(106)]);
    let (wavelengths, values) = get_transmission(&tables, Filter::Bpf08Deg0, Wavefront::T3);
    assert_eq!(wavelengths, vec![n(650_000_000_001), n(650_000_000_002)]);
    assert_eq!(values, vec![n(301), n(302)]);
    let (_, values) = get_transmission(&tables, Filter::Bpf08Deg10, Wavefront::T22);
    assert_eq!(values, vec![n(203)]);
    let (wavelengths, values) = get_transmission(&tables, Filter::Bpf31Deg10, Wavefront::T22);
    assert!(wavelengths.is_empty() && values.is_empty());
}
