use dragonfly::fit::{grid_search, linspace, FitCandidate};
use dragonfly::fixed::Fixed;
use dragonfly::select::argmin;

fn q(text: &str) -> Fixed {
    dragonfly::decimal::parse_decimal(text.as_bytes()).unwrap()
}

#[test]
fn argmin_takes_the_first_least() {
    assert_eq!(argmin(&[]), None);
    assert_eq!(argmin(&[7]), Some(0));
    assert_eq!(argmin(&[3, 1, 2, 1]), Some(1));
    assert_eq!(argmin(&[5, 5, 5]), Some(0));
    assert_eq!(argmin(&[i64::MAX, i64::MIN, i64::MIN]), Some(1));
    assert_eq!(argmin(&[4, 3, 2, 1]), Some(3));
}

#[test]
fn evenly_spaced_values() {
    assert_eq!(linspace(q("0"), q("1"), 5), vec![q("0"), q("0.25"), q("0.5"), q("0.75"), q("1")]);
    assert_eq!(linspace(q("-25"), q("25"), 3), vec![q("-25"), q("0"), q("25")]);
    assert_eq!(linspace(q("1"), q("0"), 3), vec![q("1"), q("0.5"), q("0")]);
    assert_eq!(
        linspace(q("0"), q("1"), 4),
        vec![q("0"), q("0.333333333"), q("0.666666667"), q("1")]
    );
    let fractions = linspace(q("0"), q("1"), 100);
    assert_eq!(fractions.len(), 100);
    assert_eq!(fractions[1], q("0.010101010"));
    assert_eq!(fractions[99], q("1"));
    let shifts = linspace(q("-25"), q("25"), 500);
    assert_eq!(shifts[0], q("-25"));
    assert_eq!(shifts[1], q("-24.899799599"));
    assert_eq!(shifts[499], q("25"));
    let wide = linspace(Fixed::from_nanos(i64::MIN), Fixed::from_nanos(i64::MAX), 2);
    assert_eq!(wide, vec![Fixed::from_nanos(i64::MIN), Fixed::from_nanos(i64::MAX)]);
}

#[test]
fn the_search_returns_the_least_cell() {
    let fractions = vec![q("0"), q("0.5"), q("1")];
    let shifts = vec![q("-1"), q("0"), q("1"), q("2")];
    let scores = vec![vec![9, 8, 7, 8], vec![6, 2, 5, 9], vec![4, 4, 3, 3]];
    assert_eq!(
        grid_search(&fractions, &shifts, &scores),
        Some(FitCandidate { fraction: q("0.5"), shift: q("0"), residual: 2 })
    );
}

#[test]
fn ties_go_to_the_cell_met_first() {
    let fractions = vec![q("0"), q("0.5"), q("1")];
    let shifts = vec![q("-1"), q("0"), q("1")];
    let scores = vec![vec![5, 1, 1], vec![1, 0, 0], vec![0, 0, 0]];
    assert_eq!(
        grid_search(&fractions, &shifts, &scores),
        Some(FitCandidate { fraction: q("0.5"), shift: q("0"), residual: 0 })
    );
    let scores = vec![vec![3, 3, 3], vec![3, 3, 3], vec![3, 3, 3]];
    assert_eq!(
        grid_search(&fractions, &shifts, &scores),
        Some(FitCandidate { fraction: q("0"), shift: q("-1"), residual: 3 })
    );
}

#[test]
fn what_is_no_grid_is_refused() {
    let fractions = vec![q("0"), q("1")];
    let shifts = vec![q("0"), q("1")];
    assert_eq!(grid_search(&vec![], &shifts, &vec![]), None);
    assert_eq!(grid_search(&fractions, &vec![], &vec![vec![], vec![]]), None);
    assert_eq!(grid_search(&fractions, &shifts, &vec![vec![1, 2]]), None);
    assert_eq!(grid_search(&fractions, &shifts, &vec![vec![1, 2], vec![1]]), None);
    assert_eq!(grid_search(&fractions, &shifts, &vec![vec![1, 2, 3], vec![1, 2]]), None);
    assert_eq!(grid_search(&fractions, &shifts, &vec![vec![1, 2], vec![1, 2], vec![1, 2]]), None);
}

#[test]
fn an_injected_minimum_is_recovered() {
    let fractions = linspace(q("0"), q("1"), 11);
    let shifts = linspace(q("-5"), q("5"), 21);
    let scores: Vec<Vec<i64>> = (0..11i64)
        .map(|f| (0..21i64).map(|s| (f - 3) * (f - 3) * 100 + (s - 14) * (s - 14)).collect())
        .collect();
    let best = grid_search(&fractions, &shifts, &scores).unwrap();
    assert_eq!(best.fraction, q("0.3"));
    assert_eq!(best.shift, q("2"));
    assert_eq!(best.residual, 0);
}
