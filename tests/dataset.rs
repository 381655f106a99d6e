use marks_classifier::dataset::{convert_array_to_dataset, Table, TableError};
use marks_classifier::label::Label;

fn row(a: f64, b: f64) -> Vec<u64> {
    vec![a.to_bits(), b.to_bits()]
}

#[test]
fn empty_rows_are_refused() {
    assert!(matches!(Table::from_rows(vec![]), Err(TableError::Empty)));
}

#[test]
fn narrow_row_is_refused() {
    let rows = vec![row(10.0, 0.0), vec![50.0f64.to_bits()], row(90.0, 1.0)];
    assert!(matches!(Table::from_rows(rows), Err(TableError::RowWidth { row: 1, found: 1 })));
}

#[test]
fn wide_row_is_refused_at_first_offender() {
    let mut wide = row(1.0, 1.0);
    wide.push(3.0f64.to_bits());
    let rows = vec![row(10.0, 0.0), row(20.0, 0.5), wide.clone(), wide];
    assert!(matches!(Table::from_rows(rows), Err(TableError::RowWidth { row: 2, found: 3 })));
}

#[test]
fn table_keeps_cells() {
    let t = Table::from_rows(vec![row(10.0, 0.0), row(50.0, 0.5)]).ok().unwrap();
    assert_eq!(t.nrows(), 2);
    assert_eq!(t.cell(0, 0), 10.0f64.to_bits());
    assert_eq!(t.cell(1, 1), 0.5f64.to_bits());
}

#[test]
fn dataset_preserves_rows_and_maps_labels() {
    let rows = vec![
        row(10.0, 0.0),
        row(50.0, 0.5),
        row(90.0, 1.0),
        row(70.0, 0.999),
        row(30.0, -1.0),
    ];
    let t = Table::from_rows(rows).ok().unwrap();
    let d = convert_array_to_dataset(&t);
    assert_eq!(d.nsamples(), 5);
    assert_eq!(d.features().len(), 5);
    assert_eq!(d.labels().len(), 5);
    let feats: Vec<f64> = d.features().iter().map(|b| f64::from_bits(*b)).collect();
    assert_eq!(feats, vec![10.0, 50.0, 90.0, 70.0, 30.0]);
    assert_eq!(
        d.labels().clone(),
        vec![Label::Fail, Label::Half, Label::Pass, Label::Fail, Label::Fail]
    );
}

#[test]
fn dataset_reports_one_feature_named_marks() {
    let t = Table::from_rows(vec![row(20.0, 0.0)]).ok().unwrap();
    let d = convert_array_to_dataset(&t);
    assert_eq!(d.nfeatures(), 1);
    assert_eq!(d.ntargets(), 1);
    assert_eq!(d.feature_names(), vec!["marks"]);
}
