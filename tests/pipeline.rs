use csv::ReaderBuilder;
use linfa::traits::{Fit, Predict};
use linfa_logistic::MultiLogisticRegression;
use ndarray::{Array1, Array2};
use ndarray_csv::Array2Reader;

use marks_classifier::dataset::{convert_array_to_dataset, Dataset, Table};
use marks_classifier::evaluate::confusion_matrix;
use marks_classifier::label::Label;

const THREE_ROWS: &str = "marks,result\n10,0.0\n50,0.5\n90,1.0\n";

fn load_rows(text: &str) -> Result<Vec<Vec<u64>>, ndarray_csv::ReadError> {
    let mut reader = ReaderBuilder::new()
        .has_headers(true)
        .delimiter(b',')
        .from_reader(text.as_bytes());
    let array = reader.deserialize_array2_dynamic::<f64>()?;
    Ok(array
        .rows()
        .into_iter()
        .map(|r| r.iter().map(|v| v.to_bits()).collect())
        .collect())
}

fn load(text: &str) -> Dataset {
    let table = Table::from_rows(load_rows(text).unwrap()).ok().unwrap();
    convert_array_to_dataset(&table)
}

fn records(ds: &Dataset) -> Array2<f64> {
    let feats: Vec<f64> = ds.features().iter().map(|b| f64::from_bits(*b)).collect();
    Array2::from_shape_vec((feats.len(), 1), feats).unwrap()
}

fn targets(ds: &Dataset) -> Array1<usize> {
    ds.labels().iter().map(|l| l.index()).collect()
}

#[test]
fn loader_round_trip_keeps_rows_and_columns() {
    let text = "marks,result\n10,0.0\n50,0.5\n90,1.0\n30,0.0\n";
    let rows = load_rows(text).unwrap();
    assert_eq!(rows.len(), 4);
    assert!(rows.iter().all(|r| r.len() == 2));
    let table = Table::from_rows(rows).ok().unwrap();
    assert_eq!(table.nrows(), 4);
    let ds = convert_array_to_dataset(&table);
    assert_eq!(ds.nsamples(), 4);
}

#[test]
fn loader_refuses_non_numeric_field() {
    assert!(load_rows("marks,result\n10,0.0\nabc,0.5\n").is_err());
}

#[test]
fn end_to_end_three_rows() {
    let train = load(THREE_ROWS);
    let test = load(THREE_ROWS);
    assert_eq!(train.nsamples(), 3);
    let train_set = linfa::Dataset::new(records(&train), targets(&train));
    let model = MultiLogisticRegression::default()
        .max_iterations(1000)
        .fit(&train_set)
        .unwrap();

    let pred: Array1<usize> = model.predict(&records(&test));
    let pred_labels: Vec<Label> = pred.iter().map(|i| Label::from_index(*i).unwrap()).collect();
    let cm = confusion_matrix(&pred_labels, test.labels()).ok().unwrap();
    assert_eq!(cm.total(), 3);

    let ad_hoc = Table::from_rows(vec![vec![20.0f64.to_bits(), 0.0f64.to_bits()]]).ok().unwrap();
    let ad_hoc = convert_array_to_dataset(&ad_hoc);
    let first: Array1<usize> = model.predict(&records(&ad_hoc));
    let second: Array1<usize> = model.predict(&records(&ad_hoc));
    assert_eq!(first.len(), 1);
    let label = Label::from_index(first[0]);
    assert!(label.is_some());
    assert!(["fail", "half", "pass"].contains(&label.unwrap().name()));
    assert_eq!(first, second);
}
