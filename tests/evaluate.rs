use marks_classifier::evaluate::{confusion_matrix, EvalError, MccFraction};
use marks_classifier::label::Label;

const F: Label = Label::Fail;
const H: Label = Label::Half;
const P: Label = Label::Pass;

fn mcc_value(m: MccFraction) -> f64 {
    (m.agreement as f64 - m.chance as f64) / (m.pred_spread as f64 * m.true_spread as f64).sqrt()
}

#[test]
fn length_mismatch_is_an_error() {
    let r = confusion_matrix(&vec![F, H], &vec![F]);
    assert!(matches!(r, Err(EvalError::LengthMismatch { predicted: 2, truth: 1 })));
}

#[test]
fn empty_input_is_an_error() {
    assert!(matches!(confusion_matrix(&vec![], &vec![]), Err(EvalError::Empty)));
}

#[test]
fn counts_by_true_and_predicted_class() {
    let truth = vec![F, F, H, P, P, P];
    let pred = vec![F, H, H, P, P, F];
    let cm = confusion_matrix(&pred, &truth).ok().unwrap();
    assert_eq!(cm.count(F, F), 1);
    assert_eq!(cm.count(F, H), 1);
    assert_eq!(cm.count(H, H), 1);
    assert_eq!(cm.count(P, P), 2);
    assert_eq!(cm.count(P, F), 1);
    assert_eq!(cm.count(H, F), 0);
    assert_eq!(cm.total(), 6);
    assert_eq!(cm.correct(), 4);
}

#[test]
fn row_and_column_sums_equal_sample_count() {
    let truth = vec![F, F, H, P, P, P, H];
    let pred = vec![P, H, H, P, F, F, F];
    let cm = confusion_matrix(&pred, &truth).ok().unwrap();
    let labels = [F, H, P];
    let rows: u64 = labels.iter().map(|t| cm.row_total(*t)).sum();
    let cols: u64 = labels.iter().map(|p| cm.col_total(*p)).sum();
    assert_eq!(rows, 7);
    assert_eq!(cols, 7);
    assert_eq!(cm.total(), 7);
    assert_eq!(cm.row_total(P), 3);
    assert_eq!(cm.col_total(F), 3);
    let accuracy = cm.correct() as f64 / cm.total() as f64;
    assert!((0.0..=1.0).contains(&accuracy));
    let mcc = mcc_value(cm.mcc());
    assert!((-1.0..=1.0).contains(&mcc));
}

#[test]
fn perfect_prediction_has_unit_scores() {
    let truth = vec![F, H, P, P];
    let cm = confusion_matrix(&truth.clone(), &truth).ok().unwrap();
    assert_eq!(cm.correct(), cm.total());
    let m = cm.mcc();
    // s = 4, c = 4, true and predicted counts (1, 1, 2)
    assert_eq!(m, MccFraction { agreement: 16, chance: 6, pred_spread: 10, true_spread: 10 });
    assert_eq!(mcc_value(m), 1.0);
}

#[test]
fn inverted_binary_prediction_has_minus_one() {
    let truth = vec![F, P, F, P];
    let pred = vec![P, F, P, F];
    let cm = confusion_matrix(&pred, &truth).ok().unwrap();
    assert_eq!(cm.correct(), 0);
    let m = cm.mcc();
    assert_eq!(m, MccFraction { agreement: 0, chance: 8, pred_spread: 8, true_spread: 8 });
    assert_eq!(mcc_value(m), -1.0);
}

#[test]
fn never_predicted_labels_give_zero_mcc() {
    // Every sample predicted as fail: two classes are never predicted.
    let truth = vec![F, H, P];
    let pred = vec![F, F, F];
    let cm = confusion_matrix(&pred, &truth).ok().unwrap();
    let m = cm.mcc();
    assert_eq!(m, MccFraction { agreement: 0, chance: 0, pred_spread: 1, true_spread: 1 });
    assert_eq!(mcc_value(m), 0.0);
    assert_eq!(cm.correct(), 1);
}

#[test]
fn single_true_class_gives_zero_mcc() {
    let truth = vec![H, H, H, H];
    let pred = vec![H, F, P, H];
    let cm = confusion_matrix(&pred, &truth).ok().unwrap();
    assert_eq!(mcc_value(cm.mcc()), 0.0);
}

#[test]
fn mixed_prediction_exact_terms() {
    let truth = vec![F, F, H, P, P, P];
    let pred = vec![F, H, H, P, P, F];
    let cm = confusion_matrix(&pred, &truth).ok().unwrap();
    // s = 6, c = 4, true counts (2, 1, 3), predicted counts (2, 2, 2)
    let m = cm.mcc();
    assert_eq!(m, MccFraction { agreement: 24, chance: 12, pred_spread: 24, true_spread: 22 });
}
