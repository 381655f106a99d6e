use marks_classifier::label::{label_of_code, Label, HALF_CODE, NUM_LABELS, PASS_CODE};

fn label_of(v: f64) -> Label {
    label_of_code(v.to_bits())
}

#[test]
fn exact_codes_map_to_pass_and_half() {
    assert_eq!(label_of(1.0), Label::Pass);
    assert_eq!(label_of(0.5), Label::Half);
}

#[test]
fn every_other_code_is_fail() {
    for v in [0.0, 0.3, 0.999, -1.0, 0.999999, 0.5000001, 1.0000001, 2.0, -0.5, f64::NAN] {
        assert_eq!(label_of(v), Label::Fail, "value {}", v);
    }
}

#[test]
fn negative_zero_is_fail() {
    assert_eq!(label_of(-0.0), Label::Fail);
}

#[test]
fn code_constants_are_the_bit_patterns() {
    assert_eq!(PASS_CODE, 1.0f64.to_bits());
    assert_eq!(HALF_CODE, 0.5f64.to_bits());
}

#[test]
fn label_names() {
    assert_eq!(Label::Fail.name(), "fail");
    assert_eq!(Label::Half.name(), "half");
    assert_eq!(Label::Pass.name(), "pass");
}

#[test]
fn index_round_trip() {
    for l in [Label::Fail, Label::Half, Label::Pass] {
        assert!(l.index() < NUM_LABELS);
        assert_eq!(Label::from_index(l.index()), Some(l));
    }
    assert_eq!(Label::Fail.index(), 0);
    assert_eq!(Label::Half.index(), 1);
    assert_eq!(Label::Pass.index(), 2);
    assert_eq!(Label::from_index(3), None);
    assert_eq!(Label::from_index(usize::MAX), None);
}
