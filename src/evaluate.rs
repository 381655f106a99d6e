use vstd::prelude::*;

use crate::label::{Label, NUM_LABELS};

verus! {

/// Why predictions cannot be scored against ground truth.
#[derive(Clone, Copy, Debug, PartialEq, Eq, Structural)]
pub enum EvalError {
    /// The two label sequences differ in length.
    LengthMismatch { predicted: usize, truth: usize },
    /// There are no samples to score.
    Empty,
}

/// Samples among the first `n` whose true class is `t` and whose predicted
/// class is `p`.
pub open spec fn pair_count(pred: Seq<Label>, truth: Seq<Label>, t: Label, p: Label, n: nat) -> nat
    decreases n,
{
    if n == 0 {
        0
    } else {
        pair_count(pred, truth, t, p, (n - 1) as nat) + if truth[n - 1] == t && pred[n - 1] == p {
            1nat
        } else {
            0nat
        }
    }
}

/// Samples among the first `n` whose class is `l`.
pub open spec fn class_count(labels: Seq<Label>, l: Label, n: nat) -> nat
    decreases n,
{
    if n == 0 {
        0
    } else {
        class_count(labels, l, (n - 1) as nat) + if labels[n - 1] == l {
            1nat
        } else {
            0nat
        }
    }
}

/// Position of the (true, predicted) cell in the row-major count vector.
pub open spec fn cell_index(t: Label, p: Label) -> int {
    (t.index_spec() * 3 + p.index_spec()) as int
}

/// Sum of the first nine entries.
spec fn nine_total(c: Seq<u64>) -> int {
    c[0] + c[1] + c[2] + c[3] + c[4] + c[5] + c[6] + c[7] + c[8]
}

/// Counts of samples by (true class, predicted class) over the classes fail,
/// half and pass.
pub struct ConfusionMatrix {
    counts: Vec<u64>,
    pred: Ghost<Seq<Label>>,
    truth: Ghost<Seq<Label>>,
}

impl ConfusionMatrix {
    #[verifier::type_invariant]
    spec fn inv(self) -> bool {
        &&& self.counts@.len() == NUM_LABELS * NUM_LABELS
        &&& 0 < nine_total(self.counts@) <= u64::MAX
        &&& self.counts_of(self.pred@, self.truth@)
    }

    /// Samples whose true class is `t` and predicted class is `p`.
    pub closed spec fn cell(&self, t: Label, p: Label) -> nat {
        self.counts@[cell_index(t, p)] as nat
    }

    /// Samples whose true class is `t`.
    pub open spec fn row_sum(&self, t: Label) -> nat {
        self.cell(t, Label::Fail) + self.cell(t, Label::Half) + self.cell(t, Label::Pass)
    }

    /// Samples predicted as `p`.
    pub open spec fn col_sum(&self, p: Label) -> nat {
        self.cell(Label::Fail, p) + self.cell(Label::Half, p) + self.cell(Label::Pass, p)
    }

    /// All samples.
    pub open spec fn total_spec(&self) -> nat {
        self.row_sum(Label::Fail) + self.row_sum(Label::Half) + self.row_sum(Label::Pass)
    }

    /// Correctly classified samples.
    pub open spec fn trace_spec(&self) -> nat {
        self.cell(Label::Fail, Label::Fail) + self.cell(Label::Half, Label::Half) + self.cell(
            Label::Pass,
            Label::Pass,
        )
    }

    /// Whether the matrix counts exactly the pairs of `pred` and `truth`.
    pub open spec fn counts_of(&self, pred: Seq<Label>, truth: Seq<Label>) -> bool {
        &&& pred.len() == truth.len()
        &&& truth.len() > 0
        &&& forall|t: Label, p: Label| #[trigger]
            self.cell(t, p) == pair_count(pred, truth, t, p, truth.len())
    }

    /// The count of samples with true class `t` predicted as `p`.
    pub fn count(&self, t: Label, p: Label) -> (r: u64)
        ensures
            r == self.cell(t, p),
    {
        proof {
            use_type_invariant(self);
        }
        self.counts[t.index() * 3 + p.index()]
    }

    /// Sum of the squared row sums.
    pub open spec fn row_squares(&self) -> nat {
        self.row_sum(Label::Fail) * self.row_sum(Label::Fail) + self.row_sum(Label::Half)
            * self.row_sum(Label::Half) + self.row_sum(Label::Pass) * self.row_sum(Label::Pass)
    }

    /// Sum of the squared column sums.
    pub open spec fn col_squares(&self) -> nat {
        self.col_sum(Label::Fail) * self.col_sum(Label::Fail) + self.col_sum(Label::Half)
            * self.col_sum(Label::Half) + self.col_sum(Label::Pass) * self.col_sum(Label::Pass)
    }

    /// Sum over the classes of (samples of the class) times (samples predicted
    /// as the class).
    pub open spec fn marginal_products(&self) -> nat {
        self.row_sum(Label::Fail) * self.col_sum(Label::Fail) + self.row_sum(Label::Half)
            * self.col_sum(Label::Half) + self.row_sum(Label::Pass) * self.col_sum(Label::Pass)
    }

    /// `total² − Σ col_sum²`: zero exactly when every sample is predicted as
    /// one class.
    pub open spec fn pred_spread_spec(&self) -> int {
        self.total_spec() * self.total_spec() - self.col_squares()
    }

    /// `total² − Σ row_sum²`: zero exactly when every sample has one true
    /// class.
    pub open spec fn true_spread_spec(&self) -> int {
        self.total_spec() * self.total_spec() - self.row_squares()
    }

    /// Whether the correlation coefficient has a zero denominator.
    pub open spec fn is_degenerate(&self) -> bool {
        self.pred_spread_spec() == 0 || self.true_spread_spec() == 0
    }

    proof fn lemma_cells(&self)
        requires
            self.inv(),
        ensures
            self.total_spec() == nine_total(self.counts@),
            0 < self.total_spec() <= u64::MAX,
            self.trace_spec() <= self.total_spec(),
            forall|t: Label| #[trigger] self.row_sum(t) <= self.total_spec(),
            forall|p: Label| #[trigger] self.col_sum(p) <= self.total_spec(),
            self.col_sum(Label::Fail) + self.col_sum(Label::Half) + self.col_sum(Label::Pass)
                == self.total_spec(),
    {
    }

    /// Number of samples counted.
    pub fn total(&self) -> (r: u64)
        ensures
            r == self.total_spec(),
            r > 0,
    {
        proof {
            use_type_invariant(self);
            self.lemma_cells();
        }
        let c = &self.counts;
        c[0] + c[1] + c[2] + c[3] + c[4] + c[5] + c[6] + c[7] + c[8]
    }

    /// Number of correctly classified samples.
    pub fn correct(&self) -> (r: u64)
        ensures
            r == self.trace_spec(),
            r <= self.total_spec(),
    {
        proof {
            use_type_invariant(self);
            self.lemma_cells();
        }
        self.counts[0] + self.counts[4] + self.counts[8]
    }

    /// Number of samples whose true class is `t`.
    pub fn row_total(&self, t: Label) -> (r: u64)
        ensures
            r == self.row_sum(t),
    {
        proof {
            use_type_invariant(self);
            self.lemma_cells();
        }
        self.count(t, Label::Fail) + self.count(t, Label::Half) + self.count(t, Label::Pass)
    }

    /// Number of samples predicted as `p`.
    pub fn col_total(&self, p: Label) -> (r: u64)
        ensures
            r == self.col_sum(p),
    {
        proof {
            use_type_invariant(self);
            self.lemma_cells();
        }
        self.count(Label::Fail, p) + self.count(Label::Half, p) + self.count(Label::Pass, p)
    }

    /// The Matthews correlation coefficient as a fraction:
    /// `(agreement − chance) / sqrt(pred_spread · true_spread)`.
    ///
    /// Where the coefficient's denominator is zero (all samples predicted as
    /// one class, or all of one true class) the fraction is `0 / 1`, so the
    /// reported value is always defined.
    pub fn mcc(&self) -> (r: MccFraction)
        ensures
            r.pred_spread > 0,
            r.true_spread > 0,
            !self.is_degenerate() ==> {
                &&& r.agreement == self.trace_spec() * self.total_spec()
                &&& r.chance == self.marginal_products()
                &&& r.pred_spread == self.pred_spread_spec()
                &&& r.true_spread == self.true_spread_spec()
            },
            (r.agreement - r.chance) * (r.agreement - r.chance) <= r.pred_spread * r.true_spread,
            self.is_degenerate() ==> (r == MccFraction {
                agreement: 0,
                chance: 0,
                pred_spread: 1,
                true_spread: 1,
            }),
    {
        proof {
            use_type_invariant(self);
            self.lemma_cells();
        }
        proof {
            crate::correlation::lemma_mcc_within_unit(*self, self.pred@, self.truth@);
        }
        let s = self.total() as u128;
        let c = self.correct() as u128;
        let t0 = self.row_total(Label::Fail) as u128;
        let t1 = self.row_total(Label::Half) as u128;
        let t2 = self.row_total(Label::Pass) as u128;
        let p0 = self.col_total(Label::Fail) as u128;
        let p1 = self.col_total(Label::Half) as u128;
        let p2 = self.col_total(Label::Pass) as u128;
        proof {
            lemma_marginal_bounds(s as nat, t0 as nat, t1 as nat, t2 as nat, p0 as nat, p1 as nat, p2 as nat);
            assert(c * s <= s * s) by (nonlinear_arith)
                requires
                    c <= s,
            ;
        }
        let ss = s * s;
        let true_sq = t0 * t0 + t1 * t1 + t2 * t2;
        let pred_sq = p0 * p0 + p1 * p1 + p2 * p2;
        let pred_spread = ss - pred_sq;
        let true_spread = ss - true_sq;
        if pred_spread == 0 || true_spread == 0 {
            let r = MccFraction { agreement: 0, chance: 0, pred_spread: 1, true_spread: 1 };
            assert((r.agreement - r.chance) * (r.agreement - r.chance) <= r.pred_spread
                * r.true_spread) by (nonlinear_arith)
                requires
                    r.agreement == 0 && r.chance == 0 && r.pred_spread == 1 && r.true_spread == 1,
            ;
            r
        } else {
            let agreement = c * s;
            let chance = t0 * p0 + t1 * p1 + t2 * p2;
            proof {
                let num = self.trace_spec() * self.total_spec() - self.marginal_products();
                assert((agreement - chance) * (agreement - chance) <= pred_spread * true_spread)
                    by (nonlinear_arith)
                    requires
                        agreement - chance == num,
                        pred_spread == self.pred_spread_spec(),
                        true_spread == self.true_spread_spec(),
                        num * num <= self.pred_spread_spec() * self.true_spread_spec(),
                ;
            }
            MccFraction { agreement, chance, pred_spread, true_spread }
        }
    }
}

/// The Matthews correlation coefficient of a confusion matrix, kept exact:
/// its value is `(agreement − chance) / sqrt(pred_spread · true_spread)`.
#[derive(Clone, Copy, Debug, PartialEq, Eq, Structural)]
pub struct MccFraction {
    /// Correct samples times all samples.
    pub agreement: u128,
    /// Sum over the classes of true count times predicted count.
    pub chance: u128,
    /// Squared sample count less the squared predicted counts.
    pub pred_spread: u128,
    /// Squared sample count less the squared true counts.
    pub true_spread: u128,
}

/// Bounds on the terms built from marginals `t` and `p` that both add up to
/// `s`, which keep them within `s²`.
proof fn lemma_marginal_bounds(s: nat, t0: nat, t1: nat, t2: nat, p0: nat, p1: nat, p2: nat)
    requires
        t0 + t1 + t2 == s,
        p0 + p1 + p2 == s,
        s <= u64::MAX,
    ensures
        s * s <= u128::MAX,
        t0 * t0 + t1 * t1 + t2 * t2 <= s * s,
        p0 * p0 + p1 * p1 + p2 * p2 <= s * s,
        t0 * p0 + t1 * p1 + t2 * p2 <= s * s,
{
    assert(s * s <= u64::MAX * u64::MAX) by (nonlinear_arith)
        requires
            s <= u64::MAX,
    ;
    assert(t0 * t0 + t1 * t1 + t2 * t2 <= (t0 + t1 + t2) * (t0 + t1 + t2)) by (nonlinear_arith);
    assert(p0 * p0 + p1 * p1 + p2 * p2 <= (p0 + p1 + p2) * (p0 + p1 + p2)) by (nonlinear_arith);
    assert((t0 + t1 + t2) * (p0 + p1 + p2) == t0 * p0 + t0 * p1 + t0 * p2 + t1 * p0 + t1 * p1 + t1
        * p2 + t2 * p0 + t2 * p1 + t2 * p2) by (nonlinear_arith);
}

/// Of a matrix that counts the pairs of `pred` and `truth`: each row adds up
/// to the samples of its true class, each column to the samples predicted as
/// its class, rows and columns alike add up to the number of samples, and the
/// correctly classified samples are at most all of them (an accuracy within
/// zero and one).
pub proof fn lemma_sums_equal_total(cm: ConfusionMatrix, pred: Seq<Label>, truth: Seq<Label>)
    requires
        cm.counts_of(pred, truth),
    ensures
        forall|t: Label| #[trigger] cm.row_sum(t) == class_count(truth, t, truth.len()),
        forall|p: Label| #[trigger] cm.col_sum(p) == class_count(pred, p, pred.len()),
        cm.total_spec() == truth.len(),
        cm.col_sum(Label::Fail) + cm.col_sum(Label::Half) + cm.col_sum(Label::Pass) == truth.len(),
        0 < cm.total_spec(),
        cm.trace_spec() <= cm.total_spec(),
{
    lemma_pair_sums(pred, truth, truth.len());
    assert forall|t: Label| #[trigger] cm.row_sum(t) == class_count(truth, t, truth.len()) by {
        assert(cm.cell(t, Label::Fail) == pair_count(pred, truth, t, Label::Fail, truth.len()));
        assert(cm.cell(t, Label::Half) == pair_count(pred, truth, t, Label::Half, truth.len()));
        assert(cm.cell(t, Label::Pass) == pair_count(pred, truth, t, Label::Pass, truth.len()));
    }
    assert forall|p: Label| #[trigger] cm.col_sum(p) == class_count(pred, p, pred.len()) by {
        assert(cm.cell(Label::Fail, p) == pair_count(pred, truth, Label::Fail, p, truth.len()));
        assert(cm.cell(Label::Half, p) == pair_count(pred, truth, Label::Half, p, truth.len()));
        assert(cm.cell(Label::Pass, p) == pair_count(pred, truth, Label::Pass, p, truth.len()));
    }
    assert(cm.row_sum(Label::Fail) == class_count(truth, Label::Fail, truth.len()));
    assert(cm.row_sum(Label::Half) == class_count(truth, Label::Half, truth.len()));
    assert(cm.row_sum(Label::Pass) == class_count(truth, Label::Pass, truth.len()));
}

/// The pairs of the first `n` samples, by true class, add up to the samples of
/// that class; likewise by predicted class; and the classes cover all samples.
proof fn lemma_pair_sums(pred: Seq<Label>, truth: Seq<Label>, n: nat)
    requires
        n <= pred.len(),
        n <= truth.len(),
    ensures
        forall|t: Label| #[trigger] class_count(truth, t, n) == pair_count(pred, truth, t, Label::Fail, n)
            + pair_count(pred, truth, t, Label::Half, n) + pair_count(pred, truth, t, Label::Pass, n),
        forall|p: Label| #[trigger] class_count(pred, p, n) == pair_count(pred, truth, Label::Fail, p, n)
            + pair_count(pred, truth, Label::Half, p, n) + pair_count(pred, truth, Label::Pass, p, n),
        class_count(truth, Label::Fail, n) + class_count(truth, Label::Half, n) + class_count(
            truth,
            Label::Pass,
            n,
        ) == n,
        class_count(pred, Label::Fail, n) + class_count(pred, Label::Half, n) + class_count(
            pred,
            Label::Pass,
            n,
        ) == n,
    decreases n,
{
    if n > 0 {
        lemma_pair_sums(pred, truth, (n - 1) as nat);
    }
}

/// Counts the samples of each (true class, predicted class) pair.
///
/// Fails when the two sequences differ in length or are empty.
pub fn confusion_matrix(pred: &Vec<Label>, truth: &Vec<Label>) -> (r: Result<
    ConfusionMatrix,
    EvalError,
>)
    ensures
        r == Err::<ConfusionMatrix, EvalError>(
            EvalError::LengthMismatch { predicted: pred@.len() as usize, truth: truth@.len() as usize },
        ) <==> pred@.len() != truth@.len(),
        r == Err::<ConfusionMatrix, EvalError>(EvalError::Empty) <==> (pred@.len() == truth@.len()
            && truth@.len() == 0),
        r is Ok <==> (pred@.len() == truth@.len() && truth@.len() > 0),
        r matches Ok(cm) ==> cm.counts_of(pred@, truth@),
{
    if pred.len() != truth.len() {
        return Err(EvalError::LengthMismatch { predicted: pred.len(), truth: truth.len() });
    }
    if truth.len() == 0 {
        return Err(EvalError::Empty);
    }
    let n = truth.len();
    let mut counts: Vec<u64> = vec![0, 0, 0, 0, 0, 0, 0, 0, 0];
    let mut i: usize = 0;
    while i < n
        invariant
            n == truth@.len(),
            n == pred@.len(),
            i <= n,
            counts@.len() == 9,
            forall|t: Label, p: Label| #[trigger]
                pair_count(pred@, truth@, t, p, i as nat) == counts@[cell_index(t, p)],
        decreases n - i,
    {
        let t = truth[i];
        let p = pred[i];
        let k = t.index() * 3 + p.index();
        proof {
            lemma_pair_sums(pred@, truth@, i as nat);
            assert(pair_count(pred@, truth@, t, p, i as nat) <= i) by {
                assert(class_count(truth@, t, i as nat) <= i);
            }
        }
        counts.set(k, counts[k] + 1);
        i = i + 1;
        proof {
            assert forall|t2: Label, p2: Label| #[trigger]
                pair_count(pred@, truth@, t2, p2, i as nat) == counts@[cell_index(t2, p2)] by {
                assert(pair_count(pred@, truth@, t2, p2, i as nat) == pair_count(
                    pred@,
                    truth@,
                    t2,
                    p2,
                    (i - 1) as nat,
                ) + if truth@[i - 1] == t2 && pred@[i - 1] == p2 {
                    1nat
                } else {
                    0nat
                });
            }
        }
    }
    proof {
        lemma_pair_sums(pred@, truth@, n as nat);
        assert(pair_count(pred@, truth@, Label::Fail, Label::Fail, n as nat) == counts@[0]);
        assert(pair_count(pred@, truth@, Label::Fail, Label::Half, n as nat) == counts@[1]);
        assert(pair_count(pred@, truth@, Label::Fail, Label::Pass, n as nat) == counts@[2]);
        assert(pair_count(pred@, truth@, Label::Half, Label::Fail, n as nat) == counts@[3]);
        assert(pair_count(pred@, truth@, Label::Half, Label::Half, n as nat) == counts@[4]);
        assert(pair_count(pred@, truth@, Label::Half, Label::Pass, n as nat) == counts@[5]);
        assert(pair_count(pred@, truth@, Label::Pass, Label::Fail, n as nat) == counts@[6]);
        assert(pair_count(pred@, truth@, Label::Pass, Label::Half, n as nat) == counts@[7]);
        assert(pair_count(pred@, truth@, Label::Pass, Label::Pass, n as nat) == counts@[8]);
    }
    let ghost pred_seq = pred@;
    let ghost truth_seq = truth@;
    let cm = ConfusionMatrix { counts, pred: Ghost(pred_seq), truth: Ghost(truth_seq) };
    Ok(cm)
}

} // verus!
