use vstd::prelude::*;

use crate::label::{label_of_code, label_of_code_spec, Label};

verus! {

/// Cells in a data row: the feature value and the raw target code.
pub const TABLE_WIDTH: usize = 2;

/// Why a set of loaded rows does not form a table.
#[derive(Clone, Copy, Debug, PartialEq, Eq, Structural)]
pub enum TableError {
    /// There was no data row.
    Empty,
    /// The row at `row` had `found` cells instead of two.
    RowWidth { row: usize, found: usize },
}

/// A non-empty table of numeric cells, two per row, each cell held as the
/// bit pattern of its binary64 value.
pub struct Table {
    rows: Vec<Vec<u64>>,
}

/// The model of a set of rows: one sequence of cells per row.
pub open spec fn rows_view(rows: Seq<Vec<u64>>) -> Seq<Seq<u64>> {
    rows.map_values(|r: Vec<u64>| r@)
}

/// Whether every row has exactly two cells.
pub open spec fn all_rows_two_wide(rows: Seq<Seq<u64>>) -> bool {
    forall|i: int| 0 <= i < rows.len() ==> #[trigger] rows[i].len() == TABLE_WIDTH
}

impl View for Table {
    type V = Seq<Seq<u64>>;

    closed spec fn view(&self) -> Seq<Seq<u64>> {
        rows_view(self.rows@)
    }
}

impl Table {
    #[verifier::type_invariant]
    spec fn inv(self) -> bool {
        &&& self.rows@.len() > 0
        &&& all_rows_two_wide(rows_view(self.rows@))
    }

    /// Builds a table from loaded rows, refusing an empty set and any row
    /// whose width is not two.
    pub fn from_rows(rows: Vec<Vec<u64>>) -> (r: Result<Table, TableError>)
        ensures
            r is Ok <==> rows@.len() > 0 && all_rows_two_wide(rows_view(rows@)),
            r matches Ok(t) ==> t@ == rows_view(rows@),
            r == Err::<Table, TableError>(TableError::Empty) <==> rows@.len() == 0,
            r matches Err(TableError::RowWidth { row, found }) ==> {
                &&& row < rows@.len()
                &&& rows@[row as int]@.len() == found
                &&& found != TABLE_WIDTH
                &&& forall|j: int| 0 <= j < row ==> #[trigger] rows@[j]@.len() == TABLE_WIDTH
            },
    {
        if rows.len() == 0 {
            return Err(TableError::Empty);
        }
        let mut i: usize = 0;
        while i < rows.len()
            invariant
                i <= rows@.len(),
                forall|j: int| 0 <= j < i ==> #[trigger] rows@[j]@.len() == TABLE_WIDTH,
            decreases rows@.len() - i,
        {
            let w = rows[i].len();
            if w != TABLE_WIDTH {
                proof {
                    assert(rows_view(rows@)[i as int] == rows@[i as int]@);
                }
                return Err(TableError::RowWidth { row: i, found: w });
            }
            i = i + 1;
        }
        assert(all_rows_two_wide(rows_view(rows@))) by {
            assert forall|j: int| 0 <= j < rows_view(rows@).len() implies #[trigger] rows_view(
                rows@,
            )[j].len() == TABLE_WIDTH by {
                assert(rows_view(rows@)[j] == rows@[j]@);
            }
        }
        Ok(Table { rows })
    }

    /// Number of data rows.
    pub fn nrows(&self) -> (r: usize)
        ensures
            r == self@.len(),
            r > 0,
    {
        proof {
            use_type_invariant(self);
        }
        self.rows.len()
    }

    /// The cell at `row`, `col`.
    pub fn cell(&self, row: usize, col: usize) -> (r: u64)
        requires
            row < self@.len(),
            col < TABLE_WIDTH,
        ensures
            r == self@[row as int][col as int],
    {
        proof {
            use_type_invariant(self);
            assert(self@[row as int] == self.rows@[row as int]@);
            assert(self@[row as int].len() == TABLE_WIDTH);
        }
        self.rows[row][col]
    }
}

/// The name under which the single feature is reported.
pub open spec fn feature_name_spec() -> Seq<char> {
    seq!['m', 'a', 'r', 'k', 's']
}

/// Samples ready for a classifier: one feature value per sample (as a bit
/// pattern) and the class of each sample.
pub struct Dataset {
    features: Vec<u64>,
    labels: Vec<Label>,
}

impl Dataset {
    /// The feature value of each sample.
    pub closed spec fn features_view(&self) -> Seq<u64> {
        self.features@
    }

    /// The class of each sample.
    pub closed spec fn labels_view(&self) -> Seq<Label> {
        self.labels@
    }

    pub fn features(&self) -> (r: &Vec<u64>)
        ensures
            r@ == self.features_view(),
    {
        &self.features
    }

    pub fn labels(&self) -> (r: &Vec<Label>)
        ensures
            r@ == self.labels_view(),
    {
        &self.labels
    }

    /// Number of samples.
    pub fn nsamples(&self) -> (r: usize)
        ensures
            r == self.labels_view().len(),
    {
        self.labels.len()
    }

    /// Number of feature columns: always one.
    pub fn nfeatures(&self) -> (r: usize)
        ensures
            r == 1,
    {
        1
    }

    /// Number of target columns: always one.
    pub fn ntargets(&self) -> (r: usize)
        ensures
            r == 1,
    {
        1
    }

    /// Names of the feature columns.
    pub fn feature_names(&self) -> (r: Vec<&'static str>)
        ensures
            r@.len() == 1,
            r@[0]@ == feature_name_spec(),
    {
        proof {
            reveal_strlit("marks");
        }
        vec!["marks"]
    }
}

/// Splits a table into the feature column (the first cell of each row) and the
/// class of each row, read from the raw code in its second cell.
pub fn convert_array_to_dataset(table: &Table) -> (d: Dataset)
    ensures
        d.features_view().len() == table@.len(),
        d.labels_view().len() == table@.len(),
        forall|i: int|
            0 <= i < table@.len() ==> #[trigger] d.features_view()[i] == table@[i][0],
        forall|i: int|
            0 <= i < table@.len() ==> #[trigger] d.labels_view()[i] == label_of_code_spec(
                table@[i][1],
            ),
{
    proof {
        use_type_invariant(table);
    }
    let n = table.nrows();
    let mut features: Vec<u64> = Vec::new();
    let mut labels: Vec<Label> = Vec::new();
    let mut i: usize = 0;
    while i < n
        invariant
            n == table@.len(),
            all_rows_two_wide(table@),
            i <= n,
            features@.len() == i,
            labels@.len() == i,
            forall|j: int| 0 <= j < i ==> #[trigger] features@[j] == table@[j][0],
            forall|j: int| 0 <= j < i ==> #[trigger] labels@[j] == label_of_code_spec(table@[j][1]),
        decreases n - i,
    {
        assert(table@[i as int].len() == TABLE_WIDTH);
        features.push(table.cell(i, 0));
        labels.push(label_of_code(table.cell(i, 1)));
        i = i + 1;
    }
    Dataset { features, labels }
}

} // verus!
