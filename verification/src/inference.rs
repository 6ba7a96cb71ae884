//! Verdict decoding: from the classifier's output, one row of class scores
//! per file, to one verdict per file.

use crate::batch::row_of;
use crate::models::{Detection, Prediction, Score, CLASS_COUNT};
use vstd::prelude::*;

verus! {

/// Why the output of the classifier yields no verdicts.
#[derive(Debug, Clone, Copy, PartialEq, Eq, Structural)]
pub enum InferenceError {
    /// The output does not hold one score per class for every row of the
    /// batch.
    ShapeMismatch,
}

/// Whether `at` is the index of the maximum of `row`, and the lowest such
/// index.
pub open spec fn is_first_maximum(row: Seq<Score>, at: int) -> bool {
    &&& 0 <= at < row.len()
    &&& forall|j: int| 0 <= j < row.len() ==> (#[trigger] row[j]).key() <= row[at].key()
    &&& forall|j: int| 0 <= j < at ==> (#[trigger] row[j]).key() < row[at].key()
}

/// The index of the maximum among the first `count` scores of `row`; of
/// equal maxima, the lowest index.
pub open spec fn first_maximum(row: Seq<Score>, count: int) -> int
    decreases count,
{
    if count <= 1 {
        0
    } else {
        let best = first_maximum(row, count - 1);
        if row[count - 1].key() > row[best].key() {
            count - 1
        } else {
            best
        }
    }
}

/// The verdict of a row of class scores: the class with the maximum score,
/// and that score.
pub open spec fn prediction_of(row: Seq<Score>) -> Prediction {
    let best = first_maximum(row, CLASS_COUNT as int);
    Prediction { detection: Detection::of_index(best).unwrap(), probability: row[best] }
}

/// The verdicts of `rows` rows of class scores.
pub open spec fn predictions_of(rows: int, scores: Seq<Score>) -> Seq<Prediction> {
    Seq::new(
        if rows <= 0 {
            0nat
        } else {
            rows as nat
        },
        |r: int| prediction_of(row_of(scores, CLASS_COUNT as int, r)),
    )
}

/// `first_maximum` is the lowest index at which the maximum stands.
pub proof fn lemma_first_maximum(row: Seq<Score>, count: int)
    requires
        0 < count <= row.len(),
    ensures
        is_first_maximum(row.take(count), first_maximum(row, count)),
    decreases count,
{
    if count > 1 {
        lemma_first_maximum(row, count - 1);
        let before = first_maximum(row, count - 1);
        let best = first_maximum(row, count);
        assert forall|j: int| 0 <= j < count implies (#[trigger] row.take(count)[j]).key()
            <= row.take(count)[best].key() by {
            if j < count - 1 {
                assert(row.take(count - 1)[j].key() <= row.take(count - 1)[before].key());
            }
        }
        assert forall|j: int| 0 <= j < best implies (#[trigger] row.take(count)[j]).key()
            < row.take(count)[best].key() by {
            if best == before {
                assert(row.take(count - 1)[j].key() < row.take(count - 1)[before].key());
            } else {
                assert(row.take(count - 1)[j].key() <= row.take(count - 1)[before].key());
            }
        }
    }
}

/// A verdict names the class whose score is the maximum of the row, the
/// first such class where several share it, and carries that score.
pub proof fn lemma_prediction_is_first_maximum(row: Seq<Score>)
    requires
        row.len() == CLASS_COUNT,
    ensures
        is_first_maximum(row, prediction_of(row).detection.spec_index()),
        prediction_of(row).probability == row[prediction_of(row).detection.spec_index()],
{
    lemma_first_maximum(row, CLASS_COUNT as int);
    assert(row.take(CLASS_COUNT as int) =~= row);
}

/// Decodes the row of class scores that begins at `start`.
pub fn decode_row(scores: &Vec<Score>, start: usize) -> (out: Prediction)
    requires
        start + CLASS_COUNT <= scores@.len(),
    ensures
        out == prediction_of(scores@.subrange(start as int, start + CLASS_COUNT)),
{
    let ghost row = scores@.subrange(start as int, start + CLASS_COUNT);
    let total = scores.len();
    let mut best: usize = 0;
    let mut c: usize = 1;
    while c < CLASS_COUNT
        invariant
            1 <= c <= CLASS_COUNT,
            total == scores@.len(),
            start + CLASS_COUNT <= scores@.len(),
            row == scores@.subrange(start as int, start + CLASS_COUNT),
            best == first_maximum(row, c as int),
            0 <= best < c,
        decreases CLASS_COUNT - c,
    {
        assert(row[c as int] == scores@[start + c]);
        assert(row[best as int] == scores@[start + best]);
        if scores[start + c].exceeds(scores[start + best]) {
            best = c;
        }
        c += 1;
    }
    assert(row[best as int] == scores@[start + best]);
    match Detection::try_from(best) {
        Ok(detection) => Prediction { detection, probability: scores[start + best] },
        Err(_) => {
            assert(false);
            Prediction { detection: Detection::Benign, probability: scores[start + best] }
        },
    }
}

/// Decodes the output of the classifier for a batch of `rows` rows. The
/// output is taken as a whole: unless it holds one score per class for every
/// row, no verdict is returned.
pub fn decode_output(rows: usize, scores: &Vec<Score>) -> (out: Result<
    Vec<Prediction>,
    InferenceError,
>)
    ensures
        out is Ok <==> scores@.len() == rows * CLASS_COUNT,
        out matches Ok(predictions) ==> predictions@ == predictions_of(rows as int, scores@),
{
    if scores.len() % CLASS_COUNT != 0 || scores.len() / CLASS_COUNT != rows {
        return Err(InferenceError::ShapeMismatch);
    }
    let total = scores.len();
    let mut predictions: Vec<Prediction> = Vec::new();
    let mut r: usize = 0;
    while r < rows
        invariant
            r <= rows,
            total == scores@.len(),
            scores@.len() == rows * CLASS_COUNT,
            predictions@.len() == r,
            forall|i: int|
                0 <= i < r ==> #[trigger] predictions@[i] == predictions_of(
                    rows as int,
                    scores@,
                )[i],
        decreases rows - r,
    {
        assert(r * CLASS_COUNT + CLASS_COUNT <= rows * CLASS_COUNT) by (nonlinear_arith)
            requires
                r < rows,
        ;
        let prediction = decode_row(scores, r * CLASS_COUNT);
        predictions.push(prediction);
        r += 1;
    }
    assert(predictions@ =~= predictions_of(rows as int, scores@));
    Ok(predictions)
}

} // verus!
