//! Batch assembly: the feature sets of a request as three dense buffers, one
//! row per file, every row padded with zeros to the width of the longest.

use crate::features::{FeatureSet, FeatureSetView, PERMISSION_COUNT};
use vstd::prelude::*;

verus! {

/// `row` brought to length `width`: its items, then `fill`.
pub open spec fn padded<T>(row: Seq<T>, width: int, fill: T) -> Seq<T> {
    Seq::new(
        if width <= 0 {
            0nat
        } else {
            width as nat
        },
        |c: int|
            if c < row.len() {
                row[c]
            } else {
                fill
            },
    )
}

/// The length of the longest of the first `count` rows.
pub open spec fn max_len<T>(rows: Seq<Seq<T>>, count: int) -> int
    decreases count,
{
    if count <= 0 {
        0
    } else if rows[count - 1].len() > max_len(rows, count - 1) {
        rows[count - 1].len() as int
    } else {
        max_len(rows, count - 1)
    }
}

/// The first `count` rows, each padded to `width`, one after the other.
pub open spec fn flattened<T>(rows: Seq<Seq<T>>, width: int, fill: T, count: int) -> Seq<T>
    decreases count,
{
    if count <= 0 {
        Seq::empty()
    } else {
        flattened(rows, width, fill, count - 1) + padded(rows[count - 1], width, fill)
    }
}

/// Row `r` of a buffer whose rows are `width` long.
pub open spec fn row_of<T>(buffer: Seq<T>, width: int, r: int) -> Seq<T> {
    buffer.subrange(r * width, r * width + width)
}

/// The feature sets of one request in dense form.
#[derive(Debug)]
pub struct Batch {
    /// Number of rows of each buffer: one per feature set.
    pub rows: usize,
    /// Width of a row of `opcodes`.
    pub opcode_width: usize,
    /// Width of a row of `indices`: twice the number of spans.
    pub index_width: usize,
    pub opcodes: Vec<u8>,
    pub indices: Vec<i32>,
    pub permissions: Vec<u8>,
}

/// What a `Batch` holds.
pub struct BatchView {
    pub rows: int,
    pub opcode_width: int,
    pub index_width: int,
    pub opcodes: Seq<u8>,
    pub indices: Seq<i32>,
    pub permissions: Seq<u8>,
}

impl View for Batch {
    type V = BatchView;

    open spec fn view(&self) -> BatchView {
        BatchView {
            rows: self.rows as int,
            opcode_width: self.opcode_width as int,
            index_width: self.index_width as int,
            opcodes: self.opcodes@,
            indices: self.indices@,
            permissions: self.permissions@,
        }
    }
}

impl Batch {
    /// Shape of the opcode buffer: rows, and opcodes per row.
    pub fn opcode_shape(&self) -> (out: [u64; 2])
        ensures
            out[0] == self.rows,
            out[1] == self.opcode_width,
    {
        [self.rows as u64, self.opcode_width as u64]
    }

    /// Shape of the index buffer: rows, spans per row, and the two indices
    /// of a span.
    pub fn index_shape(&self) -> (out: [u64; 3])
        ensures
            out[0] == self.rows,
            out[1] == self.index_width / 2,
            out[2] == 2,
    {
        [self.rows as u64, self.index_width as u64 / 2, 2]
    }

    /// Shape of the permission buffer: rows, and the words of the vocabulary.
    pub fn permission_shape(&self) -> (out: [u64; 2])
        ensures
            out[0] == self.rows,
            out[1] == PERMISSION_COUNT,
    {
        [self.rows as u64, PERMISSION_COUNT as u64]
    }
}

/// The views of a sequence of feature sets, in order.
pub open spec fn feature_views(features: Seq<FeatureSet>) -> Seq<FeatureSetView> {
    features.map_values(|set: FeatureSet| set@)
}

/// The opcode sequences of a sequence of feature sets.
pub open spec fn opcode_rows(features: Seq<FeatureSetView>) -> Seq<Seq<u8>> {
    features.map_values(|set: FeatureSetView| set.opcodes)
}

/// The span indices of a sequence of feature sets.
pub open spec fn index_rows(features: Seq<FeatureSetView>) -> Seq<Seq<i32>> {
    features.map_values(|set: FeatureSetView| set.indices)
}

/// The permission vectors of a sequence of feature sets.
pub open spec fn permission_rows(features: Seq<FeatureSetView>) -> Seq<Seq<u8>> {
    features.map_values(|set: FeatureSetView| set.permissions)
}

/// The batch of a sequence of feature sets.
pub open spec fn batch_of(features: Seq<FeatureSetView>) -> BatchView {
    let count = features.len() as int;
    let opcode_width = max_len(opcode_rows(features), count);
    let index_width = max_len(index_rows(features), count);
    BatchView {
        rows: count,
        opcode_width,
        index_width,
        opcodes: flattened(opcode_rows(features), opcode_width, 0u8, count),
        indices: flattened(index_rows(features), index_width, 0i32, count),
        permissions: flattened(permission_rows(features), PERMISSION_COUNT as int, 0u8, count),
    }
}

/// Appends `row` to `buffer`, padded to `width` with `fill`.
fn push_padded<T: Copy>(buffer: &mut Vec<T>, row: &Vec<T>, width: usize, fill: T)
    ensures
        final(buffer)@ == old(buffer)@ + padded(row@, width as int, fill),
{
    let ghost before = buffer@;
    let mut c: usize = 0;
    while c < width
        invariant
            c <= width,
            buffer@ == before + padded(row@, width as int, fill).take(c as int),
        decreases width - c,
    {
        let item = if c < row.len() {
            row[c]
        } else {
            fill
        };
        buffer.push(item);
        assert(padded(row@, width as int, fill).take(c + 1) =~= padded(
            row@,
            width as int,
            fill,
        ).take(c as int).push(item));
        c += 1;
    }
    assert(padded(row@, width as int, fill).take(width as int) =~= padded(
        row@,
        width as int,
        fill,
    ));
}

/// Builds the batch of `features`, or nothing where there are none: row `i`
/// of each buffer holds feature set `i`, padded with zeros.
pub fn assemble(features: &Vec<FeatureSet>) -> (out: Option<Batch>)
    ensures
        out is None <==> features@.len() == 0,
        out matches Some(batch) ==> batch@ == batch_of(feature_views(features@)),
{
    let count = features.len();
    if count == 0 {
        return None;
    }
    let ghost sets = feature_views(features@);
    let mut opcode_width: usize = 0;
    let mut index_width: usize = 0;
    let mut i: usize = 0;
    while i < count
        invariant
            i <= count,
            count == features@.len(),
            sets == feature_views(features@),
            opcode_width == max_len(opcode_rows(sets), i as int),
            index_width == max_len(index_rows(sets), i as int),
        decreases count - i,
    {
        let set = &features[i];
        assert(sets[i as int] == set@);
        if set.opcodes.len() > opcode_width {
            opcode_width = set.opcodes.len();
        }
        if set.indices.len() > index_width {
            index_width = set.indices.len();
        }
        i += 1;
    }
    let mut opcodes: Vec<u8> = Vec::new();
    let mut indices: Vec<i32> = Vec::new();
    let mut permissions: Vec<u8> = Vec::new();
    let mut r: usize = 0;
    while r < count
        invariant
            r <= count,
            count == features@.len(),
            sets == feature_views(features@),
            opcodes@ == flattened(opcode_rows(sets), opcode_width as int, 0u8, r as int),
            indices@ == flattened(index_rows(sets), index_width as int, 0i32, r as int),
            permissions@ == flattened(
                permission_rows(sets),
                PERMISSION_COUNT as int,
                0u8,
                r as int,
            ),
        decreases count - r,
    {
        let set = &features[r];
        assert(sets[r as int] == set@);
        push_padded(&mut opcodes, &set.opcodes, opcode_width, 0u8);
        push_padded(&mut indices, &set.indices, index_width, 0i32);
        push_padded(&mut permissions, &set.permissions, PERMISSION_COUNT, 0u8);
        r += 1;
    }
    Some(Batch { rows: count, opcode_width, index_width, opcodes, indices, permissions })
}

/// No row is longer than the longest.
pub proof fn lemma_max_len_bounds<T>(rows: Seq<Seq<T>>, count: int, r: int)
    requires
        0 <= r < count <= rows.len(),
    ensures
        rows[r].len() <= max_len(rows, count),
    decreases count,
{
    if r < count - 1 {
        lemma_max_len_bounds(rows, count - 1, r);
    }
}

/// The longest length is the length of one of the rows.
pub proof fn lemma_max_len_attained<T>(rows: Seq<Seq<T>>, count: int)
    requires
        0 < count <= rows.len(),
    ensures
        exists|r: int| 0 <= r < count && (#[trigger] rows[r]).len() == max_len(rows, count),
        max_len(rows, count) >= 0,
    decreases count,
{
    if count == 1 {
        assert(max_len(rows, 0) == 0);
        assert(rows[0].len() == max_len(rows, 1));
    } else if rows[count - 1].len() > max_len(rows, count - 1) {
        lemma_max_len_attained(rows, count - 1);
        assert(rows[count - 1].len() == max_len(rows, count));
    } else {
        lemma_max_len_attained(rows, count - 1);
        let r = choose|r: int| 0 <= r < count - 1 && (#[trigger] rows[r]).len() == max_len(
            rows,
            count - 1,
        );
        assert(rows[r].len() == max_len(rows, count));
    }
}

/// A dense buffer holds `count` rows of `width` items.
pub proof fn lemma_flattened_len<T>(rows: Seq<Seq<T>>, width: int, fill: T, count: int)
    requires
        0 <= width,
        0 <= count,
    ensures
        flattened(rows, width, fill, count).len() == count * width,
    decreases count,
{
    if count > 0 {
        lemma_flattened_len(rows, width, fill, count - 1);
        assert((count - 1) * width + width == count * width) by (nonlinear_arith);
    } else {
        assert(0 * width == 0);
    }
}

/// Row `r` of a dense buffer is row `r` of what it was built from, padded.
pub proof fn lemma_flattened_row<T>(rows: Seq<Seq<T>>, width: int, fill: T, count: int, r: int)
    requires
        0 <= width,
        0 <= r < count,
    ensures
        row_of(flattened(rows, width, fill, count), width, r) == padded(rows[r], width, fill),
    decreases count,
{
    let before = flattened(rows, width, fill, count - 1);
    let last = padded(rows[count - 1], width, fill);
    lemma_flattened_len(rows, width, fill, count - 1);
    assert(r * width + width <= (count - 1) * width + width) by (nonlinear_arith)
        requires
            0 <= width,
            0 <= r <= count - 1,
    ;
    assert(0 <= r * width) by (nonlinear_arith)
        requires
            0 <= width,
            0 <= r,
    ;
    if r == count - 1 {
        assert((before + last).subrange(r * width, r * width + width) =~= last);
    } else {
        lemma_flattened_row(rows, width, fill, count - 1, r);
        assert(r * width + width <= (count - 1) * width) by (nonlinear_arith)
            requires
                0 <= width,
                0 <= r < count - 1,
        ;
        assert((before + last).subrange(r * width, r * width + width) =~= before.subrange(
            r * width,
            r * width + width,
        ));
    }
}

/// Row correspondence. Row `r` of every buffer of a batch belongs to feature
/// set `r`: it begins with that set's whole sequence, and all that follows
/// in the row is zero. A permission vector of the vocabulary's length fills
/// its row exactly.
pub proof fn lemma_batch_rows(features: Seq<FeatureSetView>, r: int)
    requires
        0 <= r < features.len(),
    ensures
        features[r].opcodes.len() <= batch_of(features).opcode_width,
        features[r].indices.len() <= batch_of(features).index_width,
        row_of(batch_of(features).opcodes, batch_of(features).opcode_width, r) == padded(
            features[r].opcodes,
            batch_of(features).opcode_width,
            0u8,
        ),
        row_of(batch_of(features).indices, batch_of(features).index_width, r) == padded(
            features[r].indices,
            batch_of(features).index_width,
            0i32,
        ),
        row_of(batch_of(features).permissions, PERMISSION_COUNT as int, r) == padded(
            features[r].permissions,
            PERMISSION_COUNT as int,
            0u8,
        ),
        features[r].permissions.len() == PERMISSION_COUNT ==> row_of(
            batch_of(features).permissions,
            PERMISSION_COUNT as int,
            r,
        ) == features[r].permissions,
{
    let count = features.len() as int;
    let batch = batch_of(features);
    lemma_max_len_bounds(opcode_rows(features), count, r);
    lemma_max_len_bounds(index_rows(features), count, r);
    lemma_flattened_row(opcode_rows(features), batch.opcode_width, 0u8, count, r);
    lemma_flattened_row(index_rows(features), batch.index_width, 0i32, count, r);
    lemma_flattened_row(permission_rows(features), PERMISSION_COUNT as int, 0u8, count, r);
    if features[r].permissions.len() == PERMISSION_COUNT {
        assert(padded(features[r].permissions, PERMISSION_COUNT as int, 0u8)
            =~= features[r].permissions);
    }
}

/// The shape of a batch. Each buffer holds as many rows as there are feature
/// sets; the rows of the opcode and index buffers are as wide as the longest
/// sequence among the sets, and where every set holds whole spans, so does
/// every row of the index buffer.
pub proof fn lemma_batch_shape(features: Seq<FeatureSetView>)
    ensures
        batch_of(features).rows == features.len(),
        batch_of(features).opcodes.len() == features.len() * batch_of(features).opcode_width,
        batch_of(features).indices.len() == features.len() * batch_of(features).index_width,
        batch_of(features).permissions.len() == features.len() * PERMISSION_COUNT,
        features.len() > 0 ==> exists|r: int|
            0 <= r < features.len() && (#[trigger] features[r]).opcodes.len() == batch_of(
                features,
            ).opcode_width,
        features.len() > 0 ==> exists|r: int|
            0 <= r < features.len() && (#[trigger] features[r]).indices.len() == batch_of(
                features,
            ).index_width,
        (forall|i: int| 0 <= i < features.len() ==> (#[trigger] features[i]).indices.len() % 2 == 0)
            ==> batch_of(features).index_width % 2 == 0,
{
    let count = features.len() as int;
    let batch = batch_of(features);
    if count > 0 {
        lemma_max_len_attained(opcode_rows(features), count);
        lemma_max_len_attained(index_rows(features), count);
        let a = choose|r: int|
            0 <= r < count && (#[trigger] opcode_rows(features)[r]).len() == max_len(
                opcode_rows(features),
                count,
            );
        assert(features[a].opcodes.len() == batch.opcode_width);
        let b = choose|r: int|
            0 <= r < count && (#[trigger] index_rows(features)[r]).len() == max_len(
                index_rows(features),
                count,
            );
        assert(features[b].indices.len() == batch.index_width);
    }
    lemma_flattened_len(opcode_rows(features), batch.opcode_width, 0u8, count);
    lemma_flattened_len(index_rows(features), batch.index_width, 0i32, count);
    lemma_flattened_len(permission_rows(features), PERMISSION_COUNT as int, 0u8, count);
}

} // verus!
