//! The square matrix, its wire codec, the row-range partitioner, and the
//! row-sum transform that workers apply to their slices.

use vstd::prelude::*;

use crate::codec::be_u32;
use crate::codec::i32_bits;
use crate::codec::i32_bytes;
use crate::codec::lemma_i32_bits_round_trip;
use crate::codec::lemma_u32_round_trip;
use crate::codec::push_be_i32;
use crate::codec::push_be_u32;
use crate::codec::read_be_i32;
use crate::codec::read_be_u32;
use crate::codec::u32_as_i32;
use crate::codec::u32_bytes;

verus! {

/// A square `dim x dim` matrix of signed 32-bit integers, row-major.
pub struct Matrix {
    rows: Vec<Vec<i32>>,
}

/// Every row is exactly as long as the outer row count.
pub open spec fn is_square(rows: Seq<Seq<i32>>) -> bool {
    forall|i: int| 0 <= i < rows.len() ==> (#[trigger] rows[i]).len() == rows.len()
}

/// The exact number of bytes of the wire form of a `dim x dim` matrix:
/// a 4-byte dimension prefix plus four bytes per element.
pub open spec fn spec_size(dim: int) -> int {
    4 + 4 * dim * dim
}

/// The wire bytes of a sequence of elements, each big-endian.
pub open spec fn enc_elems(row: Seq<i32>) -> Seq<u8>
    decreases row.len(),
{
    if row.len() == 0 {
        Seq::empty()
    } else {
        enc_elems(row.drop_last()) + i32_bytes(row.last())
    }
}

/// The wire bytes of the rows of a matrix, concatenated in order.
pub open spec fn enc_rows(rows: Seq<Seq<i32>>) -> Seq<u8>
    decreases rows.len(),
{
    if rows.len() == 0 {
        Seq::empty()
    } else {
        enc_rows(rows.drop_last()) + enc_elems(rows.last())
    }
}

/// The full wire form: the dimension as a big-endian u32, then every element
/// in row-major order.
pub open spec fn spec_serialize(rows: Seq<Seq<i32>>) -> Seq<u8> {
    u32_bytes(rows.len() as u32) + enc_rows(rows)
}

pub proof fn lemma_enc_elems_len(row: Seq<i32>)
    ensures
        enc_elems(row).len() == 4 * row.len(),
    decreases row.len(),
{
    if row.len() > 0 {
        lemma_enc_elems_len(row.drop_last());
    }
}

pub proof fn lemma_enc_rows_len(rows: Seq<Seq<i32>>, w: int)
    requires
        forall|i: int| 0 <= i < rows.len() ==> (#[trigger] rows[i]).len() == w,
    ensures
        enc_rows(rows).len() == 4 * w * rows.len(),
    decreases rows.len(),
{
    if rows.len() > 0 {
        lemma_enc_rows_len(rows.drop_last(), w);
        lemma_enc_elems_len(rows.last());
        assert(4 * w * (rows.len() - 1) + 4 * w == 4 * w * rows.len()) by (nonlinear_arith);
    }
}

/// The matrix encoded in a byte sequence, if its length fits the declared
/// dimension exactly: `None` on fewer than 4 bytes, and on any length other
/// than `spec_size(dim)` for the dimension the first four bytes declare.
pub open spec fn spec_deserialize(b: Seq<u8>) -> Option<Seq<Seq<i32>>> {
    if b.len() < 4 {
        None
    } else {
        let dim = be_u32(b.subrange(0, 4)) as int;
        if b.len() != spec_size(dim) {
            None
        } else {
            Some(
                Seq::new(
                    dim as nat,
                    |i: int|
                        Seq::new(
                            dim as nat,
                            |j: int|
                                u32_as_i32(
                                    be_u32(
                                        b.subrange(
                                            4 + 4 * (i * dim + j),
                                            4 + 4 * (i * dim + j) + 4,
                                        ),
                                    ),
                                ),
                        ),
                ),
            )
        }
    }
}

pub proof fn lemma_enc_elems_index(row: Seq<i32>, j: int)
    requires
        0 <= j < row.len(),
    ensures
        4 * j + 4 <= enc_elems(row).len(),
        enc_elems(row).subrange(4 * j, 4 * j + 4) == i32_bytes(row[j]),
    decreases row.len(),
{
    lemma_enc_elems_len(row);
    lemma_enc_elems_len(row.drop_last());
    if j == row.len() - 1 {
        assert(enc_elems(row).subrange(4 * j, 4 * j + 4) =~= i32_bytes(row.last()));
    } else {
        lemma_enc_elems_index(row.drop_last(), j);
        assert(enc_elems(row).subrange(4 * j, 4 * j + 4) =~= enc_elems(row.drop_last()).subrange(
            4 * j,
            4 * j + 4,
        ));
        assert(row.drop_last()[j] == row[j]);
    }
}

pub proof fn lemma_enc_rows_index(rows: Seq<Seq<i32>>, w: int, i: int)
    requires
        forall|k: int| 0 <= k < rows.len() ==> (#[trigger] rows[k]).len() == w,
        0 <= i < rows.len(),
        w >= 0,
    ensures
        4 * w * i + 4 * w <= enc_rows(rows).len(),
        enc_rows(rows).subrange(4 * w * i, 4 * w * i + 4 * w) == enc_elems(rows[i]),
    decreases rows.len(),
{
    lemma_enc_rows_len(rows, w);
    lemma_enc_rows_len(rows.drop_last(), w);
    lemma_enc_elems_len(rows.last());
    assert(4 * w * i + 4 * w <= 4 * w * rows.len()) by (nonlinear_arith)
        requires
            0 <= i < rows.len(),
            w >= 0,
    ;
    if i == rows.len() - 1 {
        assert(4 * w * i == 4 * w * (rows.len() - 1)) by (nonlinear_arith)
            requires
                i == rows.len() - 1,
    ;
        assert(enc_rows(rows).subrange(4 * w * i, 4 * w * i + 4 * w) =~= enc_elems(rows.last()));
    } else {
        lemma_enc_rows_index(rows.drop_last(), w, i);
        assert(4 * w * i + 4 * w <= 4 * w * (rows.len() - 1)) by (nonlinear_arith)
            requires
                0 <= i < rows.len() - 1,
                w >= 0,
    ;
        assert(enc_rows(rows).subrange(4 * w * i, 4 * w * i + 4 * w) =~= enc_rows(
            rows.drop_last(),
        ).subrange(4 * w * i, 4 * w * i + 4 * w));
        assert(rows.drop_last()[i] == rows[i]);
    }
}

/// Round trip: decoding the wire form of any square matrix whose dimension
/// fits in an unsigned 32-bit value yields that matrix again.
pub proof fn lemma_round_trip(rows: Seq<Seq<i32>>)
    requires
        is_square(rows),
        rows.len() <= u32::MAX,
    ensures
        spec_deserialize(spec_serialize(rows)) == Some(rows),
{
    let dim = rows.len() as int;
    let b = spec_serialize(rows);
    lemma_enc_rows_len(rows, dim);
    assert(b.len() == spec_size(dim));
    assert(b.subrange(0, 4) =~= u32_bytes(rows.len() as u32));
    lemma_u32_round_trip(rows.len() as u32);
    assert(be_u32(b.subrange(0, 4)) as int == dim);
    assert(b.len() >= 4);
    let m = spec_deserialize(b).unwrap();
    assert forall|i: int, j: int| 0 <= i < dim && 0 <= j < dim implies m[i][j] == rows[i][j] by {
        let off = 4 * (i * dim + j);
        assert(4 * dim * i + 4 * j == off && off + 4 <= 4 * dim * dim) by (nonlinear_arith)
            requires
                0 <= i < dim,
                0 <= j < dim,
                off == 4 * (i * dim + j),
    ;
        lemma_enc_rows_index(rows, dim, i);
        lemma_enc_elems_index(rows[i], j);
        assert(b.subrange(4 + off, 4 + off + 4) =~= enc_rows(rows).subrange(off, off + 4));
        assert(enc_rows(rows).subrange(off, off + 4) =~= enc_rows(rows).subrange(
            4 * dim * i,
            4 * dim * i + 4 * dim,
        ).subrange(4 * j, 4 * j + 4));
        assert(b.subrange(4 + off, 4 + off + 4) == i32_bytes(rows[i][j]));
        lemma_u32_round_trip(i32_bits(rows[i][j]));
        lemma_i32_bits_round_trip(rows[i][j]);
    }
    assert forall|i: int| 0 <= i < dim implies m[i] == rows[i] by {
        assert(m[i] =~= rows[i]);
    }
    assert(m =~= rows);
}

/// Relies on rand::random: draws an arbitrary 32-bit value from the
/// thread-local generator; nothing is assumed of the value.
#[verifier::external_body]
fn random_u32() -> u32 {
    rand::random::<u32>()
}

impl Clone for Matrix {
    /// A deep copy with the same elements.
    fn clone(&self) -> (r: Self)
        ensures
            r@ == self@,
    {
        let n = self.rows.len();
        let mut rows: Vec<Vec<i32>> = Vec::new();
        let mut i: usize = 0;
        while i < n
            invariant
                i <= n,
                n == self.rows@.len(),
                rows@.len() == i,
                forall|k: int| 0 <= k < i ==> (#[trigger] rows@[k])@ == self@[k],
            decreases n - i,
        {
            let row_len = self.rows[i].len();
            let mut row: Vec<i32> = Vec::new();
            let mut j: usize = 0;
            while j < row_len
                invariant
                    j <= row_len,
                    i < n,
                    n == self.rows@.len(),
                    row_len == self.rows@[i as int]@.len(),
                    row@.len() == j,
                    forall|t: int| 0 <= t < j ==> row@[t] == self@[i as int][t],
                decreases row_len - j,
            {
                row.push(self.rows[i][j]);
                j += 1;
            }
            rows.push(row);
            proof {
                assert(rows@[i as int]@ =~= self@[i as int]);
            }
            i += 1;
        }
        let r = Matrix { rows };
        proof {
            assert(r@ =~= self@);
        }
        r
    }
}

impl PartialEq for Matrix {
    /// Two matrices are equal when they hold the same rows.
    fn eq(&self, other: &Self) -> (r: bool) {
        let n = self.rows.len();
        if n != other.rows.len() {
            return false;
        }
        let mut i: usize = 0;
        while i < n
            invariant
                i <= n,
                n == self.rows@.len(),
                n == other.rows@.len(),
                forall|k: int| 0 <= k < i ==> self@[k] == other@[k],
            decreases n - i,
        {
            let row_len = self.rows[i].len();
            if row_len != other.rows[i].len() {
                proof {
                    assert(self@[i as int].len() != other@[i as int].len());
                }
                return false;
            }
            let mut j: usize = 0;
            while j < row_len
                invariant
                    j <= row_len,
                    i < n,
                    n == self.rows@.len(),
                    n == other.rows@.len(),
                    row_len == self.rows@[i as int]@.len(),
                    row_len == other.rows@[i as int]@.len(),
                    forall|t: int| 0 <= t < j ==> self@[i as int][t] == other@[i as int][t],
            decreases row_len - j,
            {
                if self.rows[i][j] != other.rows[i][j] {
                    proof {
                        assert(self@[i as int][j as int] != other@[i as int][j as int]);
                    }
                    return false;
                }
                j += 1;
            }
            proof {
                assert(self@[i as int] =~= other@[i as int]);
            }
            i += 1;
        }
        proof {
            assert(self@ =~= other@);
        }
        true
    }
}

impl vstd::std_specs::cmp::PartialEqSpecImpl for Matrix {
    open spec fn obeys_eq_spec() -> bool {
        true
    }

    open spec fn eq_spec(&self, other: &Matrix) -> bool {
        self@ == other@
    }
}

impl Eq for Matrix {

}

/// A contiguous run of rows cut out of a matrix, owned exclusively by one
/// worker; `start_index` is the absolute index of the slice's first row
/// within the parent matrix.
pub struct MatrixSlice {
    start_index: usize,
    rows: Vec<Vec<i32>>,
}

impl MatrixSlice {
    /// The absolute index of the first row within the parent matrix.
    pub closed spec fn spec_start(&self) -> int {
        self.start_index as int
    }

    /// The rows this slice owns.
    pub closed spec fn spec_rows(&self) -> Seq<Seq<i32>> {
        Seq::new(self.rows@.len(), |i: int| self.rows@[i]@)
    }

    /// The row width of the parent matrix, read off the first row.
    pub open spec fn spec_width(&self) -> int {
        if self.spec_rows().len() == 0 {
            0
        } else {
            self.spec_rows()[0].len() as int
        }
    }

    /// All rows share one width, and the slice's absolute row indices stay
    /// within that width, so the diagonal-style write of the transform is
    /// always in bounds.
    pub open spec fn wf(&self) -> bool {
        &&& forall|i: int|
            0 <= i < self.spec_rows().len() ==> (#[trigger] self.spec_rows()[i]).len()
                == self.spec_width()
        &&& self.spec_start() + self.spec_rows().len() <= self.spec_width()
    }

    pub fn start_index(&self) -> (r: usize)
        ensures
            r == self.spec_start(),
    {
        self.start_index
    }

    pub fn num_rows(&self) -> (r: usize)
        ensures
            r == self.spec_rows().len(),
    {
        self.rows.len()
    }

    /// Whether this slice can be installed back into a matrix of dimension
    /// `dim`: well formed, cut with row width `dim`, and its absolute row
    /// range within bounds.
    pub fn fits(&self, dim: usize) -> (r: bool)
        ensures
            r == (self.wf() && self.spec_width() == dim && self.spec_start()
                + self.spec_rows().len() <= dim),
    {
        let n = self.rows.len();
        if n == 0 {
            return dim == 0 && self.start_index == 0;
        }
        let mut i: usize = 0;
        while i < n
            invariant
                i <= n,
                n == self.spec_rows().len(),
                forall|k: int| 0 <= k < i ==> (#[trigger] self.spec_rows()[k]).len() == dim,
            decreases n - i,
        {
            if self.rows[i].len() != dim {
                proof {
                    assert(self.spec_rows()[i as int].len() != dim);
                    if self.wf() && self.spec_width() == dim {
                        assert(self.spec_rows()[i as int].len() == self.spec_width());
                    }
                }
                return false;
            }
            i += 1;
        }
        proof {
            assert(self.spec_width() == dim);
            assert(forall|k: int|
                0 <= k < self.spec_rows().len() ==> (#[trigger] self.spec_rows()[k]).len()
                    == self.spec_width());
        }
        if self.start_index > dim || n > dim - self.start_index {
            return false;
        }
        true
    }

    /// Reads one element of the slice, by local row offset and column.
    pub fn get(&self, i: usize, j: usize) -> (r: i32)
        requires
            i < self.spec_rows().len(),
            j < self.spec_rows()[i as int].len(),
        ensures
            r == self.spec_rows()[i as int][j as int],
    {
        self.rows[i][j]
    }
}

/// The rows of a sequence of slices, concatenated in slice order.
pub open spec fn slices_rows(s: Seq<MatrixSlice>) -> Seq<Seq<i32>>
    decreases s.len(),
{
    if s.len() == 0 {
        Seq::empty()
    } else {
        slices_rows(s.drop_last()) + s.last().spec_rows()
    }
}

#[verifier::rlimit(30)]
proof fn lemma_slices_concat_prefix(
    s: Seq<MatrixSlice>,
    orig_v: Seq<Seq<i32>>,
    base: int,
    dim: int,
    parts: int,
    t: int,
)
    requires
        s.len() == parts,
        1 <= parts <= dim,
        base == dim / parts,
        dim == orig_v.len(),
        forall|k: int|
            0 <= k < parts ==> (#[trigger] s[k]).spec_rows() == orig_v.subrange(
                k * base,
                if k == parts - 1 {
                    dim
                } else {
                    (k + 1) * base
                },
            ),
        0 <= t <= parts,
    ensures
        slices_rows(s.take(t)) == orig_v.subrange(
            0,
            if t == parts {
                dim
            } else {
                t * base
            },
        ),
    decreases t,
{
    vstd::arithmetic::div_mod::lemma_fundamental_div_mod(dim, parts);
    assert(0 <= base && parts * base <= dim) by (nonlinear_arith)
        requires
            1 <= parts <= dim,
            base == dim / parts,
            dim == parts * base + dim % parts,
            0 <= dim % parts,
    ;
    if t == 0 {
        assert(t * base == 0) by (nonlinear_arith)
            requires
                t == 0,
    ;
        assert(s.take(0) =~= Seq::<MatrixSlice>::empty());
        assert(orig_v.subrange(0, 0) =~= Seq::<Seq<i32>>::empty());
        assert(slices_rows(s.take(0)) == orig_v.subrange(0, 0));
    } else {
        lemma_slices_concat_prefix(s, orig_v, base, dim, parts, t - 1);
        assert(s.take(t).drop_last() =~= s.take(t - 1));
        assert(s.take(t).last() == s[t - 1]);
        let prev_end = (t - 1) * base;
        let end = if t == parts {
            dim
        } else {
            t * base
        };
        assert((t - 1) * base + base == t * base && t * base <= parts * base && 0 <= (t - 1)
            * base) by (nonlinear_arith)
            requires
                1 <= t <= parts,
                0 <= base,
    ;
        assert(slices_rows(s.take(t)) == orig_v.subrange(0, prev_end) + orig_v.subrange(
            prev_end,
            end,
        ));
        assert(orig_v.subrange(0, prev_end) + orig_v.subrange(prev_end, end) =~= orig_v.subrange(
            0,
            end,
        ));
    }
}

/// The wrapping sum of a row's elements, accumulated left to right.
pub open spec fn row_sum(s: Seq<i32>) -> i32
    decreases s.len(),
{
    if s.len() == 0 {
        0i32
    } else {
        vstd::wrapping::i32_specs::wrapping_add(row_sum(s.drop_last()), s.last())
    }
}

/// The row-sum transform of a whole matrix: each row's (wrapping) element
/// sum written into the column equal to the row's absolute index.
pub open spec fn spec_transform(rows: Seq<Seq<i32>>) -> Seq<Seq<i32>> {
    Seq::new(rows.len(), |i: int| rows[i].update(i, row_sum(rows[i])))
}

/// A slice cut at absolute row `start` out of `orig`, once transformed as
/// `count_assign_row_sums` promises, holds exactly rows `start..end` of the
/// transformed matrix; so the disjoint slices of a split, transformed and
/// laid back at their start indexes, rebuild `spec_transform(orig)`.
pub proof fn lemma_slice_transform(
    orig: Seq<Seq<i32>>,
    start: int,
    end: int,
    before: Seq<Seq<i32>>,
    after: Seq<Seq<i32>>,
)
    requires
        0 <= start <= end <= orig.len(),
        before == orig.subrange(start, end),
        after.len() == before.len(),
        forall|i: int|
            0 <= i < before.len() ==> after[i] == (#[trigger] before[i]).update(
                start + i,
                row_sum(before[i]),
            ),
    ensures
        forall|i: int| 0 <= i < after.len() ==> after[i] == spec_transform(orig)[start + i],
{
    assert forall|i: int| 0 <= i < after.len() implies after[i] == spec_transform(orig)[start
        + i] by {
        assert(before[i] == orig[start + i]);
    }
}

/// The mathematical sum of a row's elements.
pub open spec fn sum_int(s: Seq<i32>) -> int
    decreases s.len(),
{
    if s.len() == 0 {
        0
    } else {
        sum_int(s.drop_last()) + s.last()
    }
}

/// When every prefix sum stays within the signed 32-bit range, the wrapping
/// row sum is the exact element sum.
pub proof fn lemma_row_sum_exact(s: Seq<i32>)
    requires
        forall|k: int|
            0 <= k <= s.len() ==> i32::MIN <= #[trigger] sum_int(s.take(k)) <= i32::MAX,
    ensures
        row_sum(s) == sum_int(s),
    decreases s.len(),
{
    if s.len() > 0 {
        let d = s.drop_last();
        assert forall|k: int|
            0 <= k <= d.len() implies i32::MIN <= #[trigger] sum_int(d.take(k)) <= i32::MAX by {
            assert(d.take(k) =~= s.take(k));
            assert(i32::MIN <= sum_int(s.take(k)) <= i32::MAX);
        }
        lemma_row_sum_exact(d);
        assert(s.take(s.len() as int) =~= s);
        assert(s.take(d.len() as int) =~= d);
    }
}

/// The unit of parallel work: writes each row's element sum back into the
/// row, at the column equal to the row's absolute index in the parent
/// matrix. The worker that ran this hands the slice back to its session,
/// whose completion counter then rises by one.
pub fn count_assign_row_sums(slice: &mut MatrixSlice)
    requires
        old(slice).wf(),
    ensures
        final(slice).wf(),
        final(slice).spec_start() == old(slice).spec_start(),
        final(slice).spec_width() == old(slice).spec_width(),
        final(slice).spec_rows().len() == old(slice).spec_rows().len(),
        forall|i: int|
            0 <= i < old(slice).spec_rows().len() ==> final(slice).spec_rows()[i] == (
            #[trigger] old(slice).spec_rows()[i]).update(
                old(slice).spec_start() + i,
                row_sum(old(slice).spec_rows()[i]),
            ),
{
    let n = slice.rows.len();
    let start = slice.start_index;
    let mut i: usize = 0;
    while i < n
        invariant
            i <= n,
            n == slice.rows@.len(),
            start == old(slice).spec_start(),
            slice.start_index == old(slice).start_index,
            old(slice).wf(),
            n == old(slice).spec_rows().len(),
            forall|k: int|
                i <= k < n ==> (#[trigger] slice.rows@[k])@ == old(slice).spec_rows()[k],
            forall|k: int|
                0 <= k < i ==> (#[trigger] slice.rows@[k])@ == old(slice).spec_rows()[k].update(
                    old(slice).spec_start() + k,
                    row_sum(old(slice).spec_rows()[k]),
                ),
        decreases n - i,
    {
        let row_len = slice.rows[i].len();
        proof {
            assert(old(slice).spec_rows()[i as int].len() == old(slice).spec_width());
        }
        let mut total: i32 = 0;
        let mut j: usize = 0;
        while j < row_len
            invariant
                j <= row_len,
                i < n,
                n == slice.rows@.len(),
                row_len == slice.rows@[i as int]@.len(),
                slice.rows@[i as int]@ == old(slice).spec_rows()[i as int],
                total == row_sum(slice.rows@[i as int]@.take(j as int)),
            decreases row_len - j,
        {
            total = total.wrapping_add(slice.rows[i][j]);
            proof {
                let r = slice.rows@[i as int]@;
                assert(r.take(j + 1).drop_last() =~= r.take(j as int));
                assert(r.take(j + 1).last() == r[j as int]);
            }
            j += 1;
        }
        proof {
            assert(slice.rows@[i as int]@.take(row_len as int) =~= slice.rows@[i as int]@);
            assert(start + i < row_len);
        }
        let col = start + i;
        set_row_elem(&mut slice.rows, i, col, total);
        proof {
            assert(slice.rows@[i as int]@ =~= old(slice).spec_rows()[i as int].update(
                old(slice).spec_start() + i,
                row_sum(old(slice).spec_rows()[i as int]),
            ));
        }
        i += 1;
    }
    proof {
        assert forall|k: int|
            0 <= k < slice.spec_rows().len() implies (#[trigger] slice.spec_rows()[k]).len()
            == slice.spec_width() by {
            assert(slice.spec_rows()[k].len() == old(slice).spec_rows()[k].len());
            assert(slice.spec_rows()[0].len() == old(slice).spec_rows()[0].len());
        }
    }
}

/// Overwrites `rows[i][j]` with `val`.
fn set_row_elem(rows: &mut Vec<Vec<i32>>, i: usize, j: usize, val: i32)
    requires
        i < old(rows)@.len(),
        j < old(rows)@[i as int]@.len(),
    ensures
        final(rows)@.len() == old(rows)@.len(),
        final(rows)@[i as int]@ == old(rows)@[i as int]@.update(j as int, val),
        forall|k: int|
            0 <= k < old(rows)@.len() && k != i ==> #[trigger] final(rows)@[k] == old(rows)@[k],
{
    let n = rows[i].len();
    let mut new_row: Vec<i32> = Vec::new();
    let mut k: usize = 0;
    while k < n
        invariant
            k <= n,
            i < rows@.len(),
            j < n,
            rows@ == old(rows)@,
            n == rows@[i as int]@.len(),
            new_row@.len() == k,
            forall|t: int|
                0 <= t < k ==> new_row@[t] == (if t == j {
                    val
                } else {
                    rows@[i as int]@[t]
                }),
        decreases n - k,
    {
        if k == j {
            new_row.push(val);
        } else {
            new_row.push(rows[i][k]);
        }
        k += 1;
    }
    rows[i] = new_row;
    proof {
        assert(rows@[i as int]@ =~= old(rows)@[i as int]@.update(j as int, val));
    }
}

impl View for Matrix {
    type V = Seq<Seq<i32>>;

    closed spec fn view(&self) -> Seq<Seq<i32>> {
        Seq::new(self.rows@.len(), |i: int| self.rows@[i]@)
    }
}

impl Matrix {
    /// A matrix value is well formed when it is square.
    pub open spec fn wf(&self) -> bool {
        is_square(self@)
    }

    /// The dimension: the number of rows (and of columns).
    pub fn get_dim(&self) -> (r: usize)
        ensures
            r == self@.len(),
    {
        self.rows.len()
    }

    /// The width of the dimension prefix on the wire.
    fn serialized_dim_size() -> (r: usize)
        ensures
            r == 4,
    {
        4
    }

    /// The width of one encoded element on the wire.
    fn serialized_elem_size() -> (r: usize)
        ensures
            r == 4,
    {
        4
    }

    /// The exact byte length of the wire form of a `matrix_dim` matrix:
    /// `4 + 4 * matrix_dim * matrix_dim`.
    pub fn serialized_size(matrix_dim: u32) -> (r: usize)
        requires
            spec_size(matrix_dim as int) <= usize::MAX,
        ensures
            r == spec_size(matrix_dim as int),
    {
        let d = matrix_dim as usize;
        proof {
            assert(4 * (matrix_dim as int) * (matrix_dim as int) == (matrix_dim as int) * (
            matrix_dim as int) * 4) by (nonlinear_arith);
        }
        Self::serialized_dim_size() + (d * d) * Self::serialized_elem_size()
    }

    /// Builds a matrix from explicit rows; `None` unless they form a square.
    pub fn from_rows(rows: Vec<Vec<i32>>) -> (r: Option<Matrix>)
        ensures
            match r {
                Some(m) => is_square(m@) && m@ == Seq::new(
                    rows@.len(),
                    |i: int| rows@[i]@,
                ),
                None => !is_square(Seq::new(rows@.len(), |i: int| rows@[i]@)),
            },
    {
        let dim = rows.len();
        let mut i: usize = 0;
        while i < dim
            invariant
                i <= dim,
                dim == rows@.len(),
                forall|k: int| 0 <= k < i ==> (#[trigger] rows@[k])@.len() == dim,
            decreases dim - i,
        {
            if rows[i].len() != dim {
                proof {
                    let s = Seq::new(rows@.len(), |k: int| rows@[k]@);
                    assert(s[i as int].len() != s.len());
                }
                return None;
            }
            i += 1;
        }
        Some(Matrix { rows })
    }

    /// Reads one element.
    pub fn get(&self, i: usize, j: usize) -> (r: i32)
        requires
            i < self@.len(),
            j < self@[i as int].len(),
        ensures
            r == self@[i as int][j as int],
    {
        self.rows[i][j]
    }

    /// Encodes the matrix: the dimension big-endian, then each element
    /// big-endian in row-major order.
    pub fn serialize(&self) -> (r: Vec<u8>)
        requires
            self.wf(),
            self@.len() <= u32::MAX,
            spec_size(self@.len() as int) <= usize::MAX,
        ensures
            r@ == spec_serialize(self@),
            r@.len() == spec_size(self@.len() as int),
    {
        let dim = self.rows.len();
        let mut out: Vec<u8> = Vec::new();
        push_be_u32(&mut out, dim as u32);
        proof {
            assert(self@.take(0) =~= Seq::<Seq<i32>>::empty());
            assert(out@ =~= u32_bytes(dim as u32) + enc_rows(self@.take(0)));
        }
        let mut i: usize = 0;
        while i < dim
            invariant
                i <= dim,
                dim == self@.len(),
                self.wf(),
                out@ == u32_bytes(dim as u32) + enc_rows(self@.take(i as int)),
            decreases dim - i,
        {
            let row_len = self.rows[i].len();
            proof {
                assert(self@[i as int] == self.rows@[i as int]@);
                assert(self@[i as int].len() == self@.len());
            }
            assert(row_len == dim);
            proof {
                assert(self@[i as int].take(0) =~= Seq::<i32>::empty());
                assert(out@ =~= u32_bytes(dim as u32) + enc_rows(self@.take(i as int)) + enc_elems(
                    self@[i as int].take(0),
                ));
            }
            let mut j: usize = 0;
            while j < row_len
                invariant
                    j <= row_len,
                    i < dim,
                    dim == self@.len(),
                    row_len == self@[i as int].len(),
                    self.wf(),
                    out@ == u32_bytes(dim as u32) + enc_rows(self@.take(i as int)) + enc_elems(
                        self@[i as int].take(j as int),
                    ),
                decreases row_len - j,
            {
                push_be_i32(&mut out, self.rows[i][j]);
                proof {
                    let r = self@[i as int];
                    assert(r.take(j + 1).drop_last() =~= r.take(j as int));
                    assert(r.take(j + 1).last() == r[j as int]);
                    assert(enc_elems(r.take(j + 1)) == enc_elems(r.take(j as int)) + i32_bytes(
                        r[j as int],
                    ));
                    assert(out@ =~= u32_bytes(dim as u32) + enc_rows(self@.take(i as int))
                        + enc_elems(r.take(j + 1)));
                }
                j += 1;
            }
            proof {
                let r = self@[i as int];
                assert(r.take(row_len as int) =~= r);
                assert(self@.take(i + 1).drop_last() =~= self@.take(i as int));
                assert(self@.take(i + 1).last() == r);
                assert(enc_rows(self@.take(i + 1)) == enc_rows(self@.take(i as int)) + enc_elems(
                    r,
                ));
                assert(out@ =~= u32_bytes(dim as u32) + enc_rows(self@.take(i + 1)));
            }
            i += 1;
        }
        proof {
            assert(self@.take(dim as int) =~= self@);
            lemma_enc_rows_len(self@, dim as int);
        }
        out
    }

    /// Decodes a wire-format matrix. Fails on fewer than 4 bytes, and on any
    /// byte length that is not exactly `serialized_size` of the declared
    /// dimension; length is checked before any element is read.
    pub fn deserialize(bytes: &[u8]) -> (r: Option<Matrix>)
        ensures
            match spec_deserialize(bytes@) {
                Some(rows) => r is Some && r.unwrap()@ == rows && r.unwrap().wf(),
                None => r is None,
            },
            r is Some <==> (bytes@.len() >= 4 && bytes@.len() == spec_size(
                be_u32(bytes@.subrange(0, 4)) as int,
            )),
    {
        let n = bytes.len();
        if n < 4 {
            return None;
        }
        let dim32 = read_be_u32(bytes, 0);
        proof {
            assert(bytes@.subrange(0int, 4int) == bytes@.subrange(0int, 0int + 4));
        }
        let du = dim32 as u128;
        proof {
            assert(4 + 4 * du * du < u128::MAX) by (nonlinear_arith)
                requires
                    du <= u32::MAX,
    ;
        }
        if (n as u128) != 4 + 4 * du * du {
            proof {
                assert(n as int != spec_size(dim32 as int));
            }
            return None;
        }
        let dim = dim32 as usize;
        proof {
            assert(n as int == spec_size(dim as int));
        }
        let ghost spec_rows = spec_deserialize(bytes@).unwrap();
        let mut rows: Vec<Vec<i32>> = Vec::new();
        let mut i: usize = 0;
        while i < dim
            invariant
                i <= dim,
                n == bytes@.len(),
                n as int == spec_size(dim as int),
                spec_deserialize(bytes@) == Some(spec_rows),
                spec_rows == Seq::new(
                    dim as nat,
                    |a: int|
                        Seq::new(
                            dim as nat,
                            |c: int|
                                u32_as_i32(
                                    be_u32(
                                        bytes@.subrange(
                                            4 + 4 * (a * dim + c),
                                            4 + 4 * (a * dim + c) + 4,
                                        ),
                                    ),
                                ),
                        ),
                ),
                rows@.len() == i,
                forall|k: int| 0 <= k < i ==> (#[trigger] rows@[k])@ == spec_rows[k],
            decreases dim - i,
        {
            let mut row: Vec<i32> = Vec::new();
            let mut j: usize = 0;
            while j < dim
                invariant
                    j <= dim,
                    i < dim,
                    n == bytes@.len(),
                    n as int == spec_size(dim as int),
                    spec_rows == Seq::new(
                        dim as nat,
                        |a: int|
                            Seq::new(
                                dim as nat,
                                |c: int|
                                    u32_as_i32(
                                        be_u32(
                                            bytes@.subrange(
                                                4 + 4 * (a * dim + c),
                                                4 + 4 * (a * dim + c) + 4,
                                            ),
                                        ),
                                    ),
                            ),
                    ),
                    row@.len() == j,
                    forall|k: int| 0 <= k < j ==> row@[k] == spec_rows[i as int][k],
                decreases dim - j,
            {
                proof {
                    assert(0 <= i * dim + j && 4 + 4 * (i * dim + j) + 4 <= spec_size(dim as int))
                        by (nonlinear_arith)
                        requires
                            0 <= i < dim,
                            0 <= j < dim,
    ;
                }
                let off: usize = 4 + 4 * (i * dim + j);
                let val = read_be_i32(bytes, off);
                row.push(val);
                proof {
                    assert(spec_rows[i as int][j as int] == u32_as_i32(
                        be_u32(
                            bytes@.subrange(
                                4 + 4 * (i as int * dim as int + j as int),
                                4 + 4 * (i as int * dim as int + j as int) + 4,
                            ),
                        ),
                    ));
                    assert(off as int == 4 + 4 * (i as int * dim as int + j as int));
                    assert(off as int + 4 == 4 + 4 * (i as int * dim as int + j as int) + 4);
                }
                j += 1;
            }
            rows.push(row);
            proof {
                assert(rows@[i as int]@ =~= spec_rows[i as int]);
            }
            i += 1;
        }
        let m = Matrix { rows };
        proof {
            assert(m@ =~= spec_rows);
            assert forall|k: int| 0 <= k < m@.len() implies (#[trigger] m@[k]).len()
                == m@.len() by {}
        }
        Some(m)
    }

    /// Splits the matrix into `parts` contiguous, non-overlapping row
    /// slices that together cover every row exactly once. Each of the first
    /// `parts - 1` slices gets `dim / parts` rows; the last also absorbs the
    /// remainder `dim % parts`. Slice `i` starts at absolute row
    /// `i * (dim / parts)`. The matrix itself is emptied: the slices own
    /// its rows until the computation hands them back.
    pub fn split(&mut self, parts: usize) -> (r: Vec<MatrixSlice>)
        requires
            old(self).wf(),
            1 <= parts <= old(self)@.len(),
        ensures
            r@.len() == parts,
            final(self)@.len() == 0,
            forall|k: int|
                0 <= k < parts ==> (#[trigger] r@[k]).spec_start() == k * (old(self)@.len() as int
                    / parts as int),
            forall|k: int|
                0 <= k < parts ==> (#[trigger] r@[k]).spec_rows() == old(self)@.subrange(
                    k * (old(self)@.len() as int / parts as int),
                    if k == parts - 1 {
                        old(self)@.len() as int
                    } else {
                        (k + 1) * (old(self)@.len() as int / parts as int)
                    },
                ),
            forall|k: int|
                0 <= k < parts ==> (#[trigger] r@[k]).wf() && r@[k].spec_width() == old(
                    self,
                )@.len(),
            slices_rows(r@) == old(self)@,
    {
        let ghost orig = self.rows@;
        let ghost orig_v = old(self)@;
        let dim = self.rows.len();
        let base = dim / parts;
        proof {
            vstd::arithmetic::div_mod::lemma_fundamental_div_mod(dim as int, parts as int);
            assert(1 <= base && parts * base <= dim) by (nonlinear_arith)
                requires
                    1 <= parts <= dim,
                    base == dim as int / parts as int,
                    dim == parts * base + dim % parts,
                    0 <= dim % parts,
    ;
        }
        proof {
            assert forall|t: int| 0 <= t < orig.len() implies (#[trigger] orig[t])@.len()
                == dim by {
                assert(orig_v[t] == orig[t]@);
                assert(orig_v[t].len() == orig_v.len());
            }
        }
        let mut remaining = self.rows.split_off(0);
        proof {
            assert(remaining@ =~= orig.subrange(0, dim as int));
        }
        let mut result: Vec<MatrixSlice> = Vec::new();
        let mut i: usize = 0;
        while i < parts
            invariant
                i <= parts,
                1 <= parts <= dim,
                dim == orig.len(),
                base == dim / parts,
                1 <= base,
                parts * base <= dim,
                orig_v == Seq::new(orig.len(), |t: int| orig[t]@),
                forall|t: int| 0 <= t < orig.len() ==> (#[trigger] orig[t])@.len() == dim,
                self.rows@.len() == 0,
                result@.len() == i,
                remaining@ == orig.subrange(
                    if i == parts {
                        dim as int
                    } else {
                        i * base
                    },
                    dim as int,
                ),
                forall|k: int|
                    0 <= k < i ==> (#[trigger] result@[k]).start_index as int == k * base,
                forall|k: int|
                    0 <= k < i ==> (#[trigger] result@[k]).rows@ == orig.subrange(
                        k * base,
                        if k == parts - 1 {
                            dim as int
                        } else {
                            (k + 1) * base
                        },
                    ),
            decreases parts - i,
        {
            proof {
                assert(0 <= i * base && i * base + base <= dim && (i + 1) * base == i * base + base
                    && (i + 1) * base <= dim && i * base == i as int * base as int)
                    by (nonlinear_arith)
                    requires
                        0 <= i < parts,
                        1 <= base,
                        parts * base <= dim,
    ;
            }
            let take_count = if i == parts - 1 {
                remaining.len()
            } else {
                base
            };
            let tail = remaining.split_off(take_count);
            let start = i * base;
            let ghost prev = result@;
            result.push(MatrixSlice { start_index: start, rows: remaining });
            remaining = tail;
            proof {
                assert(result@.drop_last() =~= prev);
                let hi = if i == parts - 1 {
                    dim as int
                } else {
                    (i + 1) * base
                };
                assert(result@[i as int].rows@ =~= orig.subrange(i * base, hi));
                if i == parts - 1 {
                    assert(remaining@ =~= orig.subrange(dim as int, dim as int));
                } else {
                    assert(remaining@ =~= orig.subrange((i + 1) * base, dim as int));
                }
            }
            i += 1;
        }
        proof {
            assert forall|k: int| 0 <= k < parts implies (#[trigger] result@[k]).spec_rows()
                == orig_v.subrange(
                k * base,
                if k == parts - 1 {
                    dim as int
                } else {
                    (k + 1) * base
                },
            ) by {
                let lo = k * base;
                let hi = if k == parts - 1 {
                    dim as int
                } else {
                    (k + 1) * base
                };
                assert(0 <= lo && lo <= hi && hi <= dim) by (nonlinear_arith)
                    requires
                        0 <= k < parts,
                        1 <= base,
                        parts * base <= dim,
                        lo == k * base,
                        hi == (if k == parts - 1 {
                            dim as int
                        } else {
                            (k + 1) * base
                        }),
    ;
                assert(result@[k].spec_rows() =~= orig_v.subrange(lo, hi));
            }
            assert forall|k: int| 0 <= k < parts implies (#[trigger] result@[k]).wf()
                && result@[k].spec_width() == dim by {
                let lo = k * base;
                let hi = if k == parts - 1 {
                    dim as int
                } else {
                    (k + 1) * base
                };
                assert(0 <= lo && lo + 1 <= hi && hi <= dim) by (nonlinear_arith)
                    requires
                        0 <= k < parts,
                        1 <= base,
                        parts * base <= dim,
                        lo == k * base,
                        hi == (if k == parts - 1 {
                            dim as int
                        } else {
                            (k + 1) * base
                        }),
    ;
                assert(result@[k].spec_rows().len() == hi - lo);
                assert(result@[k].spec_rows()[0] == orig_v[lo]);
                assert(result@[k].spec_width() == dim);
                assert forall|t: int|
                    0 <= t < result@[k].spec_rows().len() implies (#[trigger] result@[k].spec_rows(
                )[t]).len() == result@[k].spec_width() by {
                    assert(result@[k].spec_rows()[t] == orig_v[lo + t]);
                }
                assert(result@[k].spec_start() + result@[k].spec_rows().len() == hi);
            }
            lemma_slices_concat_prefix(
                result@,
                orig_v,
                base as int,
                dim as int,
                parts as int,
                parts as int,
            );
            assert(result@.take(parts as int) =~= result@);
        }
        result
    }

    /// The empty matrix, the state of a session before any payload arrives.
    pub fn empty() -> (r: Self)
        ensures
            r.wf(),
            r@.len() == 0,
    {
        Matrix { rows: Vec::new() }
    }

    /// Copies a finished slice's rows back into their absolute positions;
    /// rows outside the slice's range are untouched.
    pub fn install_slice(&mut self, slice: &MatrixSlice)
        requires
            old(self).wf(),
            slice.wf(),
            slice.spec_width() == old(self)@.len(),
            slice.spec_start() + slice.spec_rows().len() <= old(self)@.len(),
        ensures
            final(self).wf(),
            final(self)@.len() == old(self)@.len(),
            forall|k: int|
                0 <= k < old(self)@.len() ==> (#[trigger] final(self)@[k]) == (if slice.spec_start()
                    <= k < slice.spec_start() + slice.spec_rows().len() {
                    slice.spec_rows()[k - slice.spec_start()]
                } else {
                    old(self)@[k]
                }),
    {
        let n = slice.num_rows();
        let start = slice.start_index();
        let mut i: usize = 0;
        while i < n
            invariant
                i <= n,
                n == slice.spec_rows().len(),
                start == slice.spec_start(),
                slice.wf(),
                self.rows@.len() == old(self)@.len(),
                start + n <= old(self)@.len(),
                slice.spec_width() == old(self)@.len(),
                forall|k: int|
                    0 <= k < old(self)@.len() && !(start <= k < start + i)
                        ==> (#[trigger] self.rows@[k])@ == old(self)@[k],
                forall|k: int|
                    start <= k < start + i ==> (#[trigger] self.rows@[k])@ == slice.spec_rows()[k
                        - start],
            decreases n - i,
        {
            let row_len = slice.rows[i].len();
            proof {
                assert(slice.spec_rows()[i as int].len() == slice.spec_width());
            }
            let mut row: Vec<i32> = Vec::new();
            let mut j: usize = 0;
            while j < row_len
                invariant
                    j <= row_len,
                    i < n,
                    n == slice.spec_rows().len(),
                    row_len == slice.spec_rows()[i as int].len(),
                    row_len == slice.rows@[i as int]@.len(),
                    slice.rows@[i as int]@ == slice.spec_rows()[i as int],
                    row@.len() == j,
                    forall|t: int| 0 <= t < j ==> row@[t] == slice.spec_rows()[i as int][t],
                decreases row_len - j,
            {
                row.push(slice.rows[i][j]);
                j += 1;
            }
            proof {
                assert(row@ =~= slice.spec_rows()[i as int]);
            }
            self.rows[start + i] = row;
            i += 1;
        }
        proof {
            assert forall|k: int| 0 <= k < old(self)@.len() implies (#[trigger] self@[k]).len()
                == self@.len() by {
                assert(self@[k] == self.rows@[k]@);
                if start <= k < start + n {
                    assert(self@[k].len() == slice.spec_width());
                } else {
                    assert(self@[k] == old(self)@[k]);
                }
            }
        }
    }

    /// A random `n x n` matrix with every element in `0 .. 9`.
    pub fn random(n: usize) -> (r: Self)
        ensures
            r.wf(),
            r@.len() == n,
            forall|i: int, j: int|
                0 <= i < n && 0 <= j < n ==> 0 <= #[trigger] r@[i][j] < 9,
    {
        let mut rows: Vec<Vec<i32>> = Vec::new();
        let mut i: usize = 0;
        while i < n
            invariant
                i <= n,
                rows@.len() == i,
                forall|k: int| 0 <= k < i ==> (#[trigger] rows@[k])@.len() == n,
                forall|k: int, t: int|
                    0 <= k < i && 0 <= t < n ==> 0 <= #[trigger] rows@[k]@[t] < 9,
            decreases n - i,
        {
            let mut row: Vec<i32> = Vec::new();
            let mut j: usize = 0;
            while j < n
                invariant
                    j <= n,
                    row@.len() == j,
                    forall|t: int| 0 <= t < j ==> 0 <= #[trigger] row@[t] < 9,
                decreases n - j,
            {
                let val = (random_u32() % 9) as i32;
                row.push(val);
                j += 1;
            }
            rows.push(row);
            i += 1;
        }
        let r = Matrix { rows };
        proof {
            assert forall|i2: int, j2: int|
                0 <= i2 < n && 0 <= j2 < n implies 0 <= #[trigger] r@[i2][j2] < 9 by {
                assert(r@[i2] == rows@[i2]@);
            }
        }
        r
    }
}

} // verus!
