//! Dense matrices of any copyable element type, stored row by row, and the
//! structural operations on them: filling, diagonal construction, shifted
//! identities, transposition, Kronecker products and block assembly.
//!
//! The matrix type is this library's own rather than nalgebra's: nalgebra's
//! `Matrix<T, R, C, S>` is generic over its dimension and storage traits
//! (`Dim`, `Storage`, `Allocator`), and each of its constructors and
//! accessors is bounded by them. Verified code cannot be bounded by a trait of
//! an outside crate, so those methods cannot be given contracts here, and an
//! opaque declaration of the type would leave the block assembly nothing to
//! be verified against. Callers that compute with nalgebra convert at the
//! boundary, entry by entry.
use vstd::prelude::*;

verus! {

/// The `rows` x `cols` matrix whose entry `(i, j)` is `f(i, j)`.
pub open spec fn tabulate<T>(rows: nat, cols: nat, f: spec_fn(int, int) -> T) -> Seq<Seq<T>> {
    Seq::new(rows, |i: int| Seq::new(cols, |j: int| f(i, j)))
}

/// `m` has `rows` rows of `cols` entries each.
pub open spec fn has_shape<T>(m: Seq<Seq<T>>, rows: nat, cols: nat) -> bool {
    &&& m.len() == rows
    &&& forall|i: int| 0 <= i < rows ==> #[trigger] m[i].len() == cols
}

/// `a` and `b` side by side: row `i` is row `i` of `a` followed by row `i` of `b`.
pub open spec fn hstack_of<T>(a: Seq<Seq<T>>, b: Seq<Seq<T>>) -> Seq<Seq<T>> {
    Seq::new(a.len(), |i: int| a[i] + b[i])
}

/// `a` above `b`.
pub open spec fn vstack_of<T>(a: Seq<Seq<T>>, b: Seq<Seq<T>>) -> Seq<Seq<T>> {
    a + b
}

/// `a` (of `ca` columns) in the upper left corner and `b` (of `cb` columns)
/// in the lower right, with `zero` everywhere else.
pub open spec fn block_diag_of<T>(
    a: Seq<Seq<T>>,
    ca: nat,
    b: Seq<Seq<T>>,
    cb: nat,
    zero: T,
) -> Seq<Seq<T>> {
    Seq::new(
        a.len() + b.len(),
        |i: int|
            if i < a.len() {
                a[i] + Seq::new(cb, |j: int| zero)
            } else {
                Seq::new(ca, |j: int| zero) + b[i - a.len()]
            },
    )
}

/// `out` with `a` written over its upper left corner and `b` (placed below
/// `a`, to the right of its `ca` columns) over its lower right corner.
pub open spec fn overlay_diag_of<T>(out: Seq<Seq<T>>, a: Seq<Seq<T>>, ca: nat, b: Seq<Seq<T>>) -> Seq<Seq<T>> {
    Seq::new(
        out.len(),
        |i: int|
            if i < a.len() {
                a[i] + out[i].subrange(ca as int, out[i].len() as int)
            } else {
                out[i].subrange(0, ca as int) + b[i - a.len()]
            },
    )
}

/// The transpose of `a`, a matrix of `rows` rows and `cols` columns.
pub open spec fn transpose_of<T>(a: Seq<Seq<T>>, rows: nat, cols: nat) -> Seq<Seq<T>> {
    tabulate(cols, rows, |i: int, j: int| a[j][i])
}

/// A dense matrix, stored as a vector of rows of equal length.
#[derive(Debug, Clone)]
pub struct Mat<T> {
    rows: usize,
    cols: usize,
    data: Vec<Vec<T>>,
}

impl<T> View for Mat<T> {
    type V = Seq<Seq<T>>;

    /// The rows of the matrix, top first.
    closed spec fn view(&self) -> Seq<Seq<T>> {
        self.data@.map_values(|r: Vec<T>| r@)
    }
}

impl<T: Copy> Mat<T> {
    /// Number of rows.
    pub closed spec fn spec_rows(&self) -> nat {
        self.rows as nat
    }

    /// Number of columns (kept even when there are no rows).
    pub closed spec fn spec_cols(&self) -> nat {
        self.cols as nat
    }

    /// The stored rows all have the declared length.
    pub closed spec fn wf(&self) -> bool {
        &&& self.data@.len() == self.rows
        &&& forall|i: int| 0 <= i < self.rows ==> (#[trigger] self.data@[i])@.len() == self.cols
    }

    /// A well-formed matrix has `spec_rows()` rows of `spec_cols()` entries.
    pub proof fn lemma_shape(&self)
        requires
            self.wf(),
        ensures
            has_shape(self@, self.spec_rows(), self.spec_cols()),
    {
    }

    /// A row of `n` copies of `v`.
    fn row_of(n: usize, v: T) -> (r: Vec<T>)
        ensures
            r@ == Seq::new(n as nat, |j: int| v),
    {
        let mut row: Vec<T> = Vec::new();
        let mut j: usize = 0;
        while j < n
            invariant
                j <= n,
                row@ == Seq::new(j as nat, |k: int| v),
            decreases n - j,
        {
            row.push(v);
            j += 1;
            assert(row@ =~= Seq::new(j as nat, |k: int| v));
        }
        row
    }

    /// The `rows` x `cols` matrix with every entry equal to `v`.
    pub fn from_element(rows: usize, cols: usize, v: T) -> (r: Self)
        ensures
            r.wf(),
            r.spec_rows() == rows,
            r.spec_cols() == cols,
            r@ == tabulate(rows as nat, cols as nat, |i: int, j: int| v),
    {
        let mut data: Vec<Vec<T>> = Vec::new();
        let mut i: usize = 0;
        while i < rows
            invariant
                i <= rows,
                data@.len() == i,
                forall|k: int| 0 <= k < i ==> (#[trigger] data@[k])@ == Seq::new(cols as nat, |j: int| v),
            decreases rows - i,
        {
            let row = Self::row_of(cols, v);
            data.push(row);
            i += 1;
        }
        let r = Mat { rows, cols, data };
        assert(r@ =~~= tabulate(rows as nat, cols as nat, |i: int, j: int| v));
        r
    }

    /// The entries of `x` from position `lo` up to, not including, `hi`.
    fn segment(x: &Vec<T>, lo: usize, hi: usize) -> (r: Vec<T>)
        requires
            lo <= hi <= x@.len(),
        ensures
            r@ == x@.subrange(lo as int, hi as int),
    {
        let mut out: Vec<T> = Vec::new();
        let mut k: usize = lo;
        while k < hi
            invariant
                lo <= k <= hi <= x@.len(),
                out@ == x@.subrange(lo as int, k as int),
            decreases hi - k,
        {
            out.push(x[k]);
            k += 1;
            assert(out@ =~= x@.subrange(lo as int, k as int));
        }
        out
    }

    /// `x` followed by `y`.
    fn concat(x: &Vec<T>, y: &Vec<T>) -> (r: Vec<T>)
        ensures
            r@ == x@ + y@,
    {
        let mut out: Vec<T> = Vec::new();
        let mut k: usize = 0;
        while k < x.len()
            invariant
                k <= x@.len(),
                out@ == x@.subrange(0, k as int),
            decreases x@.len() - k,
        {
            out.push(x[k]);
            k += 1;
            assert(out@ =~= x@.subrange(0, k as int));
        }
        let mut k: usize = 0;
        while k < y.len()
            invariant
                k <= y@.len(),
                out@ == x@ + y@.subrange(0, k as int),
            decreases y@.len() - k,
        {
            out.push(y[k]);
            k += 1;
            assert(out@ =~= x@ + y@.subrange(0, k as int));
        }
        assert(y@.subrange(0, y@.len() as int) =~= y@);
        out
    }

    /// The matrix whose rows are `rows`, each of `cols` entries.
    pub fn from_rows(rows: Vec<Vec<T>>, cols: usize) -> (r: Self)
        requires
            forall|i: int| 0 <= i < rows@.len() ==> (#[trigger] rows@[i])@.len() == cols,
        ensures
            r.wf(),
            r.spec_rows() == rows@.len(),
            r.spec_cols() == cols,
            r@ == rows@.map_values(|v: Vec<T>| v@),
    {
        let n = rows.len();
        Mat { rows: n, cols, data: rows }
    }

    /// The entry in row `i` and column `j`.
    pub fn get(&self, i: usize, j: usize) -> (r: T)
        requires
            self.wf(),
            i < self.spec_rows(),
            j < self.spec_cols(),
        ensures
            r == self@[i as int][j as int],
    {
        self.data[i][j]
    }

    /// Replaces the entry in row `i` and column `j` by `v`.
    pub fn set(&mut self, i: usize, j: usize, v: T)
        requires
            old(self).wf(),
            i < old(self).spec_rows(),
            j < old(self).spec_cols(),
        ensures
            final(self).wf(),
            final(self).spec_rows() == old(self).spec_rows(),
            final(self).spec_cols() == old(self).spec_cols(),
            final(self)@ == old(self)@.update(i as int, old(self)@[i as int].update(j as int, v)),
    {
        let mut row = Self::segment(&self.data[i], 0, self.cols);
        row.set(j, v);
        self.data.set(i, row);
        assert(self@ =~~= old(self)@.update(i as int, old(self)@[i as int].update(j as int, v)));
    }

    /// The transpose: entry `(i, j)` of the result is entry `(j, i)` of `self`.
    pub fn transpose(&self) -> (r: Self)
        requires
            self.wf(),
        ensures
            r.wf(),
            r.spec_rows() == self.spec_cols(),
            r.spec_cols() == self.spec_rows(),
            r@ == transpose_of(self@, self.spec_rows(), self.spec_cols()),
    {
        let mut data: Vec<Vec<T>> = Vec::new();
        let mut j: usize = 0;
        while j < self.cols
            invariant
                self.wf(),
                j <= self.cols,
                data@.len() == j,
                forall|k: int| 0 <= k < j ==> (#[trigger] data@[k])@ == Seq::new(
                    self.rows as nat,
                    |i: int| self@[i][k],
                ),
            decreases self.cols - j,
        {
            let mut row: Vec<T> = Vec::new();
            let mut i: usize = 0;
            while i < self.rows
                invariant
                    self.wf(),
                    j < self.cols,
                    i <= self.rows,
                    row@ == Seq::new(i as nat, |k: int| self@[k][j as int]),
                decreases self.rows - i,
            {
                row.push(self.data[i][j]);
                i += 1;
                assert(row@ =~= Seq::new(i as nat, |k: int| self@[k][j as int]));
            }
            data.push(row);
            j += 1;
        }
        let r = Mat { rows: self.cols, cols: self.rows, data };
        assert(r@ =~~= transpose_of(self@, self.spec_rows(), self.spec_cols()));
        r
    }

    /// The square matrix with `d` on its diagonal and `zero` elsewhere.
    pub fn from_diagonal(d: &Vec<T>, zero: T) -> (r: Self)
        ensures
            r.wf(),
            r.spec_rows() == d@.len(),
            r.spec_cols() == d@.len(),
            r@ == tabulate(d@.len(), d@.len(), |i: int, j: int| if i == j { d@[i] } else { zero }),
    {
        let n = d.len();
        let mut data: Vec<Vec<T>> = Vec::new();
        let mut i: usize = 0;
        while i < n
            invariant
                n == d@.len(),
                i <= n,
                data@.len() == i,
                forall|k: int|
                    0 <= k < i ==> (#[trigger] data@[k])@ == Seq::new(
                        n as nat,
                        |j: int| if k == j { d@[k] } else { zero },
                    ),
            decreases n - i,
        {
            let mut row = Self::row_of(n, zero);
            row.set(i, d[i]);
            assert(row@ =~= Seq::new(n as nat, |j: int| if i as int == j { d@[i as int] } else { zero }));
            data.push(row);
            i += 1;
        }
        let r = Mat { rows: n, cols: n, data };
        assert(r@ =~~= tabulate(n as nat, n as nat, |i: int, j: int| if i == j { d@[i] } else { zero }));
        r
    }

    /// The `n` x `n` matrix with `one` on the diagonal shifted by `offset`
    /// (above the main diagonal for a positive offset, below it for a
    /// negative one) and `zero` elsewhere.
    pub fn eye(n: usize, offset: isize, zero: T, one: T) -> (r: Self)
        ensures
            r.wf(),
            r.spec_rows() == n,
            r.spec_cols() == n,
            r@ == tabulate(n as nat, n as nat, |i: int, j: int| if j - i == offset { one } else { zero }),
    {
        let mut data: Vec<Vec<T>> = Vec::new();
        let mut i: usize = 0;
        while i < n
            invariant
                i <= n,
                data@.len() == i,
                forall|k: int|
                    0 <= k < i ==> (#[trigger] data@[k])@ == Seq::new(
                        n as nat,
                        |j: int| if j - k == offset { one } else { zero },
                    ),
            decreases n - i,
        {
            let mut row: Vec<T> = Vec::new();
            let mut j: usize = 0;
            while j < n
                invariant
                    i < n,
                    j <= n,
                    row@ == Seq::new(j as nat, |c: int| if c - i == offset { one } else { zero }),
                decreases n - j,
            {
                if (j as i128) - (i as i128) == offset as i128 {
                    row.push(one);
                } else {
                    row.push(zero);
                }
                j += 1;
                assert(row@ =~= Seq::new(j as nat, |c: int| if c - i == offset { one } else { zero }));
            }
            data.push(row);
            i += 1;
        }
        let r = Mat { rows: n, cols: n, data };
        assert(r@ =~~= tabulate(n as nat, n as nat, |i: int, j: int| if j - i == offset { one } else { zero }));
        r
    }

    /// Number of rows.
    pub fn nrows(&self) -> (r: usize)
        ensures
            r == self.spec_rows(),
    {
        self.rows
    }

    /// Number of columns.
    pub fn ncols(&self) -> (r: usize)
        ensures
            r == self.spec_cols(),
    {
        self.cols
    }
}

/// Entry `j * w + l` of the flat row `s`: entry `l` of its `j`-th block of
/// width `w`.
pub open spec fn flat_at<T>(s: Seq<T>, w: nat, j: int, l: int) -> T {
    s[j * w + l]
}

/// Entry `(i * rb + k, j * cb + l)` of `r`: the entry of block `(i, j)` at
/// `(k, l)`, for blocks of `rb` rows and `cb` columns.
pub open spec fn kron_at<T>(r: Seq<Seq<T>>, rb: nat, cb: nat, i: int, k: int, j: int, l: int) -> T {
    r[i * rb + k][j * cb + l]
}

/// `row` holds, in block `j` at position `l`, the product of `arow[j]` and
/// `brow[l]`.
pub open spec fn kron_row_ok<T, F: Fn(T, T) -> T>(row: Seq<T>, arow: Seq<T>, brow: Seq<T>, times: F) -> bool {
    &&& row.len() == arow.len() * brow.len()
    &&& forall|j: int, l: int|
        0 <= j < arow.len() && 0 <= l < brow.len() ==> times.ensures(
            (arow[j], brow[l]),
            #[trigger] flat_at(row, brow.len(), j, l),
        )
}

proof fn lemma_block_index(j2: int, l2: int, j: int, l: int, w: int)
    requires
        0 <= j2,
        0 <= l2 < w,
        0 <= l,
        j2 < j || (j2 == j && l2 < l),
    ensures
        j2 * w + l2 < j * w + l,
{
    if j2 < j {
        assert(j2 * w + w <= j * w) by (nonlinear_arith)
            requires
                j2 < j,
                0 <= w,
        ;
    }
}

proof fn lemma_block_end(j: int, w: int)
    ensures
        (j + 1) * w == j * w + w,
{
    assert((j + 1) * w == j * w + w) by (nonlinear_arith);
}

/// One row of a Kronecker product: block `j` is `brow` scaled by `arow[j]`.
fn kron_row<T: Copy, F: Fn(T, T) -> T>(arow: &Vec<T>, brow: &Vec<T>, times: &F) -> (r: Vec<T>)
    requires
        arow@.len() * brow@.len() <= usize::MAX,
        forall|x: T, y: T| times.requires((x, y)),
    ensures
        kron_row_ok(r@, arow@, brow@, *times),
{
    let ca = arow.len();
    let cb = brow.len();
    let mut row: Vec<T> = Vec::new();
    let mut j: usize = 0;
    while j < ca
        invariant
            ca == arow@.len(),
            cb == brow@.len(),
            ca * cb <= usize::MAX,
            forall|x: T, y: T| times.requires((x, y)),
            j <= ca,
            row@.len() == j * cb,
            forall|j2: int, l2: int|
                0 <= j2 < j && 0 <= l2 < cb ==> times.ensures(
                    (arow@[j2], brow@[l2]),
                    #[trigger] flat_at(row@, cb as nat, j2, l2),
                ),
        decreases ca - j,
    {
        let mut l: usize = 0;
        while l < cb
            invariant
                ca == arow@.len(),
                cb == brow@.len(),
                ca * cb <= usize::MAX,
                forall|x: T, y: T| times.requires((x, y)),
                j < ca,
                l <= cb,
                row@.len() == j * cb + l,
                forall|j2: int, l2: int|
                    ((0 <= j2 < j && 0 <= l2 < cb) || (j2 == j && 0 <= l2 < l)) ==> times.ensures(
                        (arow@[j2], brow@[l2]),
                        #[trigger] flat_at(row@, cb as nat, j2, l2),
                    ),
            decreases cb - l,
        {
            let x = times(arow[j], brow[l]);
            let ghost before = row@;
            row.push(x);
            proof {
                assert forall|j2: int, l2: int|
                    ((0 <= j2 < j && 0 <= l2 < cb) || (j2 == j && 0 <= l2 < l + 1)) implies times.ensures(
                    (arow@[j2], brow@[l2]),
                    #[trigger] flat_at(row@, cb as nat, j2, l2),
                ) by {
                    if j2 == j && l2 == l {
                    } else {
                        lemma_block_index(j2, l2, j as int, l as int, cb as int);
                        assert(flat_at(row@, cb as nat, j2, l2) == flat_at(before, cb as nat, j2, l2));
                    }
                }
            }
            l += 1;
        }
        proof {
            lemma_block_end(j as int, cb as int);
        }
        j += 1;
    }
    proof {
        lemma_block_end((ca - 1) as int, cb as int);
    }
    row
}

/// The Kronecker product of `a` and `b`: block `(i, j)` is `b` scaled by
/// `a[i][j]`, the products being taken by `times`.
pub fn kron<T: Copy, F: Fn(T, T) -> T>(a: &Mat<T>, b: &Mat<T>, times: F) -> (r: Mat<T>)
    requires
        a.wf(),
        b.wf(),
        a.spec_rows() * b.spec_rows() <= usize::MAX,
        a.spec_cols() * b.spec_cols() <= usize::MAX,
        forall|x: T, y: T| times.requires((x, y)),
    ensures
        r.wf(),
        r.spec_rows() == a.spec_rows() * b.spec_rows(),
        r.spec_cols() == a.spec_cols() * b.spec_cols(),
        forall|i: int, k: int, j: int, l: int|
            0 <= i < a.spec_rows() && 0 <= k < b.spec_rows() && 0 <= j < a.spec_cols() && 0 <= l
                < b.spec_cols() ==> times.ensures(
                (a@[i][j], b@[k][l]),
                #[trigger] kron_at(r@, b.spec_rows(), b.spec_cols(), i, k, j, l),
            ),
{
    let ra = a.rows;
    let rb = b.rows;
    let mut data: Vec<Vec<T>> = Vec::new();
    let mut i: usize = 0;
    while i < ra
        invariant
            a.wf(),
            b.wf(),
            ra == a.rows,
            rb == b.rows,
            ra * rb <= usize::MAX,
            a.cols * b.cols <= usize::MAX,
            forall|x: T, y: T| times.requires((x, y)),
            i <= ra,
            data@.len() == i * rb,
            forall|i2: int, k2: int|
                0 <= i2 < ra && 0 <= k2 < rb && i2 * rb + k2 < data@.len() ==> kron_row_ok(
                    (#[trigger] data@[i2 * rb + k2])@,
                    a@[i2],
                    b@[k2],
                    times,
                ),
        decreases ra - i,
    {
        let mut k: usize = 0;
        while k < rb
            invariant
                a.wf(),
                b.wf(),
                ra == a.rows,
                rb == b.rows,
                ra * rb <= usize::MAX,
                a.cols * b.cols <= usize::MAX,
                forall|x: T, y: T| times.requires((x, y)),
                i < ra,
                k <= rb,
                data@.len() == i * rb + k,
                forall|i2: int, k2: int|
                    0 <= i2 < ra && 0 <= k2 < rb && i2 * rb + k2 < data@.len() ==> kron_row_ok(
                        (#[trigger] data@[i2 * rb + k2])@,
                        a@[i2],
                        b@[k2],
                        times,
                    ),
            decreases rb - k,
        {
            proof {
                a.lemma_shape();
                b.lemma_shape();
            }
            let row = kron_row(&a.data[i], &b.data[k], &times);
            let ghost before = data@;
            data.push(row);
            proof {
                assert forall|i2: int, k2: int|
                    0 <= i2 < ra && 0 <= k2 < rb && i2 * rb + k2 < data@.len() implies kron_row_ok(
                    (#[trigger] data@[i2 * rb + k2])@,
                    a@[i2],
                    b@[k2],
                    times,
                ) by {
                    if i2 * rb + k2 == i * rb + k {
                        lemma_same_block(i2, k2, i as int, k as int, rb as int);
                    }
                }
            }
            k += 1;
        }
        proof {
            lemma_block_end(i as int, rb as int);
        }
        i += 1;
    }
    let r = Mat { rows: ra * rb, cols: a.cols * b.cols, data };
    proof {
        a.lemma_shape();
        b.lemma_shape();
        assert forall|q: int| 0 <= q < r.rows implies (#[trigger] r.data@[q])@.len() == r.cols by {
            let i2 = q / rb as int;
            let k2 = q % rb as int;
            lemma_split_index(q, rb as int, ra as int);
            assert(kron_row_ok(r.data@[i2 * rb + k2]@, a@[i2], b@[k2], times));
        }
        assert forall|i2: int, k2: int, j: int, l: int|
            0 <= i2 < a.spec_rows() && 0 <= k2 < b.spec_rows() && 0 <= j < a.spec_cols() && 0 <= l
                < b.spec_cols() implies times.ensures(
            (a@[i2][j], b@[k2][l]),
            #[trigger] kron_at(r@, b.spec_rows(), b.spec_cols(), i2, k2, j, l),
        ) by {
            lemma_block_index(i2, k2, ra as int, 0, rb as int);
            assert(kron_row_ok(r.data@[i2 * rb + k2]@, a@[i2], b@[k2], times));
            assert(flat_at(r.data@[i2 * rb + k2]@, b.cols as nat, j, l) == kron_at(
                r@,
                b.spec_rows(),
                b.spec_cols(),
                i2,
                k2,
                j,
                l,
            ));
        }
    }
    r
}

proof fn lemma_same_block(i2: int, k2: int, i: int, k: int, w: int)
    requires
        0 <= i2,
        0 <= i,
        0 <= k2 < w,
        0 <= k < w,
        i2 * w + k2 == i * w + k,
    ensures
        i2 == i,
        k2 == k,
{
    if i2 < i {
        lemma_block_index(i2, k2, i, k, w);
    } else if i < i2 {
        lemma_block_index(i, k, i2, k2, w);
    }
}

proof fn lemma_split_index(q: int, w: int, n: int)
    requires
        0 <= q < n * w,
        0 < w,
    ensures
        0 <= q / w < n,
        0 <= q % w < w,
        q == (q / w) * w + q % w,
{
    assert(q == (q / w) * w + q % w) by (nonlinear_arith)
        requires
            0 < w,
    ;
    assert(0 <= q % w < w) by (nonlinear_arith)
        requires
            0 < w,
    ;
    assert(0 <= q / w < n) by (nonlinear_arith)
        requires
            0 <= q < n * w,
            0 < w,
    ;
}

/// `a` and `b` side by side.
pub fn hstack<T: Copy>(a: &Mat<T>, b: &Mat<T>) -> (r: Mat<T>)
    requires
        a.wf(),
        b.wf(),
        a.spec_rows() == b.spec_rows(),
        a.spec_cols() + b.spec_cols() <= usize::MAX,
    ensures
        r.wf(),
        r.spec_rows() == a.spec_rows(),
        r.spec_cols() == a.spec_cols() + b.spec_cols(),
        r@ == hstack_of(a@, b@),
{
    let mut data: Vec<Vec<T>> = Vec::new();
    let mut i: usize = 0;
    while i < a.rows
        invariant
            a.wf(),
            b.wf(),
            a.rows == b.rows,
            i <= a.rows,
            data@.len() == i,
            forall|k: int| 0 <= k < i ==> (#[trigger] data@[k])@ == a@[k] + b@[k],
        decreases a.rows - i,
    {
        let row = Mat::concat(&a.data[i], &b.data[i]);
        data.push(row);
        i += 1;
    }
    let r = Mat { rows: a.rows, cols: a.cols + b.cols, data };
    assert(r@ =~~= hstack_of(a@, b@));
    r
}

/// `a` above `b`.
pub fn vstack<T: Copy>(a: &Mat<T>, b: &Mat<T>) -> (r: Mat<T>)
    requires
        a.wf(),
        b.wf(),
        a.spec_cols() == b.spec_cols(),
        a.spec_rows() + b.spec_rows() <= usize::MAX,
    ensures
        r.wf(),
        r.spec_rows() == a.spec_rows() + b.spec_rows(),
        r.spec_cols() == a.spec_cols(),
        r@ == vstack_of(a@, b@),
{
    let mut data: Vec<Vec<T>> = Vec::new();
    let mut i: usize = 0;
    while i < a.rows + b.rows
        invariant
            a.wf(),
            b.wf(),
            a.cols == b.cols,
            a.rows + b.rows <= usize::MAX,
            i <= a.rows + b.rows,
            data@.len() == i,
            forall|k: int| 0 <= k < i ==> (#[trigger] data@[k])@ == vstack_of(a@, b@)[k],
        decreases a.rows + b.rows - i,
    {
        let row = if i < a.rows {
            Mat::segment(&a.data[i], 0, a.cols)
        } else {
            Mat::segment(&b.data[i - a.rows], 0, b.cols)
        };
        data.push(row);
        i += 1;
    }
    let r = Mat { rows: a.rows + b.rows, cols: a.cols, data };
    assert(r@ =~~= vstack_of(a@, b@));
    r
}

/// `a` in the upper left corner, `b` in the lower right, `zero` elsewhere.
pub fn block_diag<T: Copy>(a: &Mat<T>, b: &Mat<T>, zero: T) -> (r: Mat<T>)
    requires
        a.wf(),
        b.wf(),
        a.spec_rows() + b.spec_rows() <= usize::MAX,
        a.spec_cols() + b.spec_cols() <= usize::MAX,
    ensures
        r.wf(),
        r.spec_rows() == a.spec_rows() + b.spec_rows(),
        r.spec_cols() == a.spec_cols() + b.spec_cols(),
        r@ == block_diag_of(a@, a.spec_cols(), b@, b.spec_cols(), zero),
{
    let ghost want = block_diag_of(a@, a.spec_cols(), b@, b.spec_cols(), zero);
    let right = Mat::row_of(b.cols, zero);
    let left = Mat::row_of(a.cols, zero);
    let mut data: Vec<Vec<T>> = Vec::new();
    let mut i: usize = 0;
    while i < a.rows + b.rows
        invariant
            a.wf(),
            b.wf(),
            a.rows + b.rows <= usize::MAX,
            want == block_diag_of(a@, a.spec_cols(), b@, b.spec_cols(), zero),
            right@ == Seq::new(b.cols as nat, |j: int| zero),
            left@ == Seq::new(a.cols as nat, |j: int| zero),
            i <= a.rows + b.rows,
            data@.len() == i,
            forall|k: int| 0 <= k < i ==> (#[trigger] data@[k])@ == want[k],
        decreases a.rows + b.rows - i,
    {
        let row = if i < a.rows {
            Mat::concat(&a.data[i], &right)
        } else {
            Mat::concat(&left, &b.data[i - a.rows])
        };
        data.push(row);
        i += 1;
    }
    let r = Mat { rows: a.rows + b.rows, cols: a.cols + b.cols, data };
    assert forall|k: int| 0 <= k < r.rows implies (#[trigger] r.data@[k])@.len() == r.cols by {
        a.lemma_shape();
        b.lemma_shape();
    }
    assert(r@ =~~= want);
    r
}

/// A matrix of the given shape filled with `zero`, for a block expression to
/// be written into.
pub fn allocate_block_output<T: Copy>(shape: (usize, usize), zero: T) -> (r: Mat<T>)
    ensures
        r.wf(),
        r.spec_rows() == shape.0,
        r.spec_cols() == shape.1,
        r@ == tabulate(shape.0 as nat, shape.1 as nat, |i: int, j: int| zero),
{
    Mat::from_element(shape.0, shape.1, zero)
}

/// Blocks laid out side by side.
pub struct Horizontal<X>(pub X);

/// Blocks laid out one above the other.
pub struct Vertical<X>(pub X);

/// Blocks laid out along the diagonal.
pub struct Diagonal<X>(pub X);

impl<T: Copy> Horizontal<(Mat<T>, Mat<T>)> {
    /// Rows and columns of the assembled matrix.
    pub fn shape(&self) -> (r: (usize, usize))
        requires
            self.0.0.spec_cols() + self.0.1.spec_cols() <= usize::MAX,
        ensures
            r == (self.0.0.spec_rows() as usize, (self.0.0.spec_cols() + self.0.1.spec_cols()) as usize),
    {
        (self.0.0.nrows(), self.0.0.ncols() + self.0.1.ncols())
    }

    /// Writes the assembled matrix into `output`, which has its shape.
    pub fn populate(&self, output: &mut Mat<T>)
        requires
            self.0.0.wf(),
            self.0.1.wf(),
            self.0.0.spec_rows() == self.0.1.spec_rows(),
            self.0.0.spec_cols() + self.0.1.spec_cols() <= usize::MAX,
            old(output).spec_rows() == self.0.0.spec_rows(),
            old(output).spec_cols() == self.0.0.spec_cols() + self.0.1.spec_cols(),
        ensures
            final(output).wf(),
            final(output).spec_rows() == old(output).spec_rows(),
            final(output).spec_cols() == old(output).spec_cols(),
            final(output)@ == hstack_of(self.0.0@, self.0.1@),
    {
        *output = hstack(&self.0.0, &self.0.1);
    }
}

impl<T: Copy> Vertical<(Mat<T>, Mat<T>)> {
    /// Rows and columns of the assembled matrix.
    pub fn shape(&self) -> (r: (usize, usize))
        requires
            self.0.0.spec_rows() + self.0.1.spec_rows() <= usize::MAX,
        ensures
            r == ((self.0.0.spec_rows() + self.0.1.spec_rows()) as usize, self.0.0.spec_cols() as usize),
    {
        (self.0.0.nrows() + self.0.1.nrows(), self.0.0.ncols())
    }

    /// Writes the assembled matrix into `output`, which has its shape.
    pub fn populate(&self, output: &mut Mat<T>)
        requires
            self.0.0.wf(),
            self.0.1.wf(),
            self.0.0.spec_cols() == self.0.1.spec_cols(),
            self.0.0.spec_rows() + self.0.1.spec_rows() <= usize::MAX,
            old(output).spec_rows() == self.0.0.spec_rows() + self.0.1.spec_rows(),
            old(output).spec_cols() == self.0.0.spec_cols(),
        ensures
            final(output).wf(),
            final(output).spec_rows() == old(output).spec_rows(),
            final(output).spec_cols() == old(output).spec_cols(),
            final(output)@ == vstack_of(self.0.0@, self.0.1@),
    {
        *output = vstack(&self.0.0, &self.0.1);
    }
}

impl<T: Copy> Diagonal<(Mat<T>, Mat<T>)> {
    /// Rows and columns of the assembled matrix.
    pub fn shape(&self) -> (r: (usize, usize))
        requires
            self.0.0.spec_rows() + self.0.1.spec_rows() <= usize::MAX,
            self.0.0.spec_cols() + self.0.1.spec_cols() <= usize::MAX,
        ensures
            r == (
                (self.0.0.spec_rows() + self.0.1.spec_rows()) as usize,
                (self.0.0.spec_cols() + self.0.1.spec_cols()) as usize,
            ),
    {
        (self.0.0.nrows() + self.0.1.nrows(), self.0.0.ncols() + self.0.1.ncols())
    }

    /// Writes `self.0.0` into the upper left corner of `output` and
    /// `self.0.1` into its lower right corner; the other entries of `output`
    /// are left as they were.
    pub fn populate(&self, output: &mut Mat<T>)
        requires
            self.0.0.wf(),
            self.0.1.wf(),
            old(output).wf(),
            self.0.0.spec_rows() + self.0.1.spec_rows() <= usize::MAX,
            self.0.0.spec_cols() + self.0.1.spec_cols() <= usize::MAX,
            old(output).spec_rows() == self.0.0.spec_rows() + self.0.1.spec_rows(),
            old(output).spec_cols() == self.0.0.spec_cols() + self.0.1.spec_cols(),
        ensures
            final(output).wf(),
            final(output).spec_rows() == old(output).spec_rows(),
            final(output).spec_cols() == old(output).spec_cols(),
            final(output)@ == overlay_diag_of(old(output)@, self.0.0@, self.0.0.spec_cols(), self.0.1@),
    {
        let a = &self.0.0;
        let b = &self.0.1;
        let ghost want = overlay_diag_of(output@, a@, a.spec_cols(), b@);
        let mut data: Vec<Vec<T>> = Vec::new();
        let mut i: usize = 0;
        while i < output.rows
            invariant
                a.wf(),
                b.wf(),
                output.wf(),
                output.rows == a.rows + b.rows,
                output.cols == a.cols + b.cols,
                want == overlay_diag_of(output@, a@, a.spec_cols(), b@),
                i <= output.rows,
                data@.len() == i,
                forall|k: int| 0 <= k < i ==> (#[trigger] data@[k])@ == want[k],
            decreases output.rows - i,
        {
            let old_row = &output.data[i];
            let row = if i < a.rows {
                let rest = Mat::segment(old_row, a.cols, output.cols);
                Mat::concat(&a.data[i], &rest)
            } else {
                let head = Mat::segment(old_row, 0, a.cols);
                Mat::concat(&head, &b.data[i - a.rows])
            };
            data.push(row);
            i += 1;
        }
        proof {
            a.lemma_shape();
            b.lemma_shape();
        }
        output.data = data;
        assert(output@ =~~= want);
    }
}

} // verus!
