use vstd::prelude::*;

use crate::error::LinalgError;

verus! {

/// The rows of a matrix, each as the sequence of its entries.
pub open spec fn rows<T>(m: &Vec<Vec<T>>) -> Seq<Seq<T>> {
    m@.map_values(|row: Vec<T>| row@)
}

/// Every row is exactly as long as the matrix has rows.
pub open spec fn square<T>(m: Seq<Seq<T>>) -> bool {
    forall|i: int| 0 <= i < m.len() ==> #[trigger] m[i].len() == m.len()
}

/// Same number of rows, and each pair of corresponding rows of equal length.
pub open spec fn same_shape<T>(a: Seq<Seq<T>>, b: Seq<Seq<T>>) -> bool {
    &&& a.len() == b.len()
    &&& forall|i: int| 0 <= i < a.len() ==> #[trigger] a[i].len() == b[i].len()
}

/// The matrix left after deleting row `row` and column `col`.
pub open spec fn minor<T>(m: Seq<Seq<T>>, row: int, col: int) -> Seq<Seq<T>> {
    m.remove(row).map_values(|r: Seq<T>| r.remove(col))
}

/// Whether the row count equals the length of every row.
pub fn is_square<T>(m: &Vec<Vec<T>>) -> (r: bool)
    ensures
        r == square(rows(m)),
{
    let n = m.len();
    let mut i: usize = 0;
    while i < n
        invariant
            n == m@.len(),
            i <= n,
            forall|k: int| 0 <= k < i ==> #[trigger] rows(m)[k].len() == n,
        decreases n - i,
    {
        if m[i].len() != n {
            assert(rows(m)[i as int].len() != n);
            return false;
        }
        i = i + 1;
    }
    true
}

/// Whether `a` and `b` have as many rows, pairwise of equal length.
pub fn same_size<T>(a: &Vec<Vec<T>>, b: &Vec<Vec<T>>) -> (r: bool)
    ensures
        r == same_shape(rows(a), rows(b)),
{
    let n = a.len();
    if b.len() != n {
        return false;
    }
    let mut i: usize = 0;
    while i < n
        invariant
            n == a@.len(),
            n == b@.len(),
            i <= n,
            forall|k: int| 0 <= k < i ==> #[trigger] rows(a)[k].len() == rows(b)[k].len(),
        decreases n - i,
    {
        if a[i].len() != b[i].len() {
            assert(rows(a)[i as int].len() != rows(b)[i as int].len());
            return false;
        }
        i = i + 1;
    }
    true
}

/// Row of the parent matrix that becomes row `k` of the minor without `row`.
pub open spec fn source_index(k: int, skipped: int) -> int {
    if k < skipped {
        k
    } else {
        k + 1
    }
}

/// Copies row `src` without its entry at `col`.
fn row_without<T: Copy>(src: &Vec<T>, col: usize) -> (r: Vec<T>)
    requires
        col < src@.len(),
    ensures
        r@ == src@.remove(col as int),
{
    let n = src.len();
    let mut out: Vec<T> = Vec::new();
    let mut c: usize = 0;
    while c < n
        invariant
            n == src@.len(),
            col < n,
            c <= n,
            c <= col ==> out@ == src@.subrange(0, c as int),
            c > col ==> out@ == src@.subrange(0, col as int) + src@.subrange(col + 1, c as int),
        decreases n - c,
    {
        if c != col {
            out.push(src[c]);
        }
        proof {
            if c < col {
                assert(src@.subrange(0, c + 1) =~= src@.subrange(0, c as int).push(src@[c as int]));
            } else if c == col {
                assert(src@.subrange(col + 1, c + 1) =~= Seq::<T>::empty());
                assert(src@.subrange(0, col as int) + src@.subrange(col + 1, c + 1) =~= src@.subrange(0, c as int));
            } else {
                assert(src@.subrange(col + 1, c + 1) =~= src@.subrange(col + 1, c as int).push(src@[c as int]));
                assert(src@.subrange(0, col as int) + src@.subrange(col + 1, c + 1) =~= (src@.subrange(0, col as int) + src@.subrange(col + 1, c as int)).push(src@[c as int]));
            }
        }
        c = c + 1;
    }
    out
}

/// The submatrix of a square matrix with one row and one column deleted.
///
/// A matrix that is not square is refused with `NotSquare`; an index past the
/// last row or column with `IndexOutOfRange`.
pub fn extract_minor<T: Copy>(m: &Vec<Vec<T>>, row: usize, col: usize) -> (r: Result<Vec<Vec<T>>, LinalgError>)
    ensures
        !square(rows(m)) ==> r == Err::<Vec<Vec<T>>, LinalgError>(LinalgError::NotSquare),
        square(rows(m)) && (row >= m@.len() || col >= m@.len()) ==> r == Err::<Vec<Vec<T>>, LinalgError>(LinalgError::IndexOutOfRange),
        square(rows(m)) && row < m@.len() && col < m@.len() ==> (r matches Ok(x) && rows(&x) == minor(rows(m), row as int, col as int)
            && square(rows(&x)) && x@.len() == m@.len() - 1),
{
    if !is_square(m) {
        return Err(LinalgError::NotSquare);
    }
    let n = m.len();
    if row >= n || col >= n {
        return Err(LinalgError::IndexOutOfRange);
    }
    let mut result: Vec<Vec<T>> = Vec::new();
    let mut i: usize = 0;
    while i < n
        invariant
            n == m@.len(),
            square(rows(m)),
            row < n,
            col < n,
            i <= n,
            result@.len() == if i <= row { i as int } else { i - 1 },
            forall|k: int| 0 <= k < result@.len() ==>
                #[trigger] rows(&result)[k] == rows(m)[source_index(k, row as int)].remove(col as int),
        decreases n - i,
    {
        if i != row {
            assert(rows(m)[i as int].len() == n);
            let new_row = row_without(&m[i], col);
            let ghost before = rows(&result);
            result.push(new_row);
            assert(rows(&result) =~= before.push(rows(m)[i as int].remove(col as int)));
        }
        i = i + 1;
    }
    proof {
        let want = minor(rows(m), row as int, col as int);
        assert forall|k: int| 0 <= k < result@.len() implies #[trigger] rows(&result)[k] == want[k] by {
            assert(rows(m).remove(row as int)[k] == rows(m)[source_index(k, row as int)]);
        }
        assert(rows(&result) =~= want);
        assert forall|k: int| 0 <= k < result@.len() implies #[trigger] rows(&result)[k].len() == n - 1 by {
            assert(rows(m)[source_index(k, row as int)].len() == n);
        }
    }
    Ok(result)
}

/// Length of the longest row (zero for a matrix without rows).
pub open spec fn width<T>(m: Seq<Seq<T>>) -> nat
    decreases m.len(),
{
    if m.len() == 0 {
        0
    } else {
        let w = width(m.drop_last());
        if m.last().len() > w {
            m.last().len()
        } else {
            w
        }
    }
}

/// The entries at column `c`, read top to bottom, of those rows that reach it.
pub open spec fn column<T>(m: Seq<Seq<T>>, c: int) -> Seq<T> {
    m.filter(|r: Seq<T>| c < r.len()).map_values(|r: Seq<T>| r[c])
}

/// The transpose: one row per column of the input, up to the longest row.
/// On a rectangular matrix entry `(i, j)` of the result is entry `(j, i)` of `m`;
/// on a ragged one, rows too short for a column are passed over in it.
pub open spec fn transposed<T>(m: Seq<Seq<T>>) -> Seq<Seq<T>> {
    Seq::new(width(m), |c: int| column(m, c))
}

proof fn lemma_column_step<T>(m: Seq<Seq<T>>, i: int, c: int)
    requires
        0 <= i < m.len(),
    ensures
        column(m.take(i + 1), c) == if c < m[i].len() {
            column(m.take(i), c).push(m[i][c])
        } else {
            column(m.take(i), c)
        },
{
    reveal(Seq::filter);
    let pred = |r: Seq<T>| c < r.len();
    let get = |r: Seq<T>| r[c];
    assert(m.take(i + 1).drop_last() =~= m.take(i));
    assert(m.take(i + 1).last() == m[i]);
    let sub = m.take(i).filter(pred);
    if c < m[i].len() {
        assert(m.take(i + 1).filter(pred) == sub.push(m[i]));
        assert(sub.push(m[i]).map_values(get) =~= sub.map_values(get).push(m[i][c]));
    } else {
        assert(m.take(i + 1).filter(pred) == sub);
    }
}

/// Column `c` of `m`, skipping the rows that are too short to reach it.
fn column_of<T: Copy>(m: &Vec<Vec<T>>, c: usize) -> (r: Vec<T>)
    ensures
        r@ == column(rows(m), c as int),
{
    let n = m.len();
    let mut out: Vec<T> = Vec::new();
    let mut i: usize = 0;
    proof {
        reveal(Seq::filter);
        assert(rows(m).take(0) =~= Seq::<Seq<T>>::empty());
        assert(out@ =~= column(rows(m).take(0), c as int));
    }
    while i < n
        invariant
            n == m@.len(),
            i <= n,
            out@ == column(rows(m).take(i as int), c as int),
        decreases n - i,
    {
        proof {
            lemma_column_step(rows(m), i as int, c as int);
        }
        if c < m[i].len() {
            out.push(m[i][c]);
        }
        i = i + 1;
    }
    assert(rows(m).take(n as int) =~= rows(m));
    out
}

/// Transposes `m`. Row `c` of the result holds, in order, the entry at column
/// `c` of each row of `m` long enough to have one; there are as many rows as
/// the longest row of `m` has entries.
pub fn transpose<T: Copy>(m: &Vec<Vec<T>>) -> (r: Vec<Vec<T>>)
    ensures
        rows(&r) == transposed(rows(m)),
{
    let n = m.len();
    let mut w: usize = 0;
    let mut i: usize = 0;
    assert(rows(m).take(0) =~= Seq::<Seq<T>>::empty());
    while i < n
        invariant
            n == m@.len(),
            i <= n,
            w == width(rows(m).take(i as int)),
        decreases n - i,
    {
        assert(rows(m).take(i + 1).drop_last() =~= rows(m).take(i as int));
        if m[i].len() > w {
            w = m[i].len();
        }
        i = i + 1;
    }
    assert(rows(m).take(n as int) =~= rows(m));
    let mut result: Vec<Vec<T>> = Vec::new();
    let mut c: usize = 0;
    while c < w
        invariant
            w == width(rows(m)),
            c <= w,
            rows(&result) =~= Seq::new(c as nat, |j: int| column(rows(m), j)),
        decreases w - c,
    {
        let col = column_of(m, c);
        let ghost before = rows(&result);
        result.push(col);
        assert(rows(&result) =~= before.push(column(rows(m), c as int)));
        c = c + 1;
    }
    result
}

/// The `n`-by-`n` identity: ones on the diagonal, zeros elsewhere.
pub open spec fn identity_matrix(n: nat) -> Seq<Seq<i16>> {
    Seq::new(n, |r: int| Seq::new(n, |c: int| if r == c { 1i16 } else { 0i16 }))
}

/// Builds the identity matrix of the given size; size zero gives no rows.
pub fn identity(size: usize) -> (r: Vec<Vec<i16>>)
    ensures
        rows(&r) == identity_matrix(size as nat),
{
    let mut result: Vec<Vec<i16>> = Vec::new();
    let mut r: usize = 0;
    while r < size
        invariant
            r <= size,
            rows(&result) =~= identity_matrix(size as nat).take(r as int),
        decreases size - r,
    {
        let mut line: Vec<i16> = Vec::new();
        let mut c: usize = 0;
        while c < size
            invariant
                r < size,
                c <= size,
                line@ =~= identity_matrix(size as nat)[r as int].take(c as int),
            decreases size - c,
        {
            if r == c {
                line.push(1);
            } else {
                line.push(0);
            }
            c = c + 1;
        }
        assert(line@ =~= identity_matrix(size as nat)[r as int]);
        let ghost before = rows(&result);
        result.push(line);
        assert(rows(&result) =~= before.push(identity_matrix(size as nat)[r as int]));
        r = r + 1;
    }
    result
}

/// The identity matrix is square, so the square-only operations accept it.
pub proof fn lemma_identity_square(n: nat)
    ensures
        square(identity_matrix(n)),
        identity_matrix(n).len() == n,
{
}

/// Checks that `m` is square, as determinant and inversion require, and
/// returns its order.
pub fn check_square<T>(m: &Vec<Vec<T>>) -> (r: Result<usize, LinalgError>)
    ensures
        square(rows(m)) ==> r == Ok::<usize, LinalgError>(m@.len() as usize),
        !square(rows(m)) ==> r == Err::<usize, LinalgError>(LinalgError::NotSquare),
{
    if is_square(m) {
        Ok(m.len())
    } else {
        Err(LinalgError::NotSquare)
    }
}

/// Whether the cofactor at (`row`, `col`) is the negated minor, that is,
/// whether its sign `(-1)^(row + col)` is minus one.
pub fn cofactor_negated(row: usize, col: usize) -> (r: bool)
    ensures
        r == ((row + col) % 2 == 1),
{
    row % 2 != col % 2
}

/// Every row has the same length, and a matrix with rows has columns too.
pub open spec fn rectangular<T>(m: Seq<Seq<T>>) -> bool {
    &&& forall|i: int| 0 <= i < m.len() ==> #[trigger] m[i].len() == m[0].len()
    &&& m.len() > 0 ==> m[0].len() > 0
}

proof fn lemma_width_uniform<T>(m: Seq<Seq<T>>, k: nat)
    requires
        forall|i: int| 0 <= i < m.len() ==> #[trigger] m[i].len() == k,
    ensures
        width(m) == if m.len() == 0 { 0 } else { k },
    decreases m.len(),
{
    if m.len() > 0 {
        let d = m.drop_last();
        assert forall|i: int| 0 <= i < d.len() implies #[trigger] d[i].len() == k by {
            assert(d[i] == m[i]);
        }
        lemma_width_uniform(d, k);
    }
}

proof fn lemma_filter_keeps_all<T>(m: Seq<Seq<T>>, c: int)
    requires
        forall|i: int| 0 <= i < m.len() ==> c < #[trigger] m[i].len(),
    ensures
        m.filter(|r: Seq<T>| c < r.len()) == m,
    decreases m.len(),
{
    reveal(Seq::filter);
    if m.len() > 0 {
        let d = m.drop_last();
        assert forall|i: int| 0 <= i < d.len() implies c < #[trigger] d[i].len() by {
            assert(d[i] == m[i]);
        }
        lemma_filter_keeps_all(d, c);
        assert(d.push(m.last()) =~= m);
    }
}

proof fn lemma_column_full<T>(m: Seq<Seq<T>>, c: int)
    requires
        0 <= c,
        forall|i: int| 0 <= i < m.len() ==> c < #[trigger] m[i].len(),
    ensures
        column(m, c) == Seq::new(m.len(), |i: int| m[i][c]),
{
    lemma_filter_keeps_all(m, c);
    assert(column(m, c) =~= Seq::new(m.len(), |i: int| m[i][c]));
}

/// On a rectangular matrix the transpose swaps row and column indices.
proof fn lemma_transposed_rectangular<T>(m: Seq<Seq<T>>)
    requires
        rectangular(m),
        m.len() > 0,
    ensures
        transposed(m).len() == m[0].len(),
        forall|c: int| 0 <= c < m[0].len() ==> (#[trigger] transposed(m)[c]).len() == m.len(),
        forall|c: int, i: int| 0 <= c < m[0].len() && 0 <= i < m.len() ==> #[trigger] transposed(m)[c][i] == m[i][c],
{
    lemma_width_uniform(m, m[0].len());
    assert forall|c: int| 0 <= c < m[0].len() implies #[trigger] transposed(m)[c] == Seq::new(m.len(), |i: int| m[i][c]) by {
        lemma_column_full(m, c);
    }
}

/// Transposing a rectangular matrix twice gives back the matrix, square or not.
/// A matrix whose rows are all empty is not covered: it has no columns, so its
/// transpose has no rows and cannot remember how many rows there were.
pub proof fn lemma_transpose_involution<T>(m: Seq<Seq<T>>)
    requires
        rectangular(m),
    ensures
        transposed(transposed(m)) == m,
{
    if m.len() == 0 {
        assert(transposed(m) =~= Seq::<Seq<T>>::empty());
        assert(transposed(transposed(m)) =~= m);
    } else {
        let t = transposed(m);
        lemma_transposed_rectangular(m);
        assert(rectangular(t));
        lemma_transposed_rectangular(t);
        assert forall|i: int| 0 <= i < m.len() implies #[trigger] transposed(t)[i] =~= m[i] by {
            assert forall|c: int| 0 <= c < m[0].len() implies transposed(t)[i][c] == m[i][c] by {
                assert(transposed(t)[i][c] == t[c][i]);
            }
        }
        assert(transposed(t) =~= m);
    }
}

} // verus!
