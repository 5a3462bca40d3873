//! Matrices of zeros and ones and their Kronecker product.

use vstd::prelude::*;
use crate::values::Complex;

verus! {

/// Every row of `m` has `cols` entries.
pub open spec fn has_cols(m: Seq<Seq<Complex>>, cols: nat) -> bool {
    forall|i: int| 0 <= i < m.len() ==> (#[trigger] m[i]).len() == cols
}

/// A matrix with `rows` rows and `cols` columns, every entry zero.
pub fn zero_matrix(rows: usize, cols: usize) -> (matrix: Vec<Vec<Complex>>)
    ensures
        matrix.deep_view().len() == rows,
        has_cols(matrix.deep_view(), cols as nat),
        forall|i: int, j: int|
            0 <= i < rows && 0 <= j < cols ==> #[trigger] matrix.deep_view()[i][j]
                == Complex::spec_zero(),
{
    let mut matrix: Vec<Vec<Complex>> = Vec::new();
    let mut i: usize = 0;
    while i < rows
        invariant
            i <= rows,
            matrix@.len() == i,
            forall|x: int| 0 <= x < i ==> (#[trigger] matrix@[x])@.len() == cols,
            forall|x: int, y: int|
                0 <= x < i && 0 <= y < cols ==> #[trigger] matrix@[x]@[y] == Complex::spec_zero(),
        decreases rows - i,
    {
        let mut row: Vec<Complex> = Vec::new();
        let mut j: usize = 0;
        while j < cols
            invariant
                j <= cols,
                row@.len() == j,
                forall|y: int| 0 <= y < j ==> #[trigger] row@[y] == Complex::spec_zero(),
            decreases cols - j,
        {
            row.push(Complex::zero());
            j += 1;
        }
        matrix.push(row);
        i += 1;
    }
    matrix
}

/// `m` has at least one row, and all its rows have the length of the first.
pub open spec fn is_matrix(m: Seq<Seq<Complex>>) -> bool {
    m.len() > 0 && has_cols(m, m[0].len())
}

/// Every entry of `m` is exactly zero or exactly one.
pub open spec fn all_bits(m: Seq<Seq<Complex>>) -> bool {
    forall|i: int, j: int| 0 <= i < m.len() && 0 <= j < m[i].len() ==> (#[trigger] m[i][j]).is_bit()
}

/// The entry of the Kronecker product of `a` and `b` in row `x` and column
/// `y`: the product of the entry of `a` whose block holds the place and the
/// entry of `b` at the place within that block.
pub open spec fn kronecker_entry(
    a: Seq<Seq<Complex>>,
    b: Seq<Seq<Complex>>,
    x: int,
    y: int,
) -> Complex {
    let p = b.len() as int;
    let q = b[0].len() as int;
    a[x / p][y / q].bit_product(b[x % p][y % q])
}

/// The Kronecker product of two matrices of zeros and ones.
pub open spec fn kronecker(a: Seq<Seq<Complex>>, b: Seq<Seq<Complex>>) -> Seq<Seq<Complex>> {
    Seq::new(
        a.len() * b.len(),
        |x: int| Seq::new(a[0].len() * b[0].len(), |y: int| kronecker_entry(a, b, x, y)),
    )
}

/// Row `p * i + k`, column `q * j + l` of the product of `a` with a matrix
/// `b` of `p` rows and `q` columns holds the product of `a[i][j]` and
/// `b[k][l]`.
pub proof fn lemma_kronecker_block(
    a: Seq<Seq<Complex>>,
    b: Seq<Seq<Complex>>,
    i: int,
    j: int,
    k: int,
    l: int,
)
    requires
        is_matrix(a),
        is_matrix(b),
        0 <= i < a.len(),
        0 <= j < a[0].len(),
        0 <= k < b.len(),
        0 <= l < b[0].len(),
    ensures
        0 <= b.len() * i + k < a.len() * b.len(),
        0 <= b[0].len() * j + l < a[0].len() * b[0].len(),
        kronecker(a, b)[b.len() * i + k][b[0].len() * j + l] == a[i][j].bit_product(b[k][l]),
{
    let p = b.len() as int;
    let q = b[0].len() as int;
    lemma_block_index(p, a.len() as int, i, k);
    lemma_block_index(q, a[0].len() as int, j, l);
}

/// Place `k` of block `i`, the blocks `size` wide, is place `size * i + k`.
pub proof fn lemma_block_index(size: int, blocks: int, i: int, k: int)
    requires
        0 <= i < blocks,
        0 <= k < size,
    ensures
        0 <= size * i + k < blocks * size,
        (size * i + k) / size == i,
        (size * i + k) % size == k,
{
    assert(size * i + size <= blocks * size) by (nonlinear_arith)
        requires
            0 <= i < blocks,
            0 < size,
    ;
    assert(0 <= size * i) by (nonlinear_arith)
        requires
            0 <= i,
            0 < size,
    ;
    vstd::arithmetic::div_mod::lemma_fundamental_div_mod_converse(size * i + k, size, i, k);
}

/// The product of two matrices of zeros and ones is a matrix of zeros and
/// ones, with the product of their numbers of rows as its number of rows
/// and the product of their numbers of columns as its number of columns.
pub proof fn lemma_kronecker_shape(a: Seq<Seq<Complex>>, b: Seq<Seq<Complex>>)
    requires
        is_matrix(a),
        is_matrix(b),
    ensures
        kronecker(a, b).len() == a.len() * b.len(),
        has_cols(kronecker(a, b), a[0].len() * b[0].len()),
        is_matrix(kronecker(a, b)),
        all_bits(kronecker(a, b)),
{
    assert(0 < a.len() * b.len()) by (nonlinear_arith)
        requires
            0 < a.len(),
            0 < b.len(),
    ;
}

/// A place in a row of blocks that are themselves rows of blocks: the two
/// ways to split it agree.
proof fn lemma_nested_index(x: int, inner: int, outer: int)
    requires
        0 <= x,
        0 < inner,
        0 < outer,
    ensures
        0 < outer * inner,
        (x / inner) / outer == x / (outer * inner),
        (x % (outer * inner)) / inner == (x / inner) % outer,
        (x % (outer * inner)) % inner == x % inner,
{
    assert(outer * inner == inner * outer) by (nonlinear_arith);
    vstd::arithmetic::div_mod::lemma_div_denominator(x, inner, outer);
    vstd::arithmetic::div_mod::lemma_mod_breakdown(x, inner, outer);
    vstd::arithmetic::div_mod::lemma_mod_bound(x / inner, outer);
    vstd::arithmetic::div_mod::lemma_mod_bound(x, inner);
    vstd::arithmetic::div_mod::lemma_fundamental_div_mod_converse(
        x % (outer * inner),
        inner,
        (x / inner) % outer,
        x % inner,
    );
}

/// A place below `blocks * size` lies in one of the `blocks` blocks.
proof fn lemma_block_of(x: int, blocks: int, size: int)
    requires
        0 <= x < blocks * size,
        0 < size,
    ensures
        0 <= x / size < blocks,
        0 <= x % size < size,
{
    vstd::arithmetic::div_mod::lemma_fundamental_div_mod(x, size);
    vstd::arithmetic::div_mod::lemma_mod_bound(x, size);
    let d = x / size;
    assert(0 <= d < blocks) by (nonlinear_arith)
        requires
            0 <= x < blocks * size,
            0 < size,
            x == size * d + x % size,
            0 <= x % size < size,
    ;
}

/// The Kronecker product is associative.
pub proof fn lemma_kronecker_associative(
    a: Seq<Seq<Complex>>,
    b: Seq<Seq<Complex>>,
    c: Seq<Seq<Complex>>,
)
    requires
        is_matrix(a),
        is_matrix(b),
        is_matrix(c),
    ensures
        kronecker(kronecker(a, b), c) == kronecker(a, kronecker(b, c)),
{
    let m = a.len() as int;
    let n = a[0].len() as int;
    let p = b.len() as int;
    let q = b[0].len() as int;
    let r = c.len() as int;
    let s = c[0].len() as int;
    let ab = kronecker(a, b);
    let bc = kronecker(b, c);
    let left = kronecker(ab, c);
    let right = kronecker(a, bc);
    lemma_kronecker_shape(a, b);
    lemma_kronecker_shape(b, c);
    assert((m * p) * r == m * (p * r)) by (nonlinear_arith);
    assert((n * q) * s == n * (q * s)) by (nonlinear_arith);
    assert(0 < m * p && 0 < p * r) by (nonlinear_arith)
        requires
            0 < m,
            0 < p,
            0 < r,
    ;
    assert(ab[0].len() == n * q);
    assert(bc[0].len() == q * s);
    assert(left.len() == right.len());
    assert forall|x: int| 0 <= x < left.len() implies left[x] =~= right[x] by {
        assert(left[x].len() == right[x].len());
        assert forall|y: int| 0 <= y < left[x].len() implies left[x][y] == right[x][y] by {
            assert(0 < q && 0 < s && 0 < n) by (nonlinear_arith)
                requires
                    0 <= y < (n * q) * s,
                    0 <= n,
                    0 <= q,
                    0 <= s,
            ;
            assert(0 < n * q && 0 < q * s) by (nonlinear_arith)
                requires
                    0 < n,
                    0 < q,
                    0 < s,
            ;
            lemma_nested_index(x, r, p);
            lemma_nested_index(y, s, q);
            lemma_block_of(x, m * p, r);
            lemma_block_of(y, n * q, s);
            lemma_block_of(x, m, p * r);
            lemma_block_of(y, n, q * s);
            lemma_block_of(x / r, m, p);
            lemma_block_of(y / s, n, q);
            assert(left[x][y] == kronecker_entry(ab, c, x, y));
            assert(ab[x / r][y / s] == kronecker_entry(a, b, x / r, y / s));
            assert(right[x][y] == kronecker_entry(a, bc, x, y));
            assert(bc[x % (p * r)][y % (q * s)] == kronecker_entry(
                b,
                c,
                x % (p * r),
                y % (q * s),
            ));
        }
    }
    assert(left =~= right);
}

/// The Kronecker product of `a` and `b`, for matrices of zeros and ones.
///
/// Both need a first row, whose length is taken for the number of columns,
/// and the dimensions of the product have to fit a `usize`.
pub fn kronecker_fn(a: &Vec<Vec<Complex>>, b: &Vec<Vec<Complex>>) -> (r: Vec<Vec<Complex>>)
    requires
        is_matrix(a.deep_view()),
        is_matrix(b.deep_view()),
        all_bits(a.deep_view()),
        all_bits(b.deep_view()),
        a.len() * b.len() <= usize::MAX,
        a[0].len() * b[0].len() <= usize::MAX,
    ensures
        r.deep_view() == kronecker(a.deep_view(), b.deep_view()),
{
    let m = a.len();
    let n = a[0].len();
    let p = b.len();
    let q = b[0].len();
    let rtn = m * p;
    let ctn = n * q;
    let mut r = zero_matrix(rtn, ctn);
    let ghost av = a.deep_view();
    let ghost bv = b.deep_view();
    assert(forall|x: int| 0 <= x < m ==> (#[trigger] a@[x])@.len() == n) by {
        assert forall|x: int| 0 <= x < m implies (#[trigger] a@[x])@.len() == n by {
            assert(av[x].len() == n);
        }
    }
    assert(forall|x: int| 0 <= x < p ==> (#[trigger] b@[x])@.len() == q) by {
        assert forall|x: int| 0 <= x < p implies (#[trigger] b@[x])@.len() == q by {
            assert(bv[x].len() == q);
        }
    }

    assert forall|x: int| 0 <= x < rtn implies (#[trigger] r@[x])@.len() == ctn by {
        assert(r.deep_view()[x].len() == ctn);
    }

    let mut i: usize = 0;
    let mut row0: usize = 0;
    while i < m
        invariant
            i <= m,
            row0 == p * i,
            m == a@.len(),
            p == b@.len(),
            p > 0,
            rtn == m * p,
            ctn == n * q,
            av == a.deep_view(),
            bv == b.deep_view(),
            is_matrix(av),
            is_matrix(bv),
            all_bits(av),
            all_bits(bv),
            n == av[0].len(),
            q == bv[0].len(),
            forall|x: int| 0 <= x < m ==> (#[trigger] a@[x])@.len() == n,
            forall|x: int| 0 <= x < p ==> (#[trigger] b@[x])@.len() == q,
            r@.len() == rtn,
            forall|x: int| 0 <= x < rtn ==> (#[trigger] r@[x])@.len() == ctn,
            forall|x: int, y: int|
                0 <= x < row0 && 0 <= y < ctn ==> #[trigger] r@[x]@[y] == kronecker_entry(av, bv, x, y),
        decreases m - i,
    {
        proof {
            assert(p * i + p <= m * p) by (nonlinear_arith)
                requires
                    0 <= i < m,
                    0 < p,
            ;
        }
        let mut j: usize = 0;
        let mut col0: usize = 0;
        while j < n
            invariant
                i < m,
                j <= n,
                row0 == p * i,
                row0 + p <= rtn,
                col0 == q * j,
                m == a@.len(),
                p == b@.len(),
                p > 0,
                rtn == m * p,
                ctn == n * q,
                av == a.deep_view(),
                bv == b.deep_view(),
                is_matrix(av),
                is_matrix(bv),
                all_bits(av),
                all_bits(bv),
                n == av[0].len(),
                q == bv[0].len(),
                forall|x: int| 0 <= x < m ==> (#[trigger] a@[x])@.len() == n,
                forall|x: int| 0 <= x < p ==> (#[trigger] b@[x])@.len() == q,
                r@.len() == rtn,
                forall|x: int| 0 <= x < rtn ==> (#[trigger] r@[x])@.len() == ctn,
                forall|x: int, y: int|
                    0 <= x < row0 && 0 <= y < ctn ==> #[trigger] r@[x]@[y] == kronecker_entry(av, bv, x, y),
                forall|x: int, y: int|
                    row0 <= x < row0 + p && 0 <= y < col0 ==> #[trigger] r@[x]@[y] == kronecker_entry(av, bv, x, y),
            decreases n - j,
        {
            proof {
                assert(q * j + q <= n * q) by (nonlinear_arith)
                    requires
                        0 <= j < n,
                        0 <= q,
                ;
            }
            let mut k: usize = 0;
            while k < p
                invariant
                    i < m,
                    j < n,
                    k <= p,
                    row0 == p * i,
                    row0 + p <= rtn,
                    col0 == q * j,
                    col0 + q <= ctn,
                    m == a@.len(),
                    p == b@.len(),
                    p > 0,
                    rtn == m * p,
                    ctn == n * q,
                    av == a.deep_view(),
                    bv == b.deep_view(),
                    is_matrix(av),
                    is_matrix(bv),
                    all_bits(av),
                    all_bits(bv),
                    n == av[0].len(),
                    q == bv[0].len(),
                    forall|x: int| 0 <= x < m ==> (#[trigger] a@[x])@.len() == n,
                    forall|x: int| 0 <= x < p ==> (#[trigger] b@[x])@.len() == q,
                    r@.len() == rtn,
                    forall|x: int| 0 <= x < rtn ==> (#[trigger] r@[x])@.len() == ctn,
                    forall|x: int, y: int|
                        0 <= x < row0 && 0 <= y < ctn ==> #[trigger] r@[x]@[y] == kronecker_entry(av, bv, x, y),
                    forall|x: int, y: int|
                        row0 <= x < row0 + p && 0 <= y < col0 ==> #[trigger] r@[x]@[y] == kronecker_entry(av, bv, x, y),
                    forall|x: int, y: int|
                        row0 <= x < row0 + k && col0 <= y < col0 + q ==> #[trigger] r@[x]@[y] == kronecker_entry(av, bv, x, y),
                decreases p - k,
            {
                let mut l: usize = 0;
                while l < q
                    invariant
                        i < m,
                        j < n,
                        k < p,
                        l <= q,
                        row0 == p * i,
                        row0 + p <= rtn,
                        col0 == q * j,
                        col0 + q <= ctn,
                        m == a@.len(),
                        p == b@.len(),
                        p > 0,
                        rtn == m * p,
                        ctn == n * q,
                        av == a.deep_view(),
                        bv == b.deep_view(),
                        is_matrix(av),
                        is_matrix(bv),
                        all_bits(av),
                        all_bits(bv),
                        n == av[0].len(),
                        q == bv[0].len(),
                        forall|x: int| 0 <= x < m ==> (#[trigger] a@[x])@.len() == n,
                        forall|x: int| 0 <= x < p ==> (#[trigger] b@[x])@.len() == q,
                        r@.len() == rtn,
                        forall|x: int| 0 <= x < rtn ==> (#[trigger] r@[x])@.len() == ctn,
                        forall|x: int, y: int|
                            0 <= x < row0 && 0 <= y < ctn ==> #[trigger] r@[x]@[y] == kronecker_entry(av, bv, x, y),
                        forall|x: int, y: int|
                            row0 <= x < row0 + p && 0 <= y < col0 ==> #[trigger] r@[x]@[y] == kronecker_entry(av, bv, x, y),
                        forall|x: int, y: int|
                            row0 <= x < row0 + k && col0 <= y < col0 + q ==> #[trigger] r@[x]@[y] == kronecker_entry(av, bv, x, y),
                        forall|y: int|
                            col0 <= y < col0 + l ==> #[trigger] r@[row0 + k]@[y] == kronecker_entry(av, bv, row0 + k, y),
                    decreases q - l,
                {
                    proof {
                        lemma_block_index(p as int, m as int, i as int, k as int);
                        lemma_block_index(q as int, n as int, j as int, l as int);
                        assert(av[i as int][j as int] == a@[i as int]@[j as int]);
                        assert(bv[k as int][l as int] == b@[k as int]@[l as int]);
                        assert(av[i as int][j as int].is_bit());
                        assert(bv[k as int][l as int].is_bit());
                    }
                    let value = a[i][j].times_bit(&b[k][l]);
                    r[row0 + k][col0 + l] = value;
                    l += 1;
                }
                k += 1;
            }
            proof {
                assert(q * (j + 1) == q * j + q) by (nonlinear_arith);
            }
            col0 += q;
            j += 1;
        }
        proof {
            assert(p * (i + 1) == p * i + p) by (nonlinear_arith);
            assert(q * n == n * q) by (nonlinear_arith);
        }
        row0 += p;
        i += 1;
    }
    proof {
        assert(p * m == m * p) by (nonlinear_arith);
        let rv = r.deep_view();
        let want = kronecker(av, bv);
        assert(rv.len() == want.len());
        assert forall|x: int| 0 <= x < rv.len() implies rv[x] =~= want[x] by {
            assert(r@[x]@.len() == ctn);
            assert forall|y: int| 0 <= y < ctn implies rv[x][y] == want[x][y] by {
                assert(r@[x]@[y] == kronecker_entry(av, bv, x, y));
            }
        }
        assert(rv =~= want);
    }
    r
}

} // verus!
