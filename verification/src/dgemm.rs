//! The DGEMM kernel: its call arguments and its result test.

use vstd::prelude::*;

use crate::config::MatrixLayout;

verus! {

/// The integer arguments of a call of the kernel's `dgemm` function:
/// `dgemm(layout, transa, transb, m, n, k, alpha, a, lda, b, ldb, beta, c, ldc)`.
#[derive(Debug, Clone, Copy, PartialEq, Eq, Structural)]
pub struct DgemmCallArgs {
    pub layout: i32,
    pub transa: i32,
    pub transb: i32,
    pub m: i32,
    pub n: i32,
    pub k: i32,
    pub lda: i32,
    pub ldb: i32,
    pub ldc: i32,
}

/// The layout code of the kernel interface: 101 row-major, 102 column-major.
pub open spec fn layout_code(layout: MatrixLayout) -> i32 {
    match layout {
        MatrixLayout::RowMajor => 101,
        MatrixLayout::ColMajor => 102,
    }
}

/// The transpose code of the kernel interface: 0 no transpose, 1 transpose.
pub open spec fn transpose_code(trans: bool) -> i32 {
    if trans {
        1
    } else {
        0
    }
}

/// The arguments for `C = alpha * A * B + beta * C` with `C` m x n, `A` m x k and
/// `B` k x n: the leading dimensions are `k`, `n`, `n` in row-major layout and `m`,
/// `k`, `m` in column-major layout. Sizes are passed as C `int`s (the `u32` value
/// reinterpreted as `i32`).
pub fn dgemm_call_args(layout: MatrixLayout, transa: bool, transb: bool, m: u32, n: u32, k: u32) -> (args: DgemmCallArgs)
    ensures
        args.layout == layout_code(layout),
        args.transa == transpose_code(transa),
        args.transb == transpose_code(transb),
        args.m == m as i32,
        args.n == n as i32,
        args.k == k as i32,
        layout == MatrixLayout::RowMajor ==> args.lda == k as i32 && args.ldb == n as i32
            && args.ldc == n as i32,
        layout == MatrixLayout::ColMajor ==> args.lda == m as i32 && args.ldb == k as i32
            && args.ldc == m as i32,
{
    let layout_c: i32 = match layout {
        MatrixLayout::RowMajor => 101,
        MatrixLayout::ColMajor => 102,
    };
    let transa_c: i32 = if transa {
        1
    } else {
        0
    };
    let transb_c: i32 = if transb {
        1
    } else {
        0
    };
    let mi = m as i32;
    let ni = n as i32;
    let ki = k as i32;
    let (lda, ldb, ldc) = match layout {
        MatrixLayout::RowMajor => (ki, ni, ni),
        MatrixLayout::ColMajor => (mi, ki, mi),
    };
    DgemmCallArgs {
        layout: layout_c,
        transa: transa_c,
        transb: transb_c,
        m: mi,
        n: ni,
        k: ki,
        lda,
        ldb,
        ldc,
    }
}

/// Where element (`r`, `c`) of a `rows` x `cols` matrix is stored.
pub open spec fn element_index(layout: MatrixLayout, rows: int, cols: int, r: int, c: int) -> int {
    match layout {
        MatrixLayout::RowMajor => r * cols + c,
        MatrixLayout::ColMajor => c * rows + r,
    }
}

/// The value every element of `C` holds before the checked call.
pub open spec fn check_c_fill() -> int {
    -1000
}

/// Position of element `r` of block `q` in consecutive blocks of `width` elements.
pub open spec fn block_index(q: int, width: int, r: int) -> int {
    q * width + r
}

/// Elements of earlier blocks come before block `q`.
proof fn lemma_block_below(qq: int, rr: int, q: int, w: int)
    requires
        0 <= qq < q,
        0 <= rr < w,
    ensures
        0 <= block_index(qq, w, rr) < q * w,
{
    assert(0 <= qq * w + rr < q * w) by (nonlinear_arith)
        requires
            0 <= qq < q,
            0 <= rr < w,
    ;
}

/// The value element `r` of block `q` holds: `q + 1` when numbering by block,
/// `r + 1` otherwise.
pub open spec fn block_value(by_block: bool, q: int, r: int) -> int {
    if by_block {
        q + 1
    } else {
        r + 1
    }
}

/// `outer` consecutive blocks of `inner` elements, element `r` of block `q` holding
/// `block_value(by_block, q, r)`.
fn fill_blocks(outer: u32, inner: u32, by_block: bool) -> (v: Vec<u32>)
    requires
        outer * inner <= usize::MAX,
    ensures
        v@.len() == outer * inner,
        forall|q: int, r: int|
            #![trigger block_index(q, inner as int, r)]
            0 <= q < outer && 0 <= r < inner ==> v@[block_index(q, inner as int, r)] == block_value(
                by_block,
                q,
                r,
            ),
{
    let mut v: Vec<u32> = Vec::new();
    let mut q: u32 = 0;
    while q < outer
        invariant
            q <= outer,
            outer * inner <= usize::MAX,
            v@.len() == q * inner,
            forall|qq: int, r: int|
                #![trigger block_index(qq, inner as int, r)]
                0 <= qq < q && 0 <= r < inner ==> v@[block_index(qq, inner as int, r)] == block_value(
                    by_block,
                    qq,
                    r,
                ),
        decreases outer - q,
    {
        let mut r: u32 = 0;
        while r < inner
            invariant
                q < outer,
                r <= inner,
                outer * inner <= usize::MAX,
                v@.len() == q * inner + r,
                forall|qq: int, rr: int|
                    #![trigger block_index(qq, inner as int, rr)]
                    0 <= qq < q && 0 <= rr < inner ==> v@[block_index(qq, inner as int, rr)]
                        == block_value(by_block, qq, rr),
                forall|rr: int|
                    0 <= rr < r ==> v@[#[trigger] block_index(q as int, inner as int, rr)]
                        == block_value(by_block, q as int, rr),
            decreases inner - r,
        {
            proof {
                assert(q * inner + r < outer * inner) by (nonlinear_arith)
                    requires
                        q < outer,
                        r < inner,
                ;
            }
            let ghost before = v@;
            let value = if by_block {
                q + 1
            } else {
                r + 1
            };
            v.push(value);
            proof {
                assert forall|qq: int, rr: int|
                    #![trigger block_index(qq, inner as int, rr)]
                    0 <= qq < q && 0 <= rr < inner implies v@[block_index(qq, inner as int, rr)]
                    == block_value(by_block, qq, rr) by {
                    lemma_block_below(qq, rr, q as int, inner as int);
                    assert(v@[block_index(qq, inner as int, rr)] == before[block_index(qq, inner as int, rr)]);
                }
            }
            r = r + 1;
        }
        proof {
            assert((q + 1) * inner == q * inner + inner) by (nonlinear_arith);
            assert forall|qq: int, rr: int|
                #![trigger block_index(qq, inner as int, rr)]
                0 <= qq < q + 1 && 0 <= rr < inner implies v@[block_index(qq, inner as int, rr)]
                == block_value(by_block, qq, rr) by {
                if qq == q {
                }
            }
        }
        q = q + 1;
    }
    v
}

/// The operands of the result test: `A` (m x k) holds `i + 1` in row `i`
/// and `B` (k x n) holds `j + 1` in column `j`, both stored in `layout`. (`C` holds
/// `check_c_fill()` everywhere.)
pub fn dgemm_check_operands(layout: MatrixLayout, m: u32, n: u32, k: u32) -> (ab: (Vec<u32>, Vec<u32>))
    requires
        m * k <= usize::MAX,
        k * n <= usize::MAX,
    ensures
        ab.0@.len() == m * k,
        ab.1@.len() == k * n,
        forall|i: int, p: int|
            0 <= i < m && 0 <= p < k ==> ab.0@[#[trigger] element_index(layout, m as int, k as int, i, p)]
                == i + 1,
        forall|p: int, j: int|
            0 <= p < k && 0 <= j < n ==> ab.1@[#[trigger] element_index(layout, k as int, n as int, p, j)]
                == j + 1,
{
    match layout {
        MatrixLayout::RowMajor => {
            assert(k * m == m * k) by (nonlinear_arith);
            let a = fill_blocks(m, k, true);
            let b = fill_blocks(k, n, false);
            assert forall|i: int, p: int| 0 <= i < m && 0 <= p < k implies a@[#[trigger] element_index(layout, m as int, k as int, i, p)] == i + 1 by {
                assert(element_index(layout, m as int, k as int, i, p) == block_index(i, k as int, p));
            }
            assert forall|p: int, j: int| 0 <= p < k && 0 <= j < n implies b@[#[trigger] element_index(layout, k as int, n as int, p, j)] == j + 1 by {
                assert(element_index(layout, k as int, n as int, p, j) == block_index(p, n as int, j));
            }
            (a, b)
        },
        MatrixLayout::ColMajor => {
            assert(k * m == m * k) by (nonlinear_arith);
            assert(n * k == k * n) by (nonlinear_arith);
            let a = fill_blocks(k, m, false);
            let b = fill_blocks(n, k, true);
            assert forall|i: int, p: int| 0 <= i < m && 0 <= p < k implies a@[#[trigger] element_index(layout, m as int, k as int, i, p)] == i + 1 by {
                assert(element_index(layout, m as int, k as int, i, p) == block_index(p, m as int, i));
            }
            assert forall|p: int, j: int| 0 <= p < k && 0 <= j < n implies b@[#[trigger] element_index(layout, k as int, n as int, p, j)] == j + 1 by {
                assert(element_index(layout, k as int, n as int, p, j) == block_index(j, k as int, p));
            }
            (a, b)
        },
    }
}

/// The value every element of `C` holds before the result test's call
/// (`check_c_fill()`).
pub fn dgemm_check_c_fill() -> (v: i32)
    ensures
        v == check_c_fill(),
{
    -1000
}

/// The value the result test expects in element (`i`, `j`) of `C` after the call with
/// `alpha` and `beta` 1: `k * (i + 1) * (j + 1) - 1000`.
pub open spec fn check_expected(k: int, i: int, j: int) -> int {
    k * (i + 1) * (j + 1) + check_c_fill()
}

/// Computes `check_expected`.
pub fn dgemm_expected(k: u32, i: u32, j: u32) -> (e: i128)
    ensures
        e == check_expected(k as int, i as int, j as int),
{
    let ki = k as i128;
    let a = i as i128 + 1;
    let b = j as i128 + 1;
    assert(0 <= ki * a <= 0x1_0000_0000 * 0x1_0000_0000) by (nonlinear_arith)
        requires
            0 <= ki <= 0x1_0000_0000,
            0 <= a <= 0x1_0000_0000,
    ;
    let ka = ki * a;
    assert(0 <= ka * b <= 0x1_0000_0000 * 0x1_0000_0000 * 0x1_0000_0000) by (nonlinear_arith)
        requires
            0 <= ka <= 0x1_0000_0000 * 0x1_0000_0000,
            0 <= b <= 0x1_0000_0000,
    ;
    ka * b - 1000
}

/// The position at which the result test reads element (`i`, `j`) of the m x n
/// matrix `C`: where `C` stores it in `layout`; the position must fit a `usize`.
pub fn dgemm_checked_index(layout: MatrixLayout, m: u32, n: u32, i: u32, j: u32) -> (idx: usize)
    requires
        element_index(layout, m as int, n as int, i as int, j as int) <= usize::MAX,
    ensures
        idx == element_index(layout, m as int, n as int, i as int, j as int),
{
    match layout {
        MatrixLayout::RowMajor => {
            assert(0 <= (i as int) * (n as int)) by (nonlinear_arith);
            i as usize * n as usize + j as usize
        },
        MatrixLayout::ColMajor => {
            assert(0 <= (j as int) * (m as int)) by (nonlinear_arith);
            j as usize * m as usize + i as usize
        },
    }
}

/// Every element (`i`, `j`) of an m x n matrix is stored inside its `m * n`
/// elements, and no two elements share a position.
pub proof fn lemma_element_index_in_bounds(
    layout: MatrixLayout,
    m: int,
    n: int,
    i1: int,
    j1: int,
    i2: int,
    j2: int,
)
    requires
        0 <= i1 < m,
        0 <= j1 < n,
        0 <= i2 < m,
        0 <= j2 < n,
    ensures
        0 <= element_index(layout, m, n, i1, j1) < m * n,
        element_index(layout, m, n, i1, j1) == element_index(layout, m, n, i2, j2) ==> i1 == i2 && j1
            == j2,
{
    match layout {
        MatrixLayout::RowMajor => {
            assert(0 <= i1 * n + j1 < m * n) by (nonlinear_arith)
                requires
                    0 <= i1 < m,
                    0 <= j1 < n,
            ;
            if i1 * n + j1 == i2 * n + j2 {
                vstd::arithmetic::div_mod::lemma_fundamental_div_mod_converse(i1 * n + j1, n, i1, j1);
                vstd::arithmetic::div_mod::lemma_fundamental_div_mod_converse(i2 * n + j2, n, i2, j2);
            }
        },
        MatrixLayout::ColMajor => {
            assert(0 <= j1 * m + i1 < m * n) by (nonlinear_arith)
                requires
                    0 <= i1 < m,
                    0 <= j1 < n,
            ;
            if j1 * m + i1 == j2 * m + i2 {
                vstd::arithmetic::div_mod::lemma_fundamental_div_mod_converse(j1 * m + i1, m, j1, i1);
                vstd::arithmetic::div_mod::lemma_fundamental_div_mod_converse(j2 * m + i2, m, j2, i2);
            }
        },
    }
}

/// Row `i` of `A` times column `j` of `B`, over the first `len` terms.
pub open spec fn row_times_column(
    layout: MatrixLayout,
    a: Seq<u32>,
    b: Seq<u32>,
    m: int,
    n: int,
    k: int,
    i: int,
    j: int,
    len: int,
) -> int
    decreases len,
{
    if len <= 0 {
        0
    } else {
        row_times_column(layout, a, b, m, n, k, i, j, len - 1) + a[element_index(layout, m, k, i, len - 1)]
            * b[element_index(layout, k, n, len - 1, j)]
    }
}

/// The result test is right about the product, in both layouts and for every
/// shape: with the operands it prepares, `alpha * A * B + beta * C` with `alpha` and
/// `beta` 1 holds `check_expected` in element (`i`, `j`), which the test reads at
/// `element_index(layout, m, n, i, j)`.
pub proof fn lemma_check_expects_product(
    layout: MatrixLayout,
    a: Seq<u32>,
    b: Seq<u32>,
    m: int,
    n: int,
    k: int,
    i: int,
    j: int,
)
    requires
        0 <= i < m,
        0 <= j < n,
        0 <= k,
        forall|ii: int, p: int|
            0 <= ii < m && 0 <= p < k ==> a[#[trigger] element_index(layout, m, k, ii, p)] == ii + 1,
        forall|p: int, jj: int|
            0 <= p < k && 0 <= jj < n ==> b[#[trigger] element_index(layout, k, n, p, jj)] == jj + 1,
    ensures
        row_times_column(layout, a, b, m, n, k, i, j, k) + check_c_fill() == check_expected(k, i, j),
{
    lemma_row_times_column_prefix(layout, a, b, m, n, k, i, j, k);
}

/// The first `len` terms of the result test's row-times-column sum.
proof fn lemma_row_times_column_prefix(
    layout: MatrixLayout,
    a: Seq<u32>,
    b: Seq<u32>,
    m: int,
    n: int,
    k: int,
    i: int,
    j: int,
    len: int,
)
    requires
        0 <= i < m,
        0 <= j < n,
        0 <= len <= k,
        forall|ii: int, p: int|
            0 <= ii < m && 0 <= p < k ==> a[#[trigger] element_index(layout, m, k, ii, p)] == ii + 1,
        forall|p: int, jj: int|
            0 <= p < k && 0 <= jj < n ==> b[#[trigger] element_index(layout, k, n, p, jj)] == jj + 1,
    ensures
        row_times_column(layout, a, b, m, n, k, i, j, len) == len * (i + 1) * (j + 1),
    decreases len,
{
    if len > 0 {
        lemma_row_times_column_prefix(layout, a, b, m, n, k, i, j, len - 1);
        let x = a[element_index(layout, m, k, i, len - 1)] as int;
        let y = b[element_index(layout, k, n, len - 1, j)] as int;
        assert(x == i + 1);
        assert(y == j + 1);
        assert((len - 1) * (i + 1) * (j + 1) + x * y == len * (i + 1) * (j + 1)) by (nonlinear_arith)
            requires
                x == i + 1,
                y == j + 1,
        ;
    } else {
        assert(len * (i + 1) * (j + 1) == 0) by (nonlinear_arith)
            requires
                len == 0,
        ;
    }
}

} // verus!
