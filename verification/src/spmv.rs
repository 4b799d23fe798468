//! The HPCG-style SpMV kernel: the 27-point stencil matrix on an `n` x `n` x `n`
//! grid in ELLPACK form with 32 slots per row, and its result test.

use vstd::prelude::*;

verus! {

/// Rows of the matrix: one per grid point.
pub open spec fn grid_rows(n: int) -> int {
    n * n * n
}

/// Slots per matrix row.
pub open spec fn row_width() -> int {
    32
}

/// Slot of the diagonal entry; below-diagonal entries take the slots before it and
/// above-diagonal entries the slots after it.
pub open spec fn diagonal_slot() -> int {
    16
}

/// Unused elements after the last row of every buffer of the matrix.
pub open spec fn slack() -> int {
    1024
}

/// Length of the column-index and value buffers.
pub open spec fn matrix_len(n: int) -> int {
    grid_rows(n) * row_width() + slack()
}

/// Position of slot `s` of row `i`.
pub open spec fn slot_index(i: int, s: int) -> int {
    i * row_width() + s
}

/// The grids that the kernel handles: the row count fits a C `int` and the buffers
/// fit memory.
pub open spec fn grid_fits(n: int) -> bool {
    grid_rows(n) <= i32::MAX && matrix_len(n) <= usize::MAX
}

/// Offset `t` (`0 <= t < 27`) of the stencil: x varies fastest, then y, then z, each
/// over -1, 0, 1.
pub open spec fn off_x(t: int) -> int {
    t % 3 - 1
}

/// See `off_x`.
pub open spec fn off_y(t: int) -> int {
    (t / 3) % 3 - 1
}

/// See `off_x`.
pub open spec fn off_z(t: int) -> int {
    t / 9 - 1
}

/// The grid coordinates of row `i`: x varies fastest.
pub open spec fn row_x(n: int, i: int) -> int {
    i % n
}

/// See `row_x`.
pub open spec fn row_y(n: int, i: int) -> int {
    (i / n) % n
}

/// See `row_x`.
pub open spec fn row_z(n: int, i: int) -> int {
    (i / n) / n
}

/// The grid point moved by offset `t` from row `i` lies in the grid.
pub open spec fn in_grid(n: int, i: int, t: int) -> bool {
    &&& 0 <= row_x(n, i) + off_x(t) < n
    &&& 0 <= row_y(n, i) + off_y(t) < n
    &&& 0 <= row_z(n, i) + off_z(t) < n
}

/// The row of the grid point moved by offset `t` from row `i`.
pub open spec fn neighbor(n: int, i: int, t: int) -> int {
    (row_z(n, i) + off_z(t)) * n * n + (row_y(n, i) + off_y(t)) * n + (row_x(n, i) + off_x(t))
}

/// The neighbors of row `i` below it, among the first `t` offsets, in offset order.
pub open spec fn lower_neighbors(n: int, i: int, t: int) -> Seq<int>
    decreases t,
{
    if t <= 0 {
        Seq::empty()
    } else if in_grid(n, i, t - 1) && neighbor(n, i, t - 1) < i {
        lower_neighbors(n, i, t - 1).push(neighbor(n, i, t - 1))
    } else {
        lower_neighbors(n, i, t - 1)
    }
}

/// The neighbors of row `i` above it, among the first `t` offsets, in offset order.
pub open spec fn upper_neighbors(n: int, i: int, t: int) -> Seq<int>
    decreases t,
{
    if t <= 0 {
        Seq::empty()
    } else if in_grid(n, i, t - 1) && neighbor(n, i, t - 1) > i {
        upper_neighbors(n, i, t - 1).push(neighbor(n, i, t - 1))
    } else {
        upper_neighbors(n, i, t - 1)
    }
}

/// How many of the first `t` offsets of row `i` stay in the grid.
pub open spec fn in_grid_count(n: int, i: int, t: int) -> int
    decreases t,
{
    if t <= 0 {
        0
    } else {
        in_grid_count(n, i, t - 1) + if in_grid(n, i, t - 1) {
            1int
        } else {
            0int
        }
    }
}

/// The column index in slot `s` of row `i` once the first `t` offsets are entered:
/// lower neighbors from slot 0, the row itself in the diagonal slot once offset 13
/// (the center) is entered, upper neighbors from the slot after the diagonal, 0
/// elsewhere.
pub open spec fn partial_col(n: int, i: int, t: int, s: int) -> int {
    let lo = lower_neighbors(n, i, t);
    let up = upper_neighbors(n, i, t);
    if s < lo.len() {
        lo[s]
    } else if s < diagonal_slot() {
        0
    } else if s == diagonal_slot() {
        if t > 13 {
            i
        } else {
            0
        }
    } else if s - diagonal_slot() - 1 < up.len() {
        up[s - diagonal_slot() - 1]
    } else {
        0
    }
}

/// The value in slot `s` of row `i` once the first `t` offsets are entered: -1 for a
/// neighbor, 26 on the diagonal, 0 elsewhere.
pub open spec fn partial_weight(n: int, i: int, t: int, s: int) -> int {
    let lo = lower_neighbors(n, i, t);
    let up = upper_neighbors(n, i, t);
    if s < lo.len() {
        -1
    } else if s < diagonal_slot() {
        0
    } else if s == diagonal_slot() {
        if t > 13 {
            26
        } else {
            0
        }
    } else if s - diagonal_slot() - 1 < up.len() {
        -1
    } else {
        0
    }
}

/// The column index in slot `s` of row `i` of the stencil matrix.
pub open spec fn stencil_col(n: int, i: int, s: int) -> int {
    partial_col(n, i, 27, s)
}

/// The value in slot `s` of row `i` of the stencil matrix.
pub open spec fn stencil_weight(n: int, i: int, s: int) -> int {
    partial_weight(n, i, 27, s)
}

/// A row's grid coordinates lie in the grid and give back the row.
pub proof fn lemma_row_coordinates(n: int, i: int)
    requires
        n >= 1,
        0 <= i < grid_rows(n),
    ensures
        0 <= row_x(n, i) < n,
        0 <= row_y(n, i) < n,
        0 <= row_z(n, i) < n,
        i == row_z(n, i) * n * n + row_y(n, i) * n + row_x(n, i),
{
    let q = i / n;
    let x = i % n;
    vstd::arithmetic::div_mod::lemma_fundamental_div_mod(i, n);
    vstd::arithmetic::div_mod::lemma_mod_pos_bound(i, n);
    vstd::arithmetic::div_mod::lemma_div_pos_is_pos(i, n);
    vstd::arithmetic::div_mod::lemma_fundamental_div_mod(q, n);
    vstd::arithmetic::div_mod::lemma_mod_pos_bound(q, n);
    vstd::arithmetic::div_mod::lemma_div_pos_is_pos(q, n);
    let y = q % n;
    let z = q / n;
    assert(i == n * q + x);
    assert(q == n * z + y);
    assert(i == z * n * n + y * n + x) by (nonlinear_arith)
        requires
            i == n * q + x,
            q == n * z + y,
    ;
    assert(z < n) by (nonlinear_arith)
        requires
            i == z * n * n + y * n + x,
            0 <= y,
            0 <= x,
            i < n * n * n,
            n >= 1,
    ;
}

/// The point moved by an offset is a row of the grid when it lies in it.
pub proof fn lemma_neighbor_is_row(n: int, i: int, t: int)
    requires
        n >= 1,
        in_grid(n, i, t),
    ensures
        0 <= neighbor(n, i, t) < grid_rows(n),
{
    let x = row_x(n, i) + off_x(t);
    let y = row_y(n, i) + off_y(t);
    let z = row_z(n, i) + off_z(t);
    assert(0 <= z * n * n + y * n + x < n * n * n) by (nonlinear_arith)
        requires
            0 <= x < n,
            0 <= y < n,
            0 <= z < n,
    ;
}

/// An offset is a step of -1, 0 or 1 on each axis, and the offsets come in the order
/// of `9 * dz + 3 * dy + dx`.
proof fn lemma_offset_parts(t: int)
    requires
        0 <= t < 27,
    ensures
        -1 <= off_x(t) <= 1,
        -1 <= off_y(t) <= 1,
        -1 <= off_z(t) <= 1,
        t - 13 == 9 * off_z(t) + 3 * off_y(t) + off_x(t),
{
}

/// Among the offsets that stay in the grid, those before the center (offset 13) lead
/// to lower rows, the center to the row itself and those after it to higher rows.
pub proof fn lemma_neighbor_order(n: int, i: int, t: int)
    requires
        n >= 1,
        0 <= i < grid_rows(n),
        0 <= t < 27,
        in_grid(n, i, t),
    ensures
        (neighbor(n, i, t) < i) == (t < 13),
        (neighbor(n, i, t) == i) == (t == 13),
{
    lemma_row_coordinates(n, i);
    lemma_offset_parts(t);
    let dx = off_x(t);
    let dy = off_y(t);
    let dz = off_z(t);
    let d = neighbor(n, i, t) - i;
    assert(d == dz * n * n + dy * n + dx) by (nonlinear_arith)
        requires
            d == neighbor(n, i, t) - i,
            neighbor(n, i, t) == (row_z(n, i) + dz) * n * n + (row_y(n, i) + dy) * n + (row_x(n, i) + dx),
            i == row_z(n, i) * n * n + row_y(n, i) * n + row_x(n, i),
    ;
    if n == 1 {
        assert(dx == 0 && dy == 0 && dz == 0);
    } else {
        assert(n * n >= 2 * n) by (nonlinear_arith)
            requires
                n >= 2,
        ;
        if dz == -1 {
            assert(d < 0) by (nonlinear_arith)
                requires
                    d == dz * n * n + dy * n + dx,
                    dz == -1,
                    -1 <= dy <= 1,
                    -1 <= dx <= 1,
                    n * n >= 2 * n,
                    n >= 2,
            ;
        } else if dz == 1 {
            assert(d > 0) by (nonlinear_arith)
                requires
                    d == dz * n * n + dy * n + dx,
                    dz == 1,
                    -1 <= dy <= 1,
                    -1 <= dx <= 1,
                    n * n >= 2 * n,
                    n >= 2,
            ;
        } else {
            assert(d == dy * n + dx) by (nonlinear_arith)
                requires
                    d == dz * n * n + dy * n + dx,
                    dz == 0,
            ;
            if dy == -1 {
                assert(d < 0) by (nonlinear_arith)
                    requires
                        d == dy * n + dx,
                        dy == -1,
                        dx <= 1,
                        n >= 2,
                ;
            } else if dy == 1 {
                assert(d > 0) by (nonlinear_arith)
                    requires
                        d == dy * n + dx,
                        dy == 1,
                        dx >= -1,
                        n >= 2,
                ;
            } else {
                assert(d == dx) by (nonlinear_arith)
                    requires
                        d == dy * n + dx,
                        dy == 0,
                ;
            }
        }
    }
}

/// The center offset always stays in the grid.
pub proof fn lemma_center_in_grid(n: int, i: int)
    requires
        n >= 1,
        0 <= i < grid_rows(n),
    ensures
        in_grid(n, i, 13),
        neighbor(n, i, 13) == i,
{
    lemma_row_coordinates(n, i);
    assert(off_x(13) == 0 && off_y(13) == 0 && off_z(13) == 0);
}

/// How the first `t` offsets of a row split: at most 13 lower neighbors, taken
/// before the center, at most 13 upper ones, taken after it, every one a row of the
/// grid, and together with the row itself they are the offsets that stay in the grid.
pub proof fn lemma_neighbor_lists(n: int, i: int, t: int)
    requires
        n >= 1,
        0 <= i < grid_rows(n),
        0 <= t <= 27,
    ensures
        lower_neighbors(n, i, t).len() <= (if t < 13 { t } else { 13 }),
        upper_neighbors(n, i, t).len() <= (if t <= 14 { 0 } else { t - 14 }),
        in_grid_count(n, i, t) == lower_neighbors(n, i, t).len() + upper_neighbors(n, i, t).len() + (
        if t > 13 {
            1int
        } else {
            0int
        }),
        forall|j: int|
            0 <= j < lower_neighbors(n, i, t).len() ==> 0 <= #[trigger] lower_neighbors(n, i, t)[j]
                < i,
        forall|j: int|
            0 <= j < upper_neighbors(n, i, t).len() ==> i < #[trigger] upper_neighbors(n, i, t)[j]
                < grid_rows(n),
    decreases t,
{
    if t > 0 {
        lemma_neighbor_lists(n, i, t - 1);
        if t - 1 == 13 {
            lemma_center_in_grid(n, i);
        }
        if in_grid(n, i, t - 1) {
            lemma_neighbor_order(n, i, t - 1);
            lemma_neighbor_is_row(n, i, t - 1);
        }
    }
}

/// The vector the kernel multiplies: 2 in every row of the grid, 0 in the slack
/// after it.
pub open spec fn twos(n: int, c: int) -> int {
    if 0 <= c < grid_rows(n) {
        2
    } else {
        0
    }
}

/// Row `i` of the stencil matrix times `twos`, over its first `s` slots.
pub open spec fn row_times_twos(n: int, i: int, s: int) -> int
    decreases s,
{
    if s <= 0 {
        0
    } else {
        row_times_twos(n, i, s - 1) + stencil_weight(n, i, s - 1) * twos(n, stencil_col(n, i, s - 1))
    }
}

/// What the result test expects in row `i` of the product: `2 * (27 - avail)`, `avail`
/// being the number of stencil points of the row inside the grid.
pub open spec fn expected_row(n: int, i: int) -> int {
    2 * (27 - in_grid_count(n, i, 27))
}

/// The first `s` slots of row `i` times `twos`, in closed form.
proof fn lemma_row_times_twos_prefix(n: int, i: int, s: int)
    requires
        n >= 1,
        0 <= i < grid_rows(n),
        0 <= s <= row_width(),
    ensures
        ({
            let l = lower_neighbors(n, i, 27).len() as int;
            let u = upper_neighbors(n, i, 27).len() as int;
            row_times_twos(n, i, s) == if s <= l {
                -2 * s
            } else if s <= 16 {
                -2 * l
            } else if s <= 17 + u {
                -2 * l + 52 - 2 * (s - 17)
            } else {
                -2 * l + 52 - 2 * u
            }
        }),
    decreases s,
{
    lemma_neighbor_lists(n, i, 27);
    if s > 0 {
        lemma_row_times_twos_prefix(n, i, s - 1);
        let lo = lower_neighbors(n, i, 27);
        let up = upper_neighbors(n, i, 27);
        let p = s - 1;
        if p < lo.len() {
            assert(0 <= lo[p] < i);
        } else if p > 16 && p - 17 < up.len() {
            assert(i < up[p - 17] < grid_rows(n));
        }
    }
}

/// The result test expects what the stencil matrix gives: every row of the matrix times
/// the vector of twos is `expected_row`.
pub proof fn lemma_matrix_times_twos(n: int, i: int)
    requires
        n >= 1,
        0 <= i < grid_rows(n),
    ensures
        row_times_twos(n, i, row_width()) == expected_row(n, i),
{
    lemma_row_times_twos_prefix(n, i, row_width());
    lemma_neighbor_lists(n, i, 27);
}

/// How many of the coordinates `c - 1`, `c`, `c + 1` lie in `0..n`, for `c` in `0..n`:
/// 1 on a grid of one point per axis, 2 at either end of an axis, 3 inside.
pub open spec fn axis_span(n: int, c: int) -> int {
    (if c > 0 {
        1int
    } else {
        0int
    }) + 1 + (if c < n - 1 {
        1int
    } else {
        0int
    })
}

/// The grid point `(x, y, z)`, with `x` the fastest-varying coordinate, and its
/// coordinates: `row_x`, `row_y` and `row_z` give them back.
proof fn lemma_point_coordinates(n: int, x: int, y: int, z: int)
    requires
        n >= 1,
        0 <= x < n,
        0 <= y < n,
        0 <= z < n,
    ensures
        0 <= x + y * n + z * n * n < grid_rows(n),
        row_x(n, x + y * n + z * n * n) == x,
        row_y(n, x + y * n + z * n * n) == y,
        row_z(n, x + y * n + z * n * n) == z,
{
    let i = x + y * n + z * n * n;
    let q = y + z * n;
    assert(i == q * n + x) by (nonlinear_arith)
        requires
            i == x + y * n + z * n * n,
            q == y + z * n,
    ;
    assert(0 <= i < n * n * n) by (nonlinear_arith)
        requires
            i == x + y * n + z * n * n,
            0 <= x < n,
            0 <= y < n,
            0 <= z < n,
    ;
    vstd::arithmetic::div_mod::lemma_fundamental_div_mod_converse(i, n, q, x);
    vstd::arithmetic::div_mod::lemma_fundamental_div_mod_converse(q, n, z, y);
}

/// The 27 offsets are the steps `(dx, dy, dz)` in `{-1, 0, 1}^3`: the point `(x, y, z)`
/// moved by one is a point of the stencil exactly when each moved coordinate stays in
/// `0..n`, and it is then the row `x + dx + (y + dy) * n + (z + dz) * n * n`. This holds
/// for every grid size `n`.
pub proof fn lemma_stencil_offsets(n: int, x: int, y: int, z: int, dx: int, dy: int, dz: int)
    requires
        n >= 1,
        0 <= x < n,
        0 <= y < n,
        0 <= z < n,
        -1 <= dx <= 1,
        -1 <= dy <= 1,
        -1 <= dz <= 1,
    ensures
        ({
            let i = x + y * n + z * n * n;
            let t = 9 * (dz + 1) + 3 * (dy + 1) + (dx + 1);
            &&& 0 <= t < 27
            &&& in_grid(n, i, t) <==> (0 <= x + dx < n && 0 <= y + dy < n && 0 <= z + dz < n)
            &&& neighbor(n, i, t) == (x + dx) + (y + dy) * n + (z + dz) * n * n
        }),
{
    lemma_point_coordinates(n, x, y, z);
    let t = 9 * (dz + 1) + 3 * (dy + 1) + (dx + 1);
    assert(off_x(t) == dx && off_y(t) == dy && off_z(t) == dz);
}

/// The number of stencil points of a row that lie in the grid is the product of the
/// spans of its three axes, on every grid: 8 at a corner, 27 inside. So the row has
/// one fewer neighbor than that, and the result test expects `2 * (27 - product)`.
pub proof fn lemma_stencil_point_count(n: int, x: int, y: int, z: int)
    requires
        n >= 1,
        0 <= x < n,
        0 <= y < n,
        0 <= z < n,
    ensures
        ({
            let i = x + y * n + z * n * n;
            let points = axis_span(n, x) * axis_span(n, y) * axis_span(n, z);
            &&& in_grid_count(n, i, 27) == points
            &&& lower_neighbors(n, i, 27).len() + upper_neighbors(n, i, 27).len() + 1 == points
            &&& expected_row(n, i) == 2 * (27 - points)
        }),
{
    let i = x + y * n + z * n * n;
    lemma_point_coordinates(n, x, y, z);
    lemma_neighbor_lists(n, i, 27);
    lemma_count_by_lines(n, i, 9);
    reveal_with_fuel(line_count, 10);
    let sx = axis_span(n, x);
    let sy = axis_span(n, y);
    let sz = axis_span(n, z);
    assert(line_count(n, y, z, 9) == sy * sz) by {
        assert(line_count(n, y, z, 3) == (if z > 0 { sy } else { 0 }));
        assert(line_count(n, y, z, 6) == line_count(n, y, z, 3) + sy);
        assert(line_count(n, y, z, 9) == line_count(n, y, z, 6) + (if z < n - 1 { sy } else { 0 }));
        assert(sz == (if z > 0 { 1int } else { 0int }) + 1 + (if z < n - 1 { 1int } else { 0int }));
        assert(sy * sz == (if z > 0 { sy } else { 0 }) + sy + (if z < n - 1 { sy } else { 0 }))
            by (nonlinear_arith)
            requires
                sz == (if z > 0 { 1int } else { 0int }) + 1 + (if z < n - 1 { 1int } else { 0int }),
        ;
    }
    assert(sx * (sy * sz) == sx * sy * sz) by (nonlinear_arith);
}

/// The in-grid points among the first `j` lines of the stencil: the span of the x
/// axis for each line that stays in the grid along y and z.
proof fn lemma_count_by_lines(n: int, i: int, j: int)
    requires
        n >= 1,
        0 <= i < grid_rows(n),
        0 <= j <= 9,
    ensures
        in_grid_count(n, i, 3 * j) == axis_span(n, row_x(n, i)) * line_count(
            n,
            row_y(n, i),
            row_z(n, i),
            j,
        ),
    decreases j,
{
    if j > 0 {
        let (x, y, z) = (row_x(n, i), row_y(n, i), row_z(n, i));
        lemma_count_by_lines(n, i, j - 1);
        lemma_stencil_line(n, i, j - 1);
        let prev = line_count(n, y, z, j - 1);
        let step: int = if line_in_grid(n, y, z, j - 1) {
            1
        } else {
            0
        };
        assert(line_count(n, y, z, j) == prev + step);
        assert(axis_span(n, x) * (prev + step) == axis_span(n, x) * prev + axis_span(n, x) * step)
            by (nonlinear_arith);
    }
}

/// Line `j` (`0 <= j < 9`) of the stencil, the offsets `3 * j` to `3 * j + 2`, which
/// share their y and z steps, stays in the grid along y and z.
pub open spec fn line_in_grid(n: int, y: int, z: int, j: int) -> bool {
    0 <= y + (j % 3 - 1) < n && 0 <= z + (j / 3 - 1) < n
}

/// How many of the first `j` lines of the stencil stay in the grid along y and z.
pub open spec fn line_count(n: int, y: int, z: int, j: int) -> int
    decreases j,
{
    if j <= 0 {
        0
    } else {
        line_count(n, y, z, j - 1) + if line_in_grid(n, y, z, j - 1) {
            1int
        } else {
            0int
        }
    }
}

/// A line of the stencil adds the span of the x axis to the count of in-grid points
/// where it stays in the grid along y and z, and nothing elsewhere.
proof fn lemma_stencil_line(n: int, i: int, j: int)
    requires
        n >= 1,
        0 <= i < grid_rows(n),
        0 <= j < 9,
    ensures
        in_grid_count(n, i, 3 * j + 3) == in_grid_count(n, i, 3 * j) + if line_in_grid(
            n,
            row_y(n, i),
            row_z(n, i),
            j,
        ) {
            axis_span(n, row_x(n, i))
        } else {
            0int
        },
{
    lemma_row_coordinates(n, i);
    reveal_with_fuel(in_grid_count, 4);
    let t = 3 * j;
    assert(off_x(t) == -1 && off_x(t + 1) == 0 && off_x(t + 2) == 1);
    assert(off_y(t) == j % 3 - 1 && off_y(t + 1) == j % 3 - 1 && off_y(t + 2) == j % 3 - 1);
    assert(off_z(t) == j / 3 - 1 && off_z(t + 1) == j / 3 - 1 && off_z(t + 2) == j / 3 - 1);
}

/// A lower neighbor found at offset `t` stays in the list of lower neighbors of every
/// longer prefix of offsets.
proof fn lemma_lower_holds(n: int, i: int, t: int, u: int)
    requires
        0 <= t < u,
        in_grid(n, i, t),
        neighbor(n, i, t) < i,
    ensures
        exists|k: int|
            0 <= k < lower_neighbors(n, i, u).len() && #[trigger] lower_neighbors(n, i, u)[k]
                == neighbor(n, i, t),
    decreases u,
{
    if u - 1 == t {
        let k = lower_neighbors(n, i, t).len() as int;
        assert(lower_neighbors(n, i, u)[k] == neighbor(n, i, t));
    } else {
        lemma_lower_holds(n, i, t, u - 1);
        let k = choose|k: int|
            0 <= k < lower_neighbors(n, i, u - 1).len() && #[trigger] lower_neighbors(n, i, u - 1)[k]
                == neighbor(n, i, t);
        assert(lower_neighbors(n, i, u)[k] == neighbor(n, i, t));
    }
}

/// An upper neighbor found at offset `t` stays in the list of upper neighbors of every
/// longer prefix of offsets.
proof fn lemma_upper_holds(n: int, i: int, t: int, u: int)
    requires
        0 <= t < u,
        in_grid(n, i, t),
        neighbor(n, i, t) > i,
    ensures
        exists|k: int|
            0 <= k < upper_neighbors(n, i, u).len() && #[trigger] upper_neighbors(n, i, u)[k]
                == neighbor(n, i, t),
    decreases u,
{
    if u - 1 == t {
        let k = upper_neighbors(n, i, t).len() as int;
        assert(upper_neighbors(n, i, u)[k] == neighbor(n, i, t));
    } else {
        lemma_upper_holds(n, i, t, u - 1);
        let k = choose|k: int|
            0 <= k < upper_neighbors(n, i, u - 1).len() && #[trigger] upper_neighbors(n, i, u - 1)[k]
                == neighbor(n, i, t);
        assert(upper_neighbors(n, i, u)[k] == neighbor(n, i, t));
    }
}

/// Every grid point moved by a step `(dx, dy, dz)` other than `(0, 0, 0)` that stays in
/// the grid is a neighbor of the row: some off-diagonal slot of the row holds its
/// column with the value -1. The diagonal slot holds the row itself with 26.
pub proof fn lemma_stencil_neighbors_entered(
    n: int,
    x: int,
    y: int,
    z: int,
    dx: int,
    dy: int,
    dz: int,
)
    requires
        n >= 1,
        0 <= x < n,
        0 <= y < n,
        0 <= z < n,
        -1 <= dx <= 1,
        -1 <= dy <= 1,
        -1 <= dz <= 1,
        dx != 0 || dy != 0 || dz != 0,
        0 <= x + dx < n,
        0 <= y + dy < n,
        0 <= z + dz < n,
    ensures
        ({
            let i = x + y * n + z * n * n;
            let moved = (x + dx) + (y + dy) * n + (z + dz) * n * n;
            &&& exists|s: int|
                0 <= s < row_width() && s != diagonal_slot() && #[trigger] stencil_col(n, i, s)
                    == moved && stencil_weight(n, i, s) == -1
            &&& stencil_col(n, i, diagonal_slot()) == i
            &&& stencil_weight(n, i, diagonal_slot()) == 26
        }),
{
    let i = x + y * n + z * n * n;
    let t = 9 * (dz + 1) + 3 * (dy + 1) + (dx + 1);
    lemma_stencil_offsets(n, x, y, z, dx, dy, dz);
    lemma_point_coordinates(n, x, y, z);
    lemma_neighbor_order(n, i, t);
    lemma_neighbor_lists(n, i, 27);
    let lo = lower_neighbors(n, i, 27);
    let up = upper_neighbors(n, i, 27);
    if t < 13 {
        lemma_lower_holds(n, i, t, 27);
        let k = choose|k: int| 0 <= k < lo.len() && #[trigger] lo[k] == neighbor(n, i, t);
        assert(stencil_col(n, i, k) == neighbor(n, i, t) && stencil_weight(n, i, k) == -1);
    } else {
        assert(t != 13);
        lemma_upper_holds(n, i, t, 27);
        let k = choose|k: int| 0 <= k < up.len() && #[trigger] up[k] == neighbor(n, i, t);
        let s = 17 + k;
        assert(stencil_col(n, i, s) == neighbor(n, i, t) && stencil_weight(n, i, s) == -1);
    }
}

/// The input vector of the result test: 2 in every row of the grid, 0 in the slack.
pub open spec fn twos_vector(n: int) -> Seq<int> {
    Seq::new((grid_rows(n) + slack()) as nat, |j: int| twos(n, j))
}

/// Row `i` of an ELLPACK matrix held in `cols` and `weights`, times `x`, over its
/// first `s` slots.
pub open spec fn ell_row_product(cols: Seq<u32>, weights: Seq<i32>, x: Seq<int>, i: int, s: int) -> int
    decreases s,
{
    if s <= 0 {
        0
    } else {
        ell_row_product(cols, weights, x, i, s - 1) + weights[slot_index(i, s - 1)] * x[cols[slot_index(
            i,
            s - 1,
        )] as int]
    }
}

/// A kernel that computes the product right passes the result test: for buffers
/// holding the stencil matrix (as `build_stencil_matrix` fills them) and the vector
/// of twos, every row of the ELLPACK product is what `spmv_expected` expects.
pub proof fn lemma_ell_product_is_expected(n: int, cols: Seq<u32>, weights: Seq<i32>, i: int)
    requires
        n >= 1,
        0 <= i < grid_rows(n),
        cols.len() == matrix_len(n),
        weights.len() == matrix_len(n),
        forall|r: int, s: int|
            0 <= r < grid_rows(n) && 0 <= s < row_width() ==> cols[#[trigger] slot_index(r, s)]
                == stencil_col(n, r, s) && weights[slot_index(r, s)] == stencil_weight(n, r, s),
    ensures
        ell_row_product(cols, weights, twos_vector(n), i, row_width()) == expected_row(n, i),
{
    lemma_ell_prefix(n, cols, weights, i, row_width());
    lemma_matrix_times_twos(n, i);
}

/// The buffers' product agrees with the stencil's, slot by slot.
proof fn lemma_ell_prefix(n: int, cols: Seq<u32>, weights: Seq<i32>, i: int, s: int)
    requires
        n >= 1,
        0 <= i < grid_rows(n),
        0 <= s <= row_width(),
        cols.len() == matrix_len(n),
        weights.len() == matrix_len(n),
        forall|r: int, t: int|
            0 <= r < grid_rows(n) && 0 <= t < row_width() ==> cols[#[trigger] slot_index(r, t)]
                == stencil_col(n, r, t) && weights[slot_index(r, t)] == stencil_weight(n, r, t),
    ensures
        ell_row_product(cols, weights, twos_vector(n), i, s) == row_times_twos(n, i, s),
    decreases s,
{
    if s > 0 {
        lemma_ell_prefix(n, cols, weights, i, s - 1);
        lemma_neighbor_lists(n, i, 27);
        let c = stencil_col(n, i, s - 1);
        assert(cols[slot_index(i, s - 1)] == c);
        assert(0 <= c < grid_rows(n)) by {
            let lo = lower_neighbors(n, i, 27);
            let up = upper_neighbors(n, i, 27);
            if s - 1 < lo.len() {
                assert(0 <= lo[s - 1] < i);
            } else if s - 1 > 16 && s - 1 - 17 < up.len() {
                assert(i < up[s - 1 - 17] < grid_rows(n));
            }
        }
        assert(twos_vector(n)[c] == twos(n, c));
    }
}

/// The value the output vector holds before the result test's call.
pub open spec fn output_preset() -> int {
    999
}

/// The number of rows, as an index type; the grid must fit.
pub fn spmv_row_count(n: u32) -> (rows: usize)
    requires
        grid_fits(n as int),
    ensures
        rows == grid_rows(n as int),
{
    let nu = n as usize;
    assert(0 <= nu * nu <= grid_rows(n as int)) by (nonlinear_arith)
        requires
            nu == n,
    ;
    nu * nu * nu
}

/// The input vector of the result test, `twos_vector(n)`: 2 in every row, 0 in the
/// slack after the last row.
pub fn spmv_input_vector(n: u32) -> (x: Vec<i32>)
    requires
        grid_fits(n as int),
    ensures
        x@.len() == twos_vector(n as int).len(),
        forall|j: int| 0 <= j < x@.len() ==> x@[j] == twos_vector(n as int)[j],
{
    let rows = spmv_row_count(n);
    let len = rows + 1024;
    let mut x: Vec<i32> = Vec::new();
    let mut j: usize = 0;
    while j < len
        invariant
            rows == grid_rows(n as int),
            len == rows + 1024,
            j <= len,
            x@.len() == j,
            forall|p: int| 0 <= p < j ==> x@[p] == twos(n as int, p),
        decreases len - j,
    {
        x.push(if j < rows {
            2
        } else {
            0
        });
        j = j + 1;
    }
    x
}

/// The output vector of the result test before the call: `output_preset()` in every
/// row, 0 in the slack after the last row.
pub fn spmv_output_vector(n: u32) -> (y: Vec<i32>)
    requires
        grid_fits(n as int),
    ensures
        y@.len() == grid_rows(n as int) + slack(),
        forall|j: int|
            0 <= j < y@.len() ==> y@[j] == (if j < grid_rows(n as int) {
                output_preset()
            } else {
                0
            }),
{
    let rows = spmv_row_count(n);
    let len = rows + 1024;
    let mut y: Vec<i32> = Vec::new();
    let mut j: usize = 0;
    while j < len
        invariant
            rows == grid_rows(n as int),
            len == rows + 1024,
            j <= len,
            y@.len() == j,
            forall|p: int| 0 <= p < j ==> y@[p] == (if p < rows { output_preset() } else { 0 }),
        decreases len - j,
    {
        y.push(if j < rows {
            999
        } else {
            0
        });
        j = j + 1;
    }
    y
}

/// Decides `grid_fits`.
pub fn spmv_grid_fits(n: u32) -> (ok: bool)
    ensures
        ok == grid_fits(n as int),
{
    if n > 1290 {
        assert(grid_rows(n as int) > i32::MAX) by (nonlinear_arith)
            requires
                n > 1290,
        ;
        return false;
    }
    let n64 = n as u64;
    assert(n64 * n64 <= 1290 * 1290) by (nonlinear_arith)
        requires
            n64 <= 1290,
    ;
    assert(n64 * n64 * n64 <= 1290 * 1290 * 1290) by (nonlinear_arith)
        requires
            n64 * n64 <= 1290 * 1290,
            n64 <= 1290,
    ;
    let rows = n64 * n64 * n64;
    if rows > 2147483647 {
        return false;
    }
    rows * 32 + 1024 <= usize::MAX as u64
}

/// Enters row `i` of the stencil matrix into `cols` and `weights`, whose slots of row
/// `i` hold 0; nothing else changes.
fn enter_row(cols: &mut Vec<u32>, weights: &mut Vec<i32>, n: u32, i: usize)
    requires
        grid_fits(n as int),
        n >= 1,
        0 <= i < grid_rows(n as int),
        old(cols)@.len() == matrix_len(n as int),
        old(weights)@.len() == matrix_len(n as int),
        forall|s: int| 0 <= s < row_width() ==> old(cols)@[#[trigger] slot_index(i as int, s)] == 0,
        forall|s: int| 0 <= s < row_width() ==> old(weights)@[#[trigger] slot_index(i as int, s)] == 0,
    ensures
        final(cols)@.len() == matrix_len(n as int),
        final(weights)@.len() == matrix_len(n as int),
        forall|s: int|
            0 <= s < row_width() ==> final(cols)@[#[trigger] slot_index(i as int, s)] == stencil_col(
                n as int,
                i as int,
                s,
            ),
        forall|s: int|
            0 <= s < row_width() ==> final(weights)@[#[trigger] slot_index(i as int, s)]
                == stencil_weight(n as int, i as int, s),
        forall|j: int|
            0 <= j < matrix_len(n as int) && !(i * row_width() <= j < i * row_width() + row_width())
                ==> final(cols)@[j] == old(cols)@[j] && final(weights)@[j] == old(weights)@[j],
{
    let ghost ni_ = n as int;
    let ghost ii = i as int;
    let nu = n as usize;
    let x = i % nu;
    let y = (i / nu) % nu;
    let z = i / nu / nu;
    proof {
        lemma_row_coordinates(ni_, ii);
    }
    let n64 = n as i64;
    let i64_i = i as i64;
    let base = i * 32;
    let mut lower: usize = 0;
    let mut upper: usize = 0;
    let mut t: usize = 0;
    while t < 27
        invariant
            grid_fits(ni_),
            ni_ == n,
            ii == i,
            n >= 1,
            0 <= i < grid_rows(ni_),
            nu == n,
            n64 == n,
            i64_i == i,
            base == i * 32,
            x == row_x(ni_, ii),
            y == row_y(ni_, ii),
            z == row_z(ni_, ii),
            0 <= x < n,
            0 <= y < n,
            0 <= z < n,
            t <= 27,
            lower == lower_neighbors(ni_, ii, t as int).len(),
            upper == upper_neighbors(ni_, ii, t as int).len(),
            cols@.len() == matrix_len(ni_),
            weights@.len() == matrix_len(ni_),
            forall|s: int|
                0 <= s < row_width() ==> cols@[#[trigger] slot_index(ii, s)] == partial_col(
                    ni_,
                    ii,
                    t as int,
                    s,
                ),
            forall|s: int|
                0 <= s < row_width() ==> weights@[#[trigger] slot_index(ii, s)] == partial_weight(
                    ni_,
                    ii,
                    t as int,
                    s,
                ),
            forall|j: int|
                0 <= j < matrix_len(ni_) && !(ii * row_width() <= j < ii * row_width() + row_width())
                    ==> cols@[j] == old(cols)@[j] && weights@[j] == old(weights)@[j],
        decreases 27 - t,
    {
        proof {
            lemma_neighbor_lists(ni_, ii, t as int);
            lemma_neighbor_lists(ni_, ii, t as int + 1);
            if t == 13 {
                lemma_center_in_grid(ni_, ii);
            }
            assert(i * 32 + 32 <= matrix_len(ni_)) by (nonlinear_arith)
                requires
                    i < grid_rows(ni_),
                    matrix_len(ni_) == grid_rows(ni_) * 32 + 1024,
            ;
        }
        let dx: i64 = (t % 3) as i64 - 1;
        let dy: i64 = ((t / 3) % 3) as i64 - 1;
        let dz: i64 = (t / 9) as i64 - 1;
        let nx = x as i64 + dx;
        let ny = y as i64 + dy;
        let nz = z as i64 + dz;
        let ghost before_c = cols@;
        let ghost before_w = weights@;
        if 0 <= nx && nx < n64 && 0 <= ny && ny < n64 && 0 <= nz && nz < n64 {
            assert(in_grid(ni_, ii, t as int));
            proof {
                lemma_neighbor_order(ni_, ii, t as int);
                lemma_neighbor_is_row(ni_, ii, t as int);
                assert(0 <= nz * n64 <= n64 * n64) by (nonlinear_arith)
                    requires
                        0 <= nz < n64,
                ;
                assert(n64 * n64 <= grid_rows(ni_)) by (nonlinear_arith)
                    requires
                        n64 >= 1,
                        n64 == ni_,
                ;
                assert(0 <= nz * n64 * n64 <= grid_rows(ni_)) by (nonlinear_arith)
                    requires
                        0 <= nz < n64,
                        grid_rows(ni_) == n64 * n64 * n64,
                ;
                assert(0 <= ny * n64 <= grid_rows(ni_)) by (nonlinear_arith)
                    requires
                        0 <= ny < n64,
                        n64 * n64 <= grid_rows(ni_),
                ;
            }
            let nb = nz * n64 * n64 + ny * n64 + nx;
            assert(nb == neighbor(ni_, ii, t as int));
            if nb < i64_i {
                cols.set(base + lower, nb as u32);
                weights.set(base + lower, -1);
                lower = lower + 1;
            } else if nb == i64_i {
                cols.set(base + 16, i as u32);
                weights.set(base + 16, 26);
            } else {
                cols.set(base + 17 + upper, nb as u32);
                weights.set(base + 17 + upper, -1);
                upper = upper + 1;
            }
        }
        proof {
            assert forall|s: int| 0 <= s < row_width() implies cols@[#[trigger] slot_index(ii, s)]
                == partial_col(ni_, ii, t + 1, s) && weights@[slot_index(ii, s)] == partial_weight(
                ni_,
                ii,
                t + 1,
                s,
            ) by {
                assert(before_c[slot_index(ii, s)] == partial_col(ni_, ii, t as int, s));
                assert(before_w[slot_index(ii, s)] == partial_weight(ni_, ii, t as int, s));
            }
        }
        t = t + 1;
    }
}

/// The stencil matrix in ELLPACK form: column indices and values, `row_width()`
/// slots per row followed by `slack()` unused elements; every unused element is 0.
/// Values are the integers -1 (a neighbor) and 26 (the diagonal).
pub fn build_stencil_matrix(n: u32) -> (cw: (Vec<u32>, Vec<i32>))
    requires
        grid_fits(n as int),
    ensures
        cw.0@.len() == matrix_len(n as int),
        cw.1@.len() == matrix_len(n as int),
        forall|i: int, s: int|
            0 <= i < grid_rows(n as int) && 0 <= s < row_width() ==> cw.0@[#[trigger] slot_index(i, s)]
                == stencil_col(n as int, i, s) && cw.1@[slot_index(i, s)] == stencil_weight(
                n as int,
                i,
                s,
            ),
        forall|j: int|
            grid_rows(n as int) * row_width() <= j < matrix_len(n as int) ==> cw.0@[j] == 0
                && cw.1@[j] == 0,
{
    let ghost nn = n as int;
    let nu = n as usize;
    assert(0 <= nu * nu <= grid_rows(nn)) by (nonlinear_arith)
        requires
            nu == nn,
            nn >= 0,
    ;
    let rows = nu * nu * nu;
    let len = rows * 32 + 1024;
    let mut cols: Vec<u32> = Vec::new();
    let mut weights: Vec<i32> = Vec::new();
    let mut j: usize = 0;
    while j < len
        invariant
            len == matrix_len(nn),
            j <= len,
            cols@.len() == j,
            weights@.len() == j,
            forall|p: int| 0 <= p < j ==> cols@[p] == 0 && weights@[p] == 0,
        decreases len - j,
    {
        cols.push(0);
        weights.push(0);
        j = j + 1;
    }
    let mut i: usize = 0;
    while i < rows
        invariant
            grid_fits(nn),
            nn == n,
            rows == grid_rows(nn),
            len == matrix_len(nn),
            i <= rows,
            cols@.len() == len,
            weights@.len() == len,
            forall|r: int, s: int|
                0 <= r < i && 0 <= s < row_width() ==> cols@[#[trigger] slot_index(r, s)]
                    == stencil_col(nn, r, s) && weights@[slot_index(r, s)] == stencil_weight(nn, r, s),
            forall|p: int| i * row_width() <= p < len ==> cols@[p] == 0 && weights@[p] == 0,
        decreases rows - i,
    {
        let ghost before_c = cols@;
        let ghost before_w = weights@;
        proof {
            assert(nn >= 1) by (nonlinear_arith)
                requires
                    0 <= i < grid_rows(nn),
                    nn >= 0,
            ;
        }
        enter_row(&mut cols, &mut weights, n, i);
        proof {
            assert forall|r: int, s: int|
                0 <= r < i + 1 && 0 <= s < row_width() implies cols@[#[trigger] slot_index(r, s)]
                == stencil_col(nn, r, s) && weights@[slot_index(r, s)] == stencil_weight(nn, r, s) by {
                if r < i {
                    assert(before_c[slot_index(r, s)] == stencil_col(nn, r, s));
                    assert(before_w[slot_index(r, s)] == stencil_weight(nn, r, s));
                }
            }
        }
        i = i + 1;
    }
    (cols, weights)
}

/// What the result test expects in each row of the product of the stencil matrix with the
/// vector of twos.
pub fn spmv_expected(n: u32) -> (e: Vec<i32>)
    requires
        grid_fits(n as int),
    ensures
        e@.len() == grid_rows(n as int),
        forall|i: int| 0 <= i < grid_rows(n as int) ==> e@[i] == expected_row(n as int, i),
{
    let ghost nn = n as int;
    let nu = n as usize;
    assert(0 <= nu * nu <= grid_rows(nn)) by (nonlinear_arith)
        requires
            nu == nn,
            nn >= 0,
    ;
    let rows = nu * nu * nu;
    let mut e: Vec<i32> = Vec::new();
    let mut i: usize = 0;
    while i < rows
        invariant
            nn == n,
            nu == n,
            rows == grid_rows(nn),
            i <= rows,
            e@.len() == i,
            forall|r: int| 0 <= r < i ==> e@[r] == expected_row(nn, r),
        decreases rows - i,
    {
        proof {
            assert(nn >= 1) by (nonlinear_arith)
                requires
                    0 <= i < grid_rows(nn),
                    nn >= 0,
            ;
            lemma_row_coordinates(nn, i as int);
        }
        let x = i % nu;
        let y = (i / nu) % nu;
        let z = i / nu / nu;
        let n64 = n as i64;
        let mut avail: i32 = 0;
        let mut t: usize = 0;
        while t < 27
            invariant
                nn >= 1,
                n64 == nn,
                x == row_x(nn, i as int),
                y == row_y(nn, i as int),
                z == row_z(nn, i as int),
                0 <= x < nn,
                0 <= y < nn,
                0 <= z < nn,
                t <= 27,
                avail == in_grid_count(nn, i as int, t as int),
                0 <= avail <= t,
            decreases 27 - t,
        {
            let nx = x as i64 + ((t % 3) as i64 - 1);
            let ny = y as i64 + (((t / 3) % 3) as i64 - 1);
            let nz = z as i64 + ((t / 9) as i64 - 1);
            if 0 <= nx && nx < n64 && 0 <= ny && ny < n64 && 0 <= nz && nz < n64 {
                avail = avail + 1;
            }
            t = t + 1;
        }
        e.push(2 * (27 - avail));
        i = i + 1;
    }
    e
}

/// Lengths of the buffers of an SpMV run.
#[derive(Debug, Clone, Copy, PartialEq, Eq, Structural)]
pub struct SpmvBufferSizes {
    /// Column indices and values: `row_width()` slots per row, then the slack.
    pub matrix: usize,
    /// The input and output vectors: one element per row, then the slack.
    pub vector: usize,
    /// The kernel's scratch space.
    pub scratch: usize,
}

/// The buffer lengths of an SpMV run on an `n` x `n` x `n` grid.
pub fn spmv_buffer_sizes(n: u32) -> (sz: SpmvBufferSizes)
    requires
        grid_fits(n as int),
    ensures
        sz.matrix == matrix_len(n as int),
        sz.vector == grid_rows(n as int) + slack(),
        sz.scratch == 64,
{
    let nu = n as usize;
    assert(0 <= nu * nu <= grid_rows(n as int)) by (nonlinear_arith)
        requires
            nu == n,
    ;
    let rows = nu * nu * nu;
    SpmvBufferSizes { matrix: rows * 32 + 1024, vector: rows + 1024, scratch: 64 }
}

/// The number of rows, `n * n * n`.
pub fn spmv_rows(n: u32) -> (r: u128)
    ensures
        r == grid_rows(n as int),
{
    let n128 = n as u128;
    assert(0 <= n128 * n128 <= 0x1_0000_0000 * 0x1_0000_0000) by (nonlinear_arith)
        requires
            n128 <= 0xffff_ffff,
    ;
    assert(0 <= n128 * n128 * n128 <= 0x1_0000_0000 * 0x1_0000_0000 * 0x1_0000_0000) by (nonlinear_arith)
        requires
            n128 <= 0xffff_ffff,
            0 <= n128 * n128 <= 0x1_0000_0000 * 0x1_0000_0000,
    ;
    n128 * n128 * n128
}

} // verus!
