//! Tiled output-write step of a matrix multiplication kernel.
//!
//! One unit of work owns an M-by-N tile of results (row-major in flat
//! storage) and writes it into a strided output buffer at its (row, col)
//! placement. Two axes of variation are fixed at kernel-specialization time:
//! whether row and column bounds must be checked at run time, and the width
//! of vectorized stores. A row or lane beyond the output's true extent is
//! never written: absent writes, not wrong writes.

use vstd::prelude::*;
use vstd::arithmetic::div_mod::lemma_fundamental_div_mod;
use vstd::arithmetic::mul::lemma_mul_inequality;

verus! {

/// Placement of one unit's tile within the output: the rows and columns
/// skipped by earlier work-groups plus the unit's own offset inside its
/// group.
pub struct Coordinates {
    /// Row offset of the unit within its work-group's block.
    pub unit_row: usize,
    /// Column offset of the unit within its work-group's block.
    pub unit_col: usize,
    /// Rows covered by preceding work-groups.
    pub skip_row: usize,
    /// Columns covered by preceding work-groups.
    pub skip_col: usize,
}

/// Kernel-specialization choices, resolved before dispatch, never per
/// invocation.
#[derive(Clone, Copy)]
pub struct TileConfig {
    /// Edge length of the square tile each unit writes.
    pub tile_size: usize,
    /// Whether the tile may overhang the bottom edge of the output, so the
    /// row loop must be clamped at run time.
    pub check_m_bounds: bool,
    /// Whether the tile may overhang the right edge of the output, so the
    /// column loop must be clamped at run time.
    pub check_n_bounds: bool,
    /// Whether fully static loops are unrolled; a performance choice with no
    /// effect on what is written.
    pub unroll: bool,
}

/// The output of the kernel: flat storage together with the metadata a
/// device tensor carries — true extents of the two trailing dimensions, the
/// row stride, and the width of vectorized stores.
pub struct OutputTensor {
    /// Flat storage of scalar elements.
    pub data: Vec<i64>,
    /// True extent of the row dimension.
    pub extent_m: usize,
    /// True extent of the column dimension.
    pub extent_n: usize,
    /// Flat distance between the starts of consecutive rows.
    pub stride_row: usize,
    /// How many scalar lanes one store writes.
    pub vectorization: usize,
}

/// The smaller of two values.
pub open spec fn min_int(a: int, b: int) -> int {
    if a <= b {
        a
    } else {
        b
    }
}

/// The output's metadata addresses its storage: every cell of the
/// `extent_m`-by-`extent_n` region starting at `offset` lies inside `data`.
pub open spec fn out_wf(out: OutputTensor, offset: int) -> bool {
    &&& out.vectorization >= 1
    &&& out.extent_n <= out.stride_row
    &&& offset + out.extent_m * out.stride_row <= out.data@.len()
}

/// How many tile rows a unit placed at `row` actually writes.
pub open spec fn rows_written(check_m: bool, extent_m: int, row: int, tile: int) -> int {
    if check_m {
        if extent_m > row {
            min_int(extent_m - row, tile)
        } else {
            0
        }
    } else {
        tile
    }
}

/// How many tile columns a unit placed at `col` actually writes: only whole
/// vector-width groups that fit before the column bound.
pub open spec fn cols_written(check_n: bool, extent_n: int, col: int, tile: int, v: int) -> int {
    if check_n {
        if extent_n > col {
            (min_int(extent_n - col, tile) / v) * v
        } else {
            0
        }
    } else {
        tile
    }
}

/// Written columns never exceed the tile edge, and never cross the column
/// bound: writes beyond the output's true extent are absent, not clamped.
pub proof fn lemma_cols_written_bound(check_n: bool, extent_n: int, col: int, tile: int, v: int)
    requires
        v >= 1,
        tile >= 1,
        !check_n ==> col + tile <= extent_n,
    ensures
        0 <= cols_written(check_n, extent_n, col, tile, v) <= tile,
        cols_written(check_n, extent_n, col, tile, v) > 0 ==> col + cols_written(check_n,
            extent_n, col, tile, v) <= extent_n,
{
    if check_n && extent_n > col {
        let reads = min_int(extent_n - col, tile);
        assert(0 <= (reads / v) * v <= reads) by (nonlinear_arith)
            requires
                v >= 1,
                reads >= 0,
        ;
    }
}

/// Flat destination of tile cell (m, n) for a unit placed at (row, col).
pub open spec fn out_pos(row: int, col: int, offset: int, stride: int, m: int, n: int) -> int {
    (row + m) * stride + col + offset + n
}

/// Whether flat index `k` is a destination of the written region: some row
/// `m` and column `n` within the written rectangle map to it.
pub open spec fn in_written_region(
    k: int,
    row: int,
    col: int,
    offset: int,
    stride: int,
    rows: int,
    cols: int,
) -> bool {
    exists|m: int, n: int|
        0 <= m < rows && 0 <= n < cols && k == out_pos(row, col, offset, stride, m, n)
}

/// Write one unit's tile of results into the output tensor at the placement
/// its coordinates give, using the row stride the tensor carries.
pub fn write_to_output(
    out: &mut OutputTensor,
    results: &Vec<i64>,
    coordinates: Coordinates,
    offset_output: usize,
    config: TileConfig,
)
    requires
        out_wf(*old(out), offset_output as int),
        config.tile_size >= 1,
        config.tile_size as int % old(out).vectorization as int == 0,
        old(out).stride_row as int % old(out).vectorization as int == 0,
        coordinates.skip_row + coordinates.unit_row <= usize::MAX,
        coordinates.skip_col + coordinates.unit_col <= usize::MAX,
        (coordinates.skip_col + coordinates.unit_col + offset_output) as int % old(
            out,
        ).vectorization as int == 0,
        results@.len() >= config.tile_size * config.tile_size,
        !config.check_m_bounds ==> coordinates.skip_row + coordinates.unit_row
            + config.tile_size <= old(out).extent_m,
        !config.check_n_bounds ==> coordinates.skip_col + coordinates.unit_col
            + config.tile_size <= old(out).extent_n,
        config.tile_size == 1 ==> coordinates.skip_row + coordinates.unit_row < old(
            out,
        ).extent_m && coordinates.skip_col + coordinates.unit_col < old(out).extent_n,
        old(out).extent_m * old(out).stride_row + coordinates.skip_col + coordinates.unit_col
            + offset_output + config.tile_size <= usize::MAX,
    ensures
        final(out).extent_m == old(out).extent_m,
        final(out).extent_n == old(out).extent_n,
        final(out).stride_row == old(out).stride_row,
        final(out).vectorization == old(out).vectorization,
        final(out).data@.len() == old(out).data@.len(),
        ({
            let row = coordinates.skip_row + coordinates.unit_row;
            let col = coordinates.skip_col + coordinates.unit_col;
            let r = rows_written(config.check_m_bounds, old(out).extent_m as int, row as int,
                config.tile_size as int);
            let c = cols_written(config.check_n_bounds, old(out).extent_n as int, col as int,
                config.tile_size as int, old(out).vectorization as int);
            &&& forall|m: int, n: int|
                0 <= m < r && 0 <= n < c ==> final(out).data@[#[trigger] out_pos(row as int,
                    col as int, offset_output as int, old(out).stride_row as int, m, n)]
                    == results@[m * config.tile_size + n]
            &&& forall|k: int|
                0 <= k < final(out).data@.len() && !in_written_region(k, row as int, col as int,
                    offset_output as int, old(out).stride_row as int, r, c)
                    ==> #[trigger] final(out).data@[k] == old(out).data@[k]
        }),
{
    let row = coordinates.skip_row + coordinates.unit_row;
    let col = coordinates.skip_col + coordinates.unit_col;
    let out_stride_row = out.stride_row;
    write_results(out, results, row, col, offset_output, out_stride_row, config);
}

/// Write the whole tile at placement (row, col): a single scalar store when
/// the tile is one element wide, otherwise one row at a time, clamped to the
/// row bound when the specialization asks for it.
pub fn write_results(
    out: &mut OutputTensor,
    results: &Vec<i64>,
    row: usize,
    col: usize,
    offset_output: usize,
    out_stride_row: usize,
    config: TileConfig,
)
    requires
        out_wf(*old(out), offset_output as int),
        out_stride_row == old(out).stride_row,
        config.tile_size >= 1,
        config.tile_size as int % old(out).vectorization as int == 0,
        old(out).stride_row as int % old(out).vectorization as int == 0,
        (col + offset_output) as int % old(out).vectorization as int == 0,
        results@.len() >= config.tile_size * config.tile_size,
        !config.check_m_bounds ==> row + config.tile_size <= old(out).extent_m,
        !config.check_n_bounds ==> col + config.tile_size <= old(out).extent_n,
        config.tile_size == 1 ==> row < old(out).extent_m && col < old(out).extent_n,
        old(out).extent_m * old(out).stride_row + col + offset_output + config.tile_size
            <= usize::MAX,
    ensures
        final(out).extent_m == old(out).extent_m,
        final(out).extent_n == old(out).extent_n,
        final(out).stride_row == old(out).stride_row,
        final(out).vectorization == old(out).vectorization,
        final(out).data@.len() == old(out).data@.len(),
        ({
            let r = rows_written(config.check_m_bounds, old(out).extent_m as int, row as int,
                config.tile_size as int);
            let c = cols_written(config.check_n_bounds, old(out).extent_n as int, col as int,
                config.tile_size as int, old(out).vectorization as int);
            &&& forall|m: int, n: int|
                0 <= m < r && 0 <= n < c ==> final(out).data@[#[trigger] out_pos(row as int,
                    col as int, offset_output as int, old(out).stride_row as int, m, n)]
                    == results@[m * config.tile_size + n]
            &&& forall|k: int|
                0 <= k < final(out).data@.len() && !in_written_region(k, row as int, col as int,
                    offset_output as int, old(out).stride_row as int, r, c)
                    ==> #[trigger] final(out).data@[k] == old(out).data@[k]
        }),
{
    let tile_size = config.tile_size;
    let v = out.vectorization;
    let ghost r = rows_written(config.check_m_bounds, out.extent_m as int, row as int,
        tile_size as int);
    let ghost c = cols_written(config.check_n_bounds, out.extent_n as int, col as int,
        tile_size as int, v as int);
    if tile_size == 1 {
        proof {
            if v >= 2 {
                vstd::arithmetic::div_mod::lemma_small_mod(1, v as nat);
                assert(false);
            }
        }
        proof {
            lemma_mul_inequality(row + 1, out.extent_m as int, out.stride_row as int);
            assert((row + 1) * out.stride_row as int == row * out.stride_row as int
                + out.stride_row as int) by (nonlinear_arith);
        }
        let position = row * out_stride_row + col + offset_output;
        proof {
            assert(position < out.extent_m * out.stride_row + offset_output);
            assert(r == 1);
            if config.check_n_bounds {
                assert(min_int(out.extent_n - col, 1) == 1);
                assert(c == (1int / v as int) * v as int);
                assert(c == 1) by (nonlinear_arith)
                    requires
                        v == 1,
                        c == (1int / v as int) * v as int,
                ;
            }
            assert(c == 1);
            assert(out_pos(row as int, col as int, offset_output as int, out.stride_row as int,
                0, 0) == position);
        }
        let value = results[0];
        out.data[position / v] = value;
        proof {
            assert(position as int / 1 == position);
            assert(forall|k: int|
                0 <= k < out.data@.len() && !in_written_region(k, row as int, col as int,
                    offset_output as int, old(out).stride_row as int, 1, 1)
                    ==> #[trigger] out.data@[k] == old(out).data@[k]);
        }
    } else {
        let num_writes: usize;
        if config.check_m_bounds {
            let dim_m = out.extent_m;
            if dim_m > row {
                let rows_avail = dim_m - row;
                num_writes = if rows_avail < tile_size {
                    rows_avail
                } else {
                    tile_size
                };
            } else {
                num_writes = 0;
            }
        } else {
            num_writes = tile_size;
        }
        proof {
            assert(num_writes == r);
        }
        let mut m: usize = 0;
        while m < num_writes
            invariant
                out.extent_m == old(out).extent_m,
                out.extent_n == old(out).extent_n,
                out.stride_row == old(out).stride_row,
                out.vectorization == old(out).vectorization,
                out.data@.len() == old(out).data@.len(),
                v == out.vectorization,
                tile_size == config.tile_size,
                m <= num_writes,
                num_writes == r,
                num_writes <= tile_size,
                num_writes > 0 ==> row + num_writes <= out.extent_m,
                out_wf(*old(out), offset_output as int),
                out_stride_row == out.stride_row,
                tile_size >= 2,
                tile_size as int % v as int == 0,
                out.stride_row as int % v as int == 0,
                (col + offset_output) as int % v as int == 0,
                results@.len() >= tile_size * tile_size,
                !config.check_n_bounds ==> col + tile_size <= out.extent_n,
                out.extent_m * out.stride_row + col + offset_output + tile_size <= usize::MAX,
                c == cols_written(config.check_n_bounds, out.extent_n as int, col as int,
                    tile_size as int, v as int),
                forall|mm: int, n: int|
                    0 <= mm < m && 0 <= n < c ==> out.data@[#[trigger] out_pos(row as int,
                        col as int, offset_output as int, out.stride_row as int, mm, n)]
                        == results@[mm * tile_size + n],
                forall|k: int|
                    0 <= k < out.data@.len() && !in_written_region(k, row as int, col as int,
                        offset_output as int, out.stride_row as int, m as int, c)
                        ==> #[trigger] out.data@[k] == old(out).data@[k],
            decreases num_writes - m,
        {
            let ghost prev = out.data@;
            proof {
                lemma_mul_inequality(row + m + 1, out.extent_m as int, out.stride_row as int);
                assert((row + m + 1) * out.stride_row as int == (row + m) * out.stride_row as int
                    + out.stride_row as int) by (nonlinear_arith);
            }
            write_results_inner_loop(out, results, m, row, col, offset_output, out_stride_row,
                config);
            proof {
                let base = out_pos(row as int, col as int, offset_output as int,
                    out.stride_row as int, m as int, 0);
                assert forall|mm: int, n: int| 0 <= mm < m + 1 && 0 <= n < c implies
                    out.data@[#[trigger] out_pos(row as int, col as int, offset_output as int,
                        out.stride_row as int, mm, n)] == results@[mm * tile_size + n] by {
                    let pos = out_pos(row as int, col as int, offset_output as int,
                        out.stride_row as int, mm, n);
                    if mm == m {
                        assert(base <= pos < base + c);
                    } else {
                        lemma_cols_written_bound(config.check_n_bounds, out.extent_n as int,
                            col as int, tile_size as int, v as int);
                        lemma_mul_inequality(row + mm + 1, row + m, out.stride_row as int);
                        assert((row + mm + 1) * out.stride_row as int == (row + mm)
                            * out.stride_row as int + out.stride_row as int) by (nonlinear_arith);
                        assert(pos < base);
                        assert(out.data@[pos] == prev[pos]);
                    }
                }
                assert forall|k: int|
                    0 <= k < out.data@.len() && !in_written_region(k, row as int, col as int,
                        offset_output as int, out.stride_row as int, m + 1, c) implies
                    out.data@[k] == old(out).data@[k] by {
                    assert(!in_written_region(k, row as int, col as int, offset_output as int,
                        out.stride_row as int, m as int, c));
                    assert(!(base <= k < base + c)) by {
                        if base <= k < base + c {
                            assert(k == out_pos(row as int, col as int, offset_output as int,
                                out.stride_row as int, m as int, k - base));
                        }
                    }
                }
            }
            m = m + 1;
        }
    }
}

/// Write tile row `res_idx_m` into the output: whole vector-width groups of
/// columns, clamped to the column bound when the specialization asks for it.
pub fn write_results_inner_loop(
    out: &mut OutputTensor,
    results: &Vec<i64>,
    res_idx_m: usize,
    row: usize,
    col: usize,
    offset_output: usize,
    out_stride_row: usize,
    config: TileConfig,
)
    requires
        out_wf(*old(out), offset_output as int),
        out_stride_row == old(out).stride_row,
        config.tile_size >= 1,
        config.tile_size as int % old(out).vectorization as int == 0,
        old(out).stride_row as int % old(out).vectorization as int == 0,
        (col + offset_output) as int % old(out).vectorization as int == 0,
        res_idx_m < config.tile_size,
        row + res_idx_m < old(out).extent_m,
        results@.len() >= config.tile_size * config.tile_size,
        !config.check_n_bounds ==> col + config.tile_size <= old(out).extent_n,
        out_pos(row as int, col as int, offset_output as int, old(out).stride_row as int,
            res_idx_m as int, config.tile_size as int) <= usize::MAX,
    ensures
        final(out).extent_m == old(out).extent_m,
        final(out).extent_n == old(out).extent_n,
        final(out).stride_row == old(out).stride_row,
        final(out).vectorization == old(out).vectorization,
        final(out).data@.len() == old(out).data@.len(),
        ({
            let base = out_pos(row as int, col as int, offset_output as int,
                old(out).stride_row as int, res_idx_m as int, 0);
            let c = cols_written(config.check_n_bounds, old(out).extent_n as int, col as int,
                config.tile_size as int, old(out).vectorization as int);
            &&& forall|k: int|
                base <= k < base + c ==> #[trigger] final(out).data@[k]
                    == results@[res_idx_m * config.tile_size + (k - base)]
            &&& forall|k: int|
                0 <= k < final(out).data@.len() && !(base <= k < base + c)
                    ==> #[trigger] final(out).data@[k] == old(out).data@[k]
        }),
{
    let v = out.vectorization;
    let tile_size = config.tile_size;
    let results_len = results.len();
    proof {
        lemma_mul_inequality(res_idx_m + 1, tile_size as int, tile_size as int);
        assert((res_idx_m + 1) * tile_size == res_idx_m * tile_size + tile_size)
            by (nonlinear_arith);
        lemma_mul_inequality(row + res_idx_m + 1, out.extent_m as int, out.stride_row as int);
        assert((row + res_idx_m + 1) * out.stride_row as int == (row + res_idx_m)
            * out.stride_row as int + out.stride_row as int) by (nonlinear_arith);
    }
    let results_pos_m = res_idx_m * tile_size;
    let out_position = (row + res_idx_m) * out_stride_row + col + offset_output;
    let ghost base = out_position as int;
    let ghost c = cols_written(config.check_n_bounds, out.extent_n as int, col as int,
        tile_size as int, v as int);

    let num_loops: usize;
    if config.check_n_bounds {
        let dim_n = out.extent_n;
        if dim_n > col {
            let reads_avail = dim_n - col;
            let num_reads = if reads_avail < tile_size {
                reads_avail
            } else {
                tile_size
            };
            num_loops = num_reads / v;
            proof {
                lemma_fundamental_div_mod(num_reads as int, v as int);
            }
        } else {
            num_loops = 0;
        }
    } else {
        num_loops = tile_size / v;
        proof {
            lemma_fundamental_div_mod(tile_size as int, v as int);
        }
    }
    proof {
        assert(num_loops * v == c) by (nonlinear_arith)
            requires
                v >= 1,
                c == cols_written(config.check_n_bounds, out.extent_n as int, col as int,
                    tile_size as int, v as int),
                config.check_n_bounds && out.extent_n > col ==> num_loops == min_int(
                    out.extent_n - col, tile_size as int) / v as int,
                config.check_n_bounds && out.extent_n <= col ==> num_loops == 0,
                !config.check_n_bounds ==> num_loops == tile_size as int / v as int
                    && tile_size as int % v as int == 0,
        ;
        assert(c <= tile_size) by (nonlinear_arith)
            requires
                v >= 1,
                c == cols_written(config.check_n_bounds, out.extent_n as int, col as int,
                    tile_size as int, v as int),
        ;
        if config.check_n_bounds && out.extent_n > col {
            assert(c <= out.extent_n - col) by (nonlinear_arith)
                requires
                    v >= 1,
                    c == (min_int(out.extent_n - col, tile_size as int) / v as int) * v as int,
            ;
        }
        if c > 0 {
            assert(col + c <= out.extent_n);
            assert(base + c <= (row + res_idx_m) * out.stride_row as int + offset_output
                + out.extent_n);
            assert(base + c <= (row + res_idx_m + 1) * out.stride_row as int + offset_output);
            assert(base + c <= out.extent_m * out.stride_row as int + offset_output);
            assert(base + c <= out.data@.len());
        }
        lemma_fundamental_div_mod(out.stride_row as int, v as int);
        let q = out.stride_row as int / v as int;
        assert((row + res_idx_m) * out.stride_row as int == ((row + res_idx_m) * q) * v as int)
            by (nonlinear_arith)
            requires
                out.stride_row as int == v as int * q,
        ;
        vstd::arithmetic::div_mod::lemma_mod_multiples_basic((row + res_idx_m) * q, v as int);
        assert(((row + res_idx_m) * out.stride_row as int) % v as int == 0);
        vstd::arithmetic::div_mod::lemma_small_mod(0, v as nat);
        vstd::arithmetic::div_mod::lemma_add_mod_noop(
            (row + res_idx_m) * out.stride_row as int,
            col + offset_output,
            v as int,
        );
        assert(base as int % v as int == 0);
    }

    let mut i: usize = 0;
    while i < num_loops
        invariant
            out.extent_m == old(out).extent_m,
            out.extent_n == old(out).extent_n,
            out.stride_row == old(out).stride_row,
            out.vectorization == old(out).vectorization,
            out.data@.len() == old(out).data@.len(),
            v == out.vectorization,
            v >= 1,
            i <= num_loops,
            num_loops * v == c,
            0 <= c <= tile_size,
            tile_size == config.tile_size,
            base == out_position,
            c > 0 ==> base + c <= out.data@.len(),
            base as int % v as int == 0,
            results_pos_m == res_idx_m * tile_size,
            results_pos_m + tile_size <= results@.len(),
            results@.len() <= usize::MAX,
            forall|k: int|
                base <= k < base + i * v ==> #[trigger] out.data@[k] == results@[results_pos_m + (k
                    - base)],
            forall|k: int|
                0 <= k < out.data@.len() && !(base <= k < base + i * v)
                    ==> #[trigger] out.data@[k] == old(out).data@[k],
        decreases num_loops - i,
    {
        proof {
            lemma_mul_inequality(i + 1, num_loops as int, v as int);
            assert((i + 1) * v == i * v + v) by (nonlinear_arith);
        }
        write_within_vector(out, i, out_position, results, results_pos_m, config);
        i = i + 1;
    }
    proof {
        assert(i * v == c) by (nonlinear_arith)
            requires
                i == num_loops,
                num_loops * v == c,
        ;
    }
}

/// Gather `vectorization` consecutive tile values and issue one store for
/// group `i` of the current row; a width of 1 stores the scalar directly.
pub fn write_within_vector(
    out: &mut OutputTensor,
    i: usize,
    out_position: usize,
    results: &Vec<i64>,
    results_pos_m: usize,
    config: TileConfig,
)
    requires
        old(out).vectorization >= 1,
        out_position as int % old(out).vectorization as int == 0,
        out_position + i * old(out).vectorization + old(out).vectorization
            <= old(out).data@.len(),
        results_pos_m + i * old(out).vectorization + old(out).vectorization <= results@.len(),
    ensures
        final(out).extent_m == old(out).extent_m,
        final(out).extent_n == old(out).extent_n,
        final(out).stride_row == old(out).stride_row,
        final(out).vectorization == old(out).vectorization,
        final(out).data@.len() == old(out).data@.len(),
        forall|k: int|
            out_position + i * old(out).vectorization <= k < out_position + i * old(
                out,
            ).vectorization + old(out).vectorization ==> #[trigger] final(out).data@[k]
                == results@[results_pos_m + i * old(out).vectorization + (k - (out_position + i
                * old(out).vectorization))],
        forall|k: int|
            0 <= k < final(out).data@.len() && !(out_position + i * old(out).vectorization <= k
                < out_position + i * old(out).vectorization + old(out).vectorization)
                ==> #[trigger] final(out).data@[k] == old(out).data@[k],
{
    let v = out.vectorization;
    let results_len = results.len();
    let data_len = out.data.len();
    if v == 1 {
        proof {
            assert(i as int * v as int == i as int) by (nonlinear_arith)
                requires
                    v == 1,
            ;
        }
        let value = results[results_pos_m + i];
        out.data[i + out_position] = value;
    } else {
        let mut output_elem: Vec<i64> = Vec::new();
        let mut j: usize = 0;
        while j < v
            invariant
                j <= v,
                output_elem@.len() == j,
                results_pos_m + i * v + v <= results_len,
                results_len == results@.len(),
                forall|t: int|
                    0 <= t < j ==> output_elem@[t] == results@[results_pos_m + i * v + t],
            decreases v - j,
        {
            let index = i * v + j;
            output_elem.push(results[results_pos_m + index]);
            j = j + 1;
        }
        proof {
            lemma_fundamental_div_mod(out_position as int, v as int);
            assert((i as int + out_position as int / v as int) * v as int == i * v
                + out_position) by (nonlinear_arith)
                requires
                    v >= 1,
                    out_position == v * (out_position as int / v as int),
            ;
            assert(out_position as int / v as int <= out_position) by (nonlinear_arith)
                requires
                    v >= 1,
            ;
            assert(i as int <= i as int * v as int) by (nonlinear_arith)
                requires
                    v >= 1,
            ;
        }
        let base = (i + out_position / v) * v;
        let mut j2: usize = 0;
        while j2 < v
            invariant
                j2 <= v,
                v == out.vectorization,
                v >= 2,
                base == i * v + out_position,
                base + v <= data_len,
                data_len == out.data@.len(),
                out.extent_m == old(out).extent_m,
                out.extent_n == old(out).extent_n,
                out.stride_row == old(out).stride_row,
                out.data@.len() == old(out).data@.len(),
                output_elem@.len() == v,
                forall|t: int|
                    0 <= t < v ==> output_elem@[t] == results@[results_pos_m + i * v + t],
                forall|k: int|
                    base <= k < base + j2 ==> #[trigger] out.data@[k] == results@[results_pos_m + i
                        * v + (k - base)],
                forall|k: int|
                    0 <= k < out.data@.len() && !(base <= k < base + j2)
                        ==> #[trigger] out.data@[k] == old(out).data@[k],
            decreases v - j2,
        {
            let value = output_elem[j2];
            out.data[base + j2] = value;
            j2 = j2 + 1;
        }
    }
}

} // verus!
