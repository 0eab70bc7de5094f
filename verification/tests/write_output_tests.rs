use autodiff_core::write_output::{
    write_results, write_results_inner_loop, write_to_output, Coordinates, OutputTensor,
    TileConfig,
};

fn zeros(n: usize) -> Vec<i64> {
    let mut v = Vec::new();
    for _ in 0..n {
        v.push(0);
    }
    v
}

fn arange(from: i64, to: i64) -> Vec<i64> {
    let mut v = Vec::new();
    let mut x = from;
    while x < to {
        v.push(x);
        x += 1;
    }
    v
}

fn output(rows: usize, cols: usize, vectorization: usize) -> OutputTensor {
    OutputTensor {
        data: zeros(rows * cols),
        extent_m: rows,
        extent_n: cols,
        stride_row: cols,
        vectorization,
    }
}

fn config(tile_size: usize, check_m: bool, check_n: bool) -> TileConfig {
    TileConfig { tile_size, check_m_bounds: check_m, check_n_bounds: check_n, unroll: false }
}

#[test]
fn write_results_inner_loop_unit_test() {
    // One tile row (index 2) written at placement (4, 4) of an 8x8 output,
    // vector width 4: only row 6, columns 4..8 receive values 8..12.
    let mut out = output(8, 8, 4);
    let tile = arange(0, 16);
    write_results_inner_loop(&mut out, &tile, 2, 4, 4, 0, 8, config(4, true, true));
    let expected: Vec<i64> = vec![
        0, 0, 0, 0, 0, 0, 0, 0, 0, 0, 0, 0, 0, 0, 0, 0, 0, 0, 0, 0, 0, 0, 0, 0, 0, 0, 0, 0, 0, 0,
        0, 0, 0, 0, 0, 0, 0, 0, 0, 0, 0, 0, 0, 0, 0, 0, 0, 0, 0, 0, 0, 0, 8, 9, 10, 11, 0, 0, 0,
        0, 0, 0, 0, 0,
    ];
    assert_eq!(out.data, expected);
}

#[test]
fn write_results_to_output_unit_test() {
    // Full 4x4 tile at placement (4, 4) of an 8x8 output, vector width 4.
    let mut out = output(8, 8, 4);
    let tile = arange(0, 16);
    write_results(&mut out, &tile, 4, 4, 0, 8, config(4, true, true));
    let expected: Vec<i64> = vec![
        0, 0, 0, 0, 0, 0, 0, 0, 0, 0, 0, 0, 0, 0, 0, 0, 0, 0, 0, 0, 0, 0, 0, 0, 0, 0, 0, 0, 0, 0,
        0, 0, 0, 0, 0, 0, 0, 1, 2, 3, 0, 0, 0, 0, 4, 5, 6, 7, 0, 0, 0, 0, 8, 9, 10, 11, 0, 0, 0,
        0, 12, 13, 14, 15,
    ];
    assert_eq!(out.data, expected);
}

#[test]
fn write_results_to_output_partial_unit_test() {
    // Tile at row 4 of a 6x8 output: only rows 4 and 5 fall in bounds.
    let mut out = output(6, 8, 4);
    let tile = arange(0, 16);
    write_results(&mut out, &tile, 4, 4, 0, 8, config(4, true, true));
    let expected: Vec<i64> = vec![
        0, 0, 0, 0, 0, 0, 0, 0, 0, 0, 0, 0, 0, 0, 0, 0, 0, 0, 0, 0, 0, 0, 0, 0, 0, 0, 0, 0, 0, 0,
        0, 0, 0, 0, 0, 0, 0, 1, 2, 3, 0, 0, 0, 0, 4, 5, 6, 7,
    ];
    assert_eq!(out.data, expected);
}

#[test]
fn write_to_output_over_height_unit_test() {
    // Row overhang: a 6x8 output with the tile placed at row 4 writes only
    // rows 4 and 5; conceptual tile rows 6 and 7 are never written.
    let mut out = output(6, 8, 4);
    let tile = arange(0, 16);
    let coordinates = Coordinates { unit_row: 4, unit_col: 4, skip_row: 0, skip_col: 0 };
    write_to_output(&mut out, &tile, coordinates, 0, config(4, true, true));
    let expected: Vec<i64> = vec![
        0, 0, 0, 0, 0, 0, 0, 0, 0, 0, 0, 0, 0, 0, 0, 0, 0, 0, 0, 0, 0, 0, 0, 0, 0, 0, 0, 0, 0, 0,
        0, 0, 0, 0, 0, 0, 0, 1, 2, 3, 0, 0, 0, 0, 4, 5, 6, 7,
    ];
    assert_eq!(out.data, expected);
}

#[test]
fn write_to_output_over_width_unit_test() {
    // Column overhang: an 8x4 output with the tile placed at column 4 has
    // no column in bounds, so nothing at all is written.
    let mut out = output(8, 4, 4);
    let tile = arange(0, 16);
    let coordinates = Coordinates { unit_row: 4, unit_col: 4, skip_row: 0, skip_col: 0 };
    write_to_output(&mut out, &tile, coordinates, 0, config(4, true, true));
    let expected: Vec<i64> = vec![
        0, 0, 0, 0, 0, 0, 0, 0, 0, 0, 0, 0, 0, 0, 0, 0, 0, 0, 0, 0, 0, 0, 0, 0, 0, 0, 0, 0, 0, 0,
        0, 0,
    ];
    assert_eq!(out.data, expected);
}

#[test]
fn write_to_output_vectorized_less_than_tile_unit_test() {
    // Vector width 2 on a tile of edge 4: same values land in the same
    // cells, two lanes per store instead of four.
    let mut out = output(8, 8, 2);
    let tile = arange(0, 16);
    write_results(&mut out, &tile, 4, 4, 0, 8, config(4, true, true));
    let expected: Vec<i64> = vec![
        0, 0, 0, 0, 0, 0, 0, 0, 0, 0, 0, 0, 0, 0, 0, 0, 0, 0, 0, 0, 0, 0, 0, 0, 0, 0, 0, 0, 0, 0,
        0, 0, 0, 0, 0, 0, 0, 1, 2, 3, 0, 0, 0, 0, 4, 5, 6, 7, 0, 0, 0, 0, 8, 9, 10, 11, 0, 0, 0,
        0, 12, 13, 14, 15,
    ];
    assert_eq!(out.data, expected);
}

#[test]
fn write_to_output_scalar_unit_test() {
    // Vector width 1: every cell of the tile is stored scalar by scalar.
    let mut out = output(8, 8, 1);
    let tile = arange(0, 16);
    write_results(&mut out, &tile, 4, 4, 0, 8, config(4, true, true));
    let expected: Vec<i64> = vec![
        0, 0, 0, 0, 0, 0, 0, 0, 0, 0, 0, 0, 0, 0, 0, 0, 0, 0, 0, 0, 0, 0, 0, 0, 0, 0, 0, 0, 0, 0,
        0, 0, 0, 0, 0, 0, 0, 1, 2, 3, 0, 0, 0, 0, 4, 5, 6, 7, 0, 0, 0, 0, 8, 9, 10, 11, 0, 0, 0,
        0, 12, 13, 14, 15,
    ];
    assert_eq!(out.data, expected);
}

#[test]
fn write_to_output_scalar_out_of_bounds_cube_test() {
    // Two units write the same 5x1 output: the first owns rows 0..4 of
    // column 0, the second owns row 4; rows past the extent are skipped.
    let mut out = output(5, 1, 1);
    // The tile is the transpose of values 1..17 laid out 4x4 row-major.
    let mut tile = Vec::new();
    for c in 0..4 {
        for r in 0..4 {
            tile.push(1 + (r * 4 + c) as i64);
        }
    }
    let cfg = config(4, true, true);
    write_results(&mut out, &tile, 0, 0, 0, 1, cfg);
    write_results(&mut out, &tile, 4, 0, 0, 1, cfg);
    let expected: Vec<i64> = vec![1, 2, 3, 4, 1];
    assert_eq!(out.data, expected);
}

#[test]
fn write_to_output_tile_size_one_single_cell() {
    // The scalar fast path of a one-element tile writes exactly one cell.
    let mut out = output(8, 8, 1);
    let tile = vec![7];
    let coordinates = Coordinates { unit_row: 4, unit_col: 4, skip_row: 0, skip_col: 0 };
    write_to_output(&mut out, &tile, coordinates, 0, config(1, true, true));
    for r in 0..8 {
        for c in 0..8 {
            let expected = if r == 4 && c == 4 { 7 } else { 0 };
            assert_eq!(out.data[r * 8 + c], expected);
        }
    }
}

#[test]
fn write_results_unchecked_full_tile() {
    // The specialization without bounds checks writes the whole tile.
    let mut out = output(4, 4, 2);
    let tile = arange(0, 16);
    write_results(&mut out, &tile, 0, 0, 0, 4, config(4, false, false));
    assert_eq!(out.data, arange(0, 16));
}

#[test]
fn write_results_partial_vector_group_dropped() {
    // Three columns fit before the bound but the vector width is 2: only
    // one whole group of two columns is written, the third is dropped.
    let mut out = OutputTensor {
        data: zeros(32),
        extent_m: 4,
        extent_n: 7,
        stride_row: 8,
        vectorization: 2,
    };
    let tile = arange(0, 16);
    write_results(&mut out, &tile, 0, 4, 0, 8, config(4, true, true));
    for r in 0..4 {
        for c in 0..8 {
            let expected = if c >= 4 && c <= 5 { (r * 4 + (c - 4)) as i64 } else { 0 };
            assert_eq!(out.data[r * 8 + c], expected);
        }
    }
}

#[test]
fn write_results_row_at_extent_writes_nothing() {
    // A placement whose row already equals the extent writes nothing.
    let mut out = output(4, 8, 4);
    let tile = arange(0, 16);
    write_results(&mut out, &tile, 4, 0, 0, 8, config(4, true, true));
    assert_eq!(out.data, zeros(32));
}

#[test]
fn write_results_with_offset() {
    // The flat destination honors the output offset.
    let mut out = OutputTensor {
        data: zeros(80),
        extent_m: 8,
        extent_n: 8,
        stride_row: 8,
        vectorization: 4,
    };
    let tile = arange(0, 16);
    write_results(&mut out, &tile, 0, 0, 16, 8, config(4, true, true));
    for k in 0..16 {
        assert_eq!(out.data[k], 0);
    }
    for r in 0..4 {
        for c in 0..4 {
            assert_eq!(out.data[16 + r * 8 + c], (r * 4 + c) as i64);
        }
    }
}
