use rayon::iter::IntoParallelRefMutIterator;
use rayon::iter::ParallelIterator;
use rustofluid::scene::cell::CellTypes;
use rustofluid::scene::grid::Grid;
use rustofluid::scene::grid_stencil::stencil_phases;
use rustofluid::types::Index2;

fn scene() -> Grid<f64> {
    let mut grid: Grid<f64> = Grid::new(Index2::new(4, 3), 1.0);
    for idx in [Index2::new(0, 1), Index2::new(2, 2), Index2::new(5, 3), Index2::new(3, 4)] {
        grid.cell_mut(idx).mode = CellTypes::Solid;
    }
    grid
}

/// What the exchange leaves in the cell `(i, j)`, given the marks `old` that
/// it had before.
fn expected_marks(grid: &Grid<f64>, i: usize, j: usize, old: [[bool; 2]; 2]) -> [[bool; 2]; 2] {
    let dim = grid.dim();
    let interior = |i: usize, j: usize| i >= 1 && i + 1 < dim.x && j >= 1 && j + 1 < dim.y;
    let fluid = |i: usize, j: usize| grid.cell(Index2::new(i, j)).mode == CellTypes::Fluid;
    [
        [
            if i >= 1 && interior(i - 1, j) { fluid(i - 1, j) } else { old[0][0] },
            if j >= 1 && interior(i, j - 1) { fluid(i, j - 1) } else { old[0][1] },
        ],
        [
            if interior(i, j) { fluid(i + 1, j) } else { old[1][0] },
            if interior(i, j) { fluid(i, j + 1) } else { old[1][1] },
        ],
    ]
}

#[test]
fn exchange_marks_the_fluid_neighbors() {
    let mut grid = scene();
    grid.exchange_fluid_marks();
    let dim = grid.dim();
    for j in 0..dim.y {
        for i in 0..dim.x {
            let none = [[false, false], [false, false]];
            let c = grid.cell(Index2::new(i, j));
            assert_eq!(c.s_nbs, expected_marks(&grid, i, j, none), "({}, {})", i, j);
        }
    }
    // Away from the ghost layer the marks are those of the four neighbors.
    assert_eq!(grid.cell(Index2::new(3, 2)).s_nbs, [[false, true], [true, true]]);
    assert_eq!(grid.cell(Index2::new(2, 3)).s_nbs, [[true, false], [true, true]]);
    assert_eq!(grid.cell(Index2::new(3, 3)).s_nbs, grid.fluid_neighbors(Index2::new(3, 3)));
    // The first interior column keeps its -x mark: no stencil is centered in
    // the ghost layer.
    assert_eq!(grid.cell(Index2::new(1, 2)).s_nbs, [[false, true], [false, true]]);
    assert_eq!(grid.cell(Index2::new(1, 1)).s_nbs, [[false, false], [true, true]]);
    // The ghost layer next to the interior learns about its neighbor there.
    assert_eq!(grid.cell(Index2::new(5, 2)).s_nbs, [[true, false], [false, false]]);
    assert_eq!(grid.cell(Index2::new(2, 4)).s_nbs, [[false, true], [false, false]]);
    assert_eq!(grid.cell(Index2::new(0, 0)).s_nbs, [[false, false], [false, false]]);
}

#[test]
fn exchange_keeps_marks_that_no_pass_sets() {
    let mut grid = scene();
    for c in grid.cells_mut() {
        c.s_nbs = [[true, true], [true, true]];
    }
    grid.exchange_fluid_marks();
    let dim = grid.dim();
    for j in 0..dim.y {
        for i in 0..dim.x {
            let all = [[true, true], [true, true]];
            let c = grid.cell(Index2::new(i, j));
            assert_eq!(c.s_nbs, expected_marks(&grid, i, j, all), "({}, {})", i, j);
        }
    }
    assert_eq!(grid.cell(Index2::new(1, 2)).s_nbs, [[true, true], [false, true]]);
    assert_eq!(grid.cell(Index2::new(0, 0)).s_nbs, [[true, true], [true, true]]);
}

#[test]
fn exchange_changes_nothing_but_marks() {
    let mut grid = scene();
    for (k, c) in grid.cells_mut().iter_mut().enumerate() {
        c.pressure = k as f64;
        c.velocity.back = [1.0, -(k as f64)];
        c.smoke.front = 0.5;
    }
    let modes: Vec<CellTypes> = grid.cells().iter().map(|c| c.mode).collect();
    grid.exchange_fluid_marks();
    let dim = grid.dim();
    for (k, c) in grid.cells().iter().enumerate() {
        assert_eq!(c.pressure, k as f64);
        assert_eq!(c.velocity.back, [1.0, -(k as f64)]);
        assert_eq!(c.smoke.front, 0.5);
        assert_eq!(c.mode, modes[k]);
        assert_eq!(c.index(), Index2::new(k % dim.x, k / dim.x));
    }
}

#[test]
fn exchange_agrees_with_the_stencils_in_parallel() {
    let mut a = scene();
    let mut b = scene();
    a.exchange_fluid_marks();
    for offset in stencil_phases() {
        let mut stencils = b.positive_stencils(offset);
        stencils.par_iter_mut().for_each(|s| s.exchange_fluid_marks());
    }
    for (ca, cb) in a.cells().iter().zip(b.cells().iter()) {
        assert_eq!(ca.s_nbs, cb.s_nbs);
    }
}

#[test]
fn preparation_counts_the_marks() {
    let mut grid = scene();
    // A cell that is enclosed by solids.
    for idx in [Index2::new(3, 1), Index2::new(5, 1), Index2::new(4, 2)] {
        grid.cell_mut(idx).mode = CellTypes::Solid;
    }
    for c in grid.cells_mut() {
        c.pressure = 3.0;
        c.s_tot_inv = 9.0;
    }
    grid.prepare_parallel_projection(|count| 1.0 / count as f64);
    let dim = grid.dim();
    for j in 0..dim.y {
        for i in 0..dim.x {
            let c = grid.cell(Index2::new(i, j));
            let count = c.s_nbs.iter().flatten().filter(|m| **m).count();
            assert_eq!(c.pressure, 0.0);
            assert_eq!(c.s_tot_inv, if count == 0 { 0.0 } else { 1.0 / count as f64 });
            let none = [[false, false], [false, false]];
            assert_eq!(c.s_nbs, expected_marks(&grid, i, j, none));
        }
    }
    assert_eq!(grid.cell(Index2::new(4, 1)).s_tot_inv, 0.0);
    assert_eq!(grid.cell(Index2::new(3, 3)).s_tot_inv, 1.0 / 3.0);
    assert_eq!(grid.cell(Index2::new(2, 1)).s_tot_inv, 1.0);
    assert_eq!(grid.cell(Index2::new(4, 3)).s_tot_inv, 0.5);
}
