use rustofluid::scene::cell::CellTypes;
use rustofluid::scene::grid::Grid;
use rustofluid::scene::grid::GridIndexIterator;
use rustofluid::scene::grid_stencil::stencil_phases;
use rustofluid::types::Index2;

fn collect(mut it: GridIndexIterator) -> Vec<Index2> {
    let mut all = Vec::new();
    while let Some(i) = it.next() {
        all.push(i);
    }
    all
}

#[test]
fn new_grid_adds_ghost_layer() {
    let grid: Grid<f64> = Grid::new(Index2::new(10, 7), 0.25);
    assert_eq!(grid.dim(), Index2::new(12, 9));
    assert_eq!(grid.cell_width(), 0.25);
    assert_eq!(grid.cells().len(), 12 * 9);
}

#[test]
fn new_grid_without_interior() {
    let grid: Grid<f64> = Grid::new(Index2::new(0, 0), 1.0);
    assert_eq!(grid.dim(), Index2::new(2, 2));
    assert_eq!(grid.cells().len(), 4);
    assert!(collect(grid.iter_index_inside()).is_empty());
}

#[test]
fn cell_returns_the_cell_of_its_index() {
    let grid: Grid<f64> = Grid::new(Index2::new(5, 3), 1.0);
    let dim = grid.dim();
    for j in 0..dim.y {
        for i in 0..dim.x {
            let index = Index2::new(i, j);
            assert_eq!(grid.cell(index).index(), index);
            assert_eq!(grid.cells()[i + j * dim.x].index(), index);
        }
    }
}

#[test]
fn new_grid_is_at_rest() {
    let grid: Grid<f64> = Grid::new(Index2::new(2, 2), 1.0);
    for c in grid.cells() {
        assert_eq!(c.mode, CellTypes::Fluid);
        assert_eq!(c.velocity.back, [0.0, 0.0]);
        assert_eq!(c.velocity.front, [0.0, 0.0]);
        assert_eq!(c.pressure, 0.0);
        assert_eq!(c.smoke.back, 0.0);
        assert_eq!(c.smoke.front, 0.0);
        assert_eq!(c.div, 0.0);
        assert_eq!(c.s_tot_inv, 0.0);
        assert_eq!(c.s_nbs, [[false, false], [false, false]]);
    }
}

#[test]
fn iter_index_runs_along_x_first() {
    let grid: Grid<f64> = Grid::new(Index2::new(1, 2), 1.0);
    let all = collect(grid.iter_index());
    let mut expected = Vec::new();
    for j in 0..4 {
        for i in 0..3 {
            expected.push(Index2::new(i, j));
        }
    }
    assert_eq!(all, expected);
}

#[test]
fn iter_index_inside_skips_ghost_layer() {
    let grid: Grid<f64> = Grid::new(Index2::new(2, 3), 1.0);
    assert_eq!(
        collect(grid.iter_index_inside()),
        vec![
            Index2::new(1, 1),
            Index2::new(2, 1),
            Index2::new(1, 2),
            Index2::new(2, 2),
            Index2::new(1, 3),
            Index2::new(2, 3),
        ]
    );
}

#[test]
fn iterator_stays_exhausted() {
    let mut it = GridIndexIterator::new(Index2::new(2, 1));
    assert_eq!(it.next(), Some(Index2::new(0, 0)));
    assert_eq!(it.next(), Some(Index2::new(1, 0)));
    assert_eq!(it.next(), None);
    assert_eq!(it.next(), None);
}

#[test]
fn iterator_over_empty_box() {
    assert!(collect(GridIndexIterator::new(Index2::new(0, 5))).is_empty());
    assert!(collect(GridIndexIterator::new(Index2::new(5, 0))).is_empty());
    assert!(collect(GridIndexIterator::over(Index2::new(3, 3), Index2::new(3, 9))).is_empty());
    assert!(collect(GridIndexIterator::over(Index2::new(4, 1), Index2::new(2, 9))).is_empty());
}

#[test]
fn iterator_over_box() {
    assert_eq!(
        collect(GridIndexIterator::over(Index2::new(2, 5), Index2::new(4, 7))),
        vec![Index2::new(2, 5), Index2::new(3, 5), Index2::new(2, 6), Index2::new(3, 6)]
    );
}

#[test]
fn iterator_clone_continues_from_the_same_place() {
    let mut it = GridIndexIterator::new(Index2::new(2, 2));
    it.next();
    let copy = it.clone();
    assert_eq!(collect(it), vec![Index2::new(1, 0), Index2::new(0, 1), Index2::new(1, 1)]);
    assert_eq!(collect(copy), vec![Index2::new(1, 0), Index2::new(0, 1), Index2::new(1, 1)]);
}

#[test]
fn inside_range_is_half_open() {
    let min = Index2::new(1, 2);
    let max = Index2::new(4, 6);
    assert!(Grid::<f64>::is_inside_range(min, max, Index2::new(1, 2)));
    assert!(Grid::<f64>::is_inside_range(min, max, Index2::new(3, 5)));
    assert!(!Grid::<f64>::is_inside_range(min, max, Index2::new(4, 5)));
    assert!(!Grid::<f64>::is_inside_range(min, max, Index2::new(3, 6)));
    assert!(!Grid::<f64>::is_inside_range(min, max, Index2::new(0, 2)));
    assert!(!Grid::<f64>::is_inside_range(min, max, Index2::new(1, 1)));
}

#[test]
fn inside_border_excludes_the_outer_ring() {
    let grid: Grid<f64> = Grid::new(Index2::new(3, 2), 1.0);
    let dim = grid.dim();
    for j in 0..dim.y + 1 {
        for i in 0..dim.x + 1 {
            let expected = i >= 1 && i <= 3 && j >= 1 && j <= 2;
            assert_eq!(grid.is_inside_border(Index2::new(i, j)), expected);
        }
    }
}

#[test]
fn neighbors_indices() {
    let n = Grid::<f64>::get_neighbors_indices(Index2::new(3, 4));
    assert_eq!(n[0], [Index2::new(2, 4), Index2::new(3, 3)]);
    assert_eq!(n[1], [Index2::new(4, 4), Index2::new(3, 5)]);
}

#[test]
fn neighbors_indices_wrap_below_zero() {
    let n = Grid::<f64>::get_neighbors_indices(Index2::new(0, 0));
    assert_eq!(n[0], [Index2::new(usize::MAX, 0), Index2::new(0, usize::MAX)]);
    assert_eq!(n[1], [Index2::new(1, 0), Index2::new(0, 1)]);
}

#[test]
fn cell_opt_outside_is_none() {
    let mut grid: Grid<f64> = Grid::new(Index2::new(2, 2), 1.0);
    assert!(grid.cell_opt(Index2::new(3, 3)).is_some());
    assert_eq!(grid.cell_opt(Index2::new(3, 3)).unwrap().index(), Index2::new(3, 3));
    assert!(grid.cell_opt(Index2::new(4, 0)).is_none());
    assert!(grid.cell_opt(Index2::new(0, 4)).is_none());
    assert!(grid.cell_opt(Index2::new(usize::MAX, usize::MAX)).is_none());
    assert!(grid.cell_mut_opt(Index2::new(4, 3)).is_none());
    grid.cell_mut_opt(Index2::new(0, 3)).unwrap().smoke.back = 1.0;
    assert_eq!(grid.cell(Index2::new(0, 3)).smoke.back, 1.0);
}

#[test]
fn cell_mut_changes_one_cell() {
    let mut grid: Grid<f64> = Grid::new(Index2::new(2, 2), 1.0);
    grid.cell_mut(Index2::new(2, 1)).pressure = 5.0;
    grid.cell_mut(Index2::new(2, 1)).mode = CellTypes::Solid;
    let dim = grid.dim();
    for j in 0..dim.y {
        for i in 0..dim.x {
            let c = grid.cell(Index2::new(i, j));
            if (i, j) == (2, 1) {
                assert_eq!(c.pressure, 5.0);
                assert_eq!(c.mode, CellTypes::Solid);
            } else {
                assert_eq!(c.pressure, 0.0);
                assert_eq!(c.mode, CellTypes::Fluid);
            }
            assert_eq!(c.index(), Index2::new(i, j));
        }
    }
}

#[test]
fn cells_mut_reaches_every_cell() {
    let mut grid: Grid<f64> = Grid::new(Index2::new(1, 1), 1.0);
    for (k, c) in grid.cells_mut().iter_mut().enumerate() {
        c.pressure = k as f64;
    }
    assert_eq!(grid.cell(Index2::new(0, 0)).pressure, 0.0);
    assert_eq!(grid.cell(Index2::new(2, 0)).pressure, 2.0);
    assert_eq!(grid.cell(Index2::new(1, 2)).pressure, 7.0);
}

#[test]
fn fluid_neighbors_follow_the_modes() {
    let mut grid: Grid<f64> = Grid::new(Index2::new(3, 3), 1.0);
    let c = Index2::new(2, 2);
    assert_eq!(grid.fluid_neighbors(c), [[true, true], [true, true]]);
    grid.cell_mut(Index2::new(1, 2)).mode = CellTypes::Solid;
    assert_eq!(grid.fluid_neighbors(c), [[false, true], [true, true]]);
    grid.cell_mut(Index2::new(2, 1)).mode = CellTypes::Solid;
    assert_eq!(grid.fluid_neighbors(c), [[false, false], [true, true]]);
    grid.cell_mut(Index2::new(3, 2)).mode = CellTypes::Solid;
    assert_eq!(grid.fluid_neighbors(c), [[false, false], [false, true]]);
    grid.cell_mut(Index2::new(2, 3)).mode = CellTypes::Solid;
    assert_eq!(grid.fluid_neighbors(c), [[false, false], [false, false]]);
    // The cell's own mode does not count.
    grid.cell_mut(c).mode = CellTypes::Solid;
    assert_eq!(grid.fluid_neighbors(Index2::new(1, 1)), [[true, true], [false, false]]);
}

#[test]
fn grid_stencils_of_one_pass() {
    let mut grid: Grid<f64> = Grid::new(Index2::new(3, 3), 1.0);
    let stencils = grid.positive_stencils(Index2::new(0, 0));
    let cells: Vec<_> = stencils
        .iter()
        .map(|s| (s.cell.index(), s.neighbors[0].index(), s.neighbors[1].index()))
        .collect();
    assert_eq!(
        cells,
        vec![
            (Index2::new(1, 1), Index2::new(2, 1), Index2::new(1, 2)),
            (Index2::new(3, 1), Index2::new(4, 1), Index2::new(3, 2)),
            (Index2::new(1, 3), Index2::new(2, 3), Index2::new(1, 4)),
            (Index2::new(3, 3), Index2::new(4, 3), Index2::new(3, 4)),
        ]
    );
}

#[test]
fn grid_stencils_of_shifted_pass() {
    let mut grid: Grid<f64> = Grid::new(Index2::new(3, 3), 1.0);
    let stencils = grid.positive_stencils(Index2::new(1, 1));
    let centers: Vec<_> = stencils.iter().map(|s| s.cell.index()).collect();
    assert_eq!(centers, vec![Index2::new(2, 2)]);
}

#[test]
fn grid_stencils_write_through() {
    let mut grid: Grid<f64> = Grid::new(Index2::new(2, 2), 1.0);
    for offset in stencil_phases() {
        for s in grid.positive_stencils(offset) {
            s.cell.pressure += 1.0;
            s.neighbors[0].div += 1.0;
            s.neighbors[1].smoke.back += 1.0;
        }
    }
    let dim = grid.dim();
    for j in 0..dim.y {
        for i in 0..dim.x {
            let inside = |i: usize, j: usize| i >= 1 && i <= 2 && j >= 1 && j <= 2;
            let c = grid.cell(Index2::new(i, j));
            assert_eq!(c.pressure, if inside(i, j) { 1.0 } else { 0.0 });
            assert_eq!(c.div, if i >= 1 && inside(i - 1, j) { 1.0 } else { 0.0 });
            assert_eq!(c.smoke.back, if j >= 1 && inside(i, j - 1) { 1.0 } else { 0.0 });
        }
    }
}

#[test]
fn exchange_of_fluid_marks_in_a_stencil() {
    let mut grid: Grid<f64> = Grid::new(Index2::new(2, 2), 1.0);
    grid.cell_mut(Index2::new(2, 1)).mode = CellTypes::Solid;
    {
        let mut stencils = grid.positive_stencils(Index2::new(0, 0));
        assert_eq!(stencils.len(), 1);
        stencils[0].exchange_fluid_marks();
    }
    // Center (1, 1): +x neighbor (2, 1) is solid, +y neighbor (1, 2) fluid.
    assert_eq!(grid.cell(Index2::new(1, 1)).s_nbs, [[false, false], [false, true]]);
    // (2, 1) learns that its -x neighbor is fluid.
    assert_eq!(grid.cell(Index2::new(2, 1)).s_nbs, [[true, false], [false, false]]);
    // (1, 2) learns that its -y neighbor is fluid.
    assert_eq!(grid.cell(Index2::new(1, 2)).s_nbs, [[false, true], [false, false]]);
    assert_eq!(grid.cell(Index2::new(2, 2)).s_nbs, [[false, false], [false, false]]);
}
