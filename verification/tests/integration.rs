use rustofluid::scene::cell::Cell;
use rustofluid::scene::cell::CellTypes;
use rustofluid::scene::grid::Grid;
use rustofluid::types::Index2;
use std::cell::RefCell;

#[test]
fn border_order() {
    let grid: Grid<f64> = Grid::new(Index2::new(1, 2), 1.0);
    // Extent 3 x 4.
    assert_eq!(
        grid.border(),
        vec![
            // Left column.
            Index2::new(0, 0),
            Index2::new(0, 1),
            Index2::new(0, 2),
            Index2::new(0, 3),
            // Right column.
            Index2::new(2, 0),
            Index2::new(2, 1),
            Index2::new(2, 2),
            Index2::new(2, 3),
            // Bottom row.
            Index2::new(0, 0),
            Index2::new(1, 0),
            Index2::new(2, 0),
            // Top row.
            Index2::new(0, 3),
            Index2::new(1, 3),
            Index2::new(2, 3),
        ]
    );
}

#[test]
fn integrate_accelerates_fluid_cells_only() {
    let mut grid: Grid<f64> = Grid::new(Index2::new(2, 2), 1.0);
    grid.cell_mut(Index2::new(1, 1)).mode = CellTypes::Solid;
    grid.cell_mut(Index2::new(0, 2)).mode = CellTypes::Solid;
    for c in grid.cells_mut() {
        c.velocity.back = [1.0, 2.0];
        c.velocity.front = [5.0, 5.0];
    }
    // The extrapolation keeps what is there.
    grid.integrate(
        |v| [v[0], v[1] + 0.5 * 9.81],
        |g: &Grid<f64>, idx, dir| g.cell(idx).velocity.back[dir],
    );
    let dim = grid.dim();
    for j in 0..dim.y {
        for i in 0..dim.x {
            let c = grid.cell(Index2::new(i, j));
            let solid = (i, j) == (1, 1) || (i, j) == (0, 2);
            assert_eq!(c.mode == CellTypes::Solid, solid);
            assert_eq!(c.velocity.back, if solid { [1.0, 2.0] } else { [1.0, 2.0 + 0.5 * 9.81] });
            assert_eq!(c.velocity.front, [5.0, 5.0]);
        }
    }
}

#[test]
fn integrate_fills_the_fluid_cells_of_the_ghost_layer() {
    let mut grid: Grid<f64> = Grid::new(Index2::new(1, 1), 1.0);
    grid.cell_mut(Index2::new(0, 1)).mode = CellTypes::Solid;
    grid.cell_mut(Index2::new(2, 2)).mode = CellTypes::Solid;
    let asked = RefCell::new(Vec::new());
    grid.integrate(
        |v| v,
        |_: &Grid<f64>, idx, dir| {
            asked.borrow_mut().push((idx.x, idx.y, dir));
            (100 * idx.x + 10 * idx.y + dir) as f64 + 0.5
        },
    );
    assert_eq!(
        asked.into_inner(),
        vec![
            (0, 0, 0),
            (0, 0, 1),
            (0, 2, 0),
            (0, 2, 1),
            (2, 0, 0),
            (2, 0, 1),
            (2, 1, 0),
            (2, 1, 1),
            (0, 0, 0),
            (0, 0, 1),
            (1, 0, 0),
            (1, 0, 1),
            (2, 0, 0),
            (2, 0, 1),
            (0, 2, 0),
            (0, 2, 1),
            (1, 2, 0),
            (1, 2, 1),
        ]
    );
    assert_eq!(grid.cell(Index2::new(0, 0)).velocity.back, [0.5, 1.5]);
    assert_eq!(grid.cell(Index2::new(1, 2)).velocity.back, [120.5, 121.5]);
    assert_eq!(grid.cell(Index2::new(2, 1)).velocity.back, [210.5, 211.5]);
    // Solid cells of the ghost layer and the interior keep their velocity.
    assert_eq!(grid.cell(Index2::new(0, 1)).velocity.back, [0.0, 0.0]);
    assert_eq!(grid.cell(Index2::new(2, 2)).velocity.back, [0.0, 0.0]);
    assert_eq!(grid.cell(Index2::new(1, 1)).velocity.back, [0.0, 0.0]);
}

#[test]
fn extrapolation_sees_the_accelerated_grid_and_the_steps_before() {
    let mut grid: Grid<f64> = Grid::new(Index2::new(1, 1), 1.0);
    grid.cell_mut(Index2::new(1, 1)).velocity.back = [1.0, 1.0];
    // Each cell of the ghost layer takes the sum of all velocities on the
    // grid along the axis, which grows with each step.
    let sum = |g: &Grid<f64>, dir: usize| -> f64 {
        g.cells().iter().map(|c: &Cell<f64>| c.velocity.back[dir]).sum()
    };
    grid.integrate(|v| [v[0] + 1.0, v[1]], move |g: &Grid<f64>, _, dir| sum(g, dir));
    // After the acceleration every x-velocity is 1 but the interior one,
    // which is 2: the sum is 10. The first step replaces the 1 of (0, 0) by
    // 10, the next cell sees 19.
    assert_eq!(grid.cell(Index2::new(0, 0)).velocity.back[0] > 10.0, true);
    assert_eq!(grid.cell(Index2::new(0, 1)).velocity.back[0], 19.0);
    assert_eq!(grid.cell(Index2::new(1, 1)).velocity.back, [2.0, 1.0]);
    // The y-velocities start at 0 but the interior one, which is 1.
    assert_eq!(grid.cell(Index2::new(0, 1)).velocity.back[1], 2.0);
}
