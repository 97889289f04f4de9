use rustofluid::scene::cell::Cell;
use rustofluid::scene::cell::CellTypes;
use rustofluid::scene::grid::Grid;
use rustofluid::scene::timestepper::StepPhase;
use rustofluid::types::Index2;

type Vector2 = nalgebra::Vector2<f64>;
type Matrix2 = nalgebra::Matrix2<f64>;

const R: f64 = 1.9;

fn to_vector(index: Index2) -> Vector2 {
    Vector2::new(index.x as f64, index.y as f64)
}

fn offsets(h: f64) -> [Vector2; 2] {
    [Vector2::new(0.0, 0.5 * h), Vector2::new(0.5 * h, 0.0)]
}

fn clamp_vector(min: Vector2, max: Vector2, v: Vector2) -> Vector2 {
    Vector2::new(nalgebra::clamp(v.x, min.x, max.x), nalgebra::clamp(v.y, min.y, max.y))
}

fn sample_field<F: Fn(&Cell<f64>) -> f64>(
    grid: &Grid<f64>,
    min: Index2,
    max: Index2,
    mut pos: Vector2,
    dir: Option<usize>,
    get_val: F,
) -> f64 {
    let h = grid.cell_width();
    let h_inv = 1.0 / h;
    let extent = to_vector(grid.dim()) * h;

    let offset = dir.map_or(Vector2::zeros(), |d| offsets(h)[d]);
    pos = pos - offset;
    pos = clamp_vector(Vector2::zeros(), extent, pos);

    let index = Index2::new((pos.x * h_inv) as usize, (pos.y * h_inv) as usize);
    let base = Grid::<f64>::clamp_to_range(min, Index2::new(max.x - 1, max.y - 1), index);
    let pos_cell = pos - to_vector(base) * h;
    let alpha = clamp_vector(Vector2::new(0.0, 0.0), Vector2::new(1.0, 1.0), pos_cell * h_inv);

    let m = Matrix2::from_iterator(grid.sample_field(min, max, index, get_val).into_iter());

    let t1 = Vector2::new(1.0 - alpha.x, alpha.x);
    let t2 = Vector2::new(alpha.y, 1.0 - alpha.y);

    t2.dot(&(m * t1))
}

fn sample_velocity(grid: &Grid<f64>, pos: Vector2, dir: usize) -> f64 {
    let dim = grid.dim();
    sample_field(
        grid,
        Index2::new(1, 1),
        Index2::new(dim.x - 1, dim.y - 1),
        pos,
        Some(dir),
        |c| c.velocity.back[dir],
    )
}

fn factor(fluid: bool) -> f64 {
    if fluid {
        1.0
    } else {
        0.0
    }
}

fn relax(
    cp: f64,
    mut c: Cell<f64>,
    mut x: Cell<f64>,
    mut y: Cell<f64>,
    marks: [[bool; 2]; 2],
) -> (Cell<f64>, Cell<f64>, Cell<f64>) {
    let mut s = 0.0;
    for neg_pos in 0..2 {
        s += factor(marks[neg_pos][0]) + factor(marks[neg_pos][1]);
    }
    let mut div: f64 = 0.0;
    div += x.velocity.back[0] - c.velocity.back[0];
    div += y.velocity.back[1] - c.velocity.back[1];
    c.div = div;
    let div_normed = div / s;
    c.pressure -= cp * div_normed;
    c.velocity.back[0] += R * factor(marks[0][0]) * div_normed;
    c.velocity.back[1] += R * factor(marks[0][1]) * div_normed;
    x.velocity.back[0] -= R * factor(marks[1][0]) * div_normed;
    y.velocity.back[1] -= R * factor(marks[1][1]) * div_normed;
    (c, x, y)
}

fn max_divergence(grid: &Grid<f64>) -> f64 {
    let mut max: f64 = 0.0;
    let mut it = grid.iter_index_inside();
    while let Some(idx) = it.next() {
        let m = grid.fluid_neighbors(idx);
        if grid.cell(idx).is_fluid() && (m[0][0] || m[0][1] || m[1][0] || m[1][1]) {
            let c = grid.cell(idx);
            let x = grid.cell(Index2::new(idx.x + 1, idx.y));
            let y = grid.cell(Index2::new(idx.x, idx.y + 1));
            let div = (x.velocity.back[0] - c.velocity.back[0])
                + (y.velocity.back[1] - c.velocity.back[1]);
            max = max.max(div.abs());
        }
    }
    max
}

#[test]
fn closed_box_with_an_inflow() {
    let h = 1.0 / 8.0;
    let dt = 0.016;
    let density = 1000.0;
    let gravity = Vector2::zeros();
    let iterations = 100;
    let source = Index2::new(3, 4);

    let mut grid: Grid<f64> = Grid::new(Index2::new(12, 8), h);
    let mut it = grid.iter_index();
    while let Some(idx) = it.next() {
        if !grid.is_inside_border(idx) {
            grid.cell_mut(idx).mode = CellTypes::Solid;
        }
    }
    let cp = density * h / dt;

    for _step in 0..200 {
        let mut phase = Some(StepPhase::first());
        while let Some(current) = phase {
            match current {
                StepPhase::Manipulate => {
                    let c = grid.cell_mut(source);
                    c.velocity.back = [1.0, 0.0];
                    c.smoke.back = 1.0;
                }
                StepPhase::Reset => {}
                StepPhase::Integrate => grid.integrate(
                    |v| (Vector2::from(v) + dt * gravity).into(),
                    |g: &Grid<f64>, idx, dir| {
                        let pos = to_vector(idx) * g.cell_width() + offsets(g.cell_width())[dir];
                        sample_velocity(g, pos, dir)
                    },
                ),
                StepPhase::SolveIncompressibility => {
                    grid.solve_incompressibility_sequential(iterations, |c, x, y, m| {
                        relax(cp, c, x, y, m)
                    });
                    let div = max_divergence(&grid);
                    assert!(div < 1e-3, "divergence {}", div);
                }
                StepPhase::Advect => {
                    grid.advect_velocity(|g: &Grid<f64>, idx, dir| {
                        let h = g.cell_width();
                        let mut pos = to_vector(idx) * h + offsets(h)[dir];
                        let mut vel = Vector2::from(g.cell(idx).velocity.back);
                        let other = (dir + 1) % 2;
                        vel[other] = sample_velocity(g, pos, other);
                        pos = pos - dt * vel;
                        sample_velocity(g, pos, dir)
                    });
                    grid.advect_smoke(|g: &Grid<f64>, idx| {
                        let h = g.cell_width();
                        let nbs = Grid::<f64>::get_neighbors_indices(idx);
                        let mut pos = (to_vector(idx) + Vector2::new(0.5, 0.5)) * h;
                        let mut vel = Vector2::zeros();
                        for dir in 0..2 {
                            vel += Vector2::new(
                                g.cell(nbs[dir][0]).velocity.back[0],
                                g.cell(nbs[dir][1]).velocity.back[1],
                            ) * 0.5;
                        }
                        pos = pos - dt * vel;
                        sample_field(g, Index2::new(0, 0), g.dim(), pos, None, |c| c.smoke.back)
                    });
                }
            }
            phase = current.next();
        }
        for c in grid.cells() {
            assert!(c.smoke.back >= 0.0 && c.smoke.back <= 1.0, "smoke {}", c.smoke.back);
            assert!(c.velocity.back[0].is_finite() && c.velocity.back[1].is_finite());
        }
    }
    // The smoke has spread from its source.
    let smoky = grid.cells().iter().filter(|c| c.smoke.back > 1e-3).count();
    assert!(smoky > 1, "{}", smoky);
}
