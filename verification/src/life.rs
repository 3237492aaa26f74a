//! The simulation: the Game-of-Life transition rule and the
//! double-buffered stepping engine over a grid.

use vstd::prelude::*;
use crate::board::{
    BoardError, Coordinates, Generation, Grid, Tile, TileState, cell_index, in_bounds_spec,
    lemma_cell_index_in_range,
};

verus! {

broadcast use vstd::seq_lib::group_seq_properties;

/// 1 if (x, y) is an in-bounds cell holding `Alive`, else 0.
/// Out-of-bounds positions contribute nothing: the board is bounded,
/// not toroidal.
pub open spec fn alive_at(width: int, height: int, cells: Seq<TileState>, x: int, y: int) -> nat {
    if in_bounds_spec(width, height, x, y) && cells[cell_index(width, x, y)] is Alive {
        1
    } else {
        0
    }
}

/// How many of the up-to-8 neighbors of (x, y) are `Alive`, in the
/// same fixed order the executable code visits them.
pub open spec fn neighbor_count(
    width: int,
    height: int,
    cells: Seq<TileState>,
    x: int,
    y: int,
) -> nat {
    alive_at(width, height, cells, x - 1, y - 1) + alive_at(width, height, cells, x, y - 1)
        + alive_at(width, height, cells, x + 1, y - 1) + alive_at(width, height, cells, x - 1, y)
        + alive_at(width, height, cells, x + 1, y) + alive_at(width, height, cells, x - 1, y + 1)
        + alive_at(width, height, cells, x, y + 1) + alive_at(width, height, cells, x + 1, y + 1)
}

/// The Game-of-Life transition rule for one cell: an `Alive` cell
/// with fewer than 2 or more than 3 alive neighbors dies; a `Dead`
/// cell with exactly 3 alive neighbors revives; all else is unchanged.
pub open spec fn rule(state: TileState, alive_neighbors: nat) -> TileState {
    match state {
        TileState::Alive => if alive_neighbors < 2 || alive_neighbors > 3 {
            TileState::Dead
        } else {
            TileState::Alive
        },
        TileState::Dead => if alive_neighbors == 3 {
            TileState::Alive
        } else {
            TileState::Dead
        },
    }
}

/// The whole next generation: the rule applied to every cell of the
/// current one.
pub open spec fn next_cells(width: int, height: int, cells: Seq<TileState>) -> Seq<TileState> {
    Seq::new(
        cells.len(),
        |i: int| rule(cells[i], neighbor_count(width, height, cells, i % width, i / width)),
    )
}

/// The generation reached from `cells` after `n` steps of the rule.
pub open spec fn run_steps(width: int, height: int, cells: Seq<TileState>, n: nat) -> Seq<
    TileState,
> decreases n {
    if n == 0 {
        cells
    } else {
        next_cells(width, height, run_steps(width, height, cells, (n - 1) as nat))
    }
}

/// The executable transition rule, exactly the `rule` spec.
pub fn apply_rule(state: TileState, alive_neighbors: u8) -> (r: TileState)
    ensures
        r == rule(state, alive_neighbors as nat),
{
    match state {
        TileState::Alive => {
            if alive_neighbors < 2 || alive_neighbors > 3 {
                TileState::Dead
            } else {
                TileState::Alive
            }
        },
        TileState::Dead => {
            if alive_neighbors == 3 {
                TileState::Alive
            } else {
                TileState::Dead
            }
        },
    }
}

impl Grid {
    /// 1 if the coordinate is an in-bounds `Alive` cell, else 0.
    fn alive_contrib(&self, coords: &Coordinates) -> (r: u8)
        requires
            self.wf(),
        ensures
            r as nat == alive_at(
                self.width as int,
                self.height as int,
                self.gen@,
                coords.x as int,
                coords.y as int,
            ),
    {
        match self.get(coords) {
            Ok(TileState::Alive) => 1,
            _ => 0,
        }
    }

    /// Counts the `Alive` cells among the 8 neighbors of an in-bounds
    /// cell, clipped at the board's edges.
    pub fn count_alive_neighbors(&self, coords: &Coordinates) -> (r: u8)
        requires
            self.wf(),
            self.in_bounds_at(coords.x as int, coords.y as int),
        ensures
            r as nat == neighbor_count(
                self.width as int,
                self.height as int,
                self.gen@,
                coords.x as int,
                coords.y as int,
            ),
            r <= 8,
    {
        proof {
            assert(self.width as int <= (self.width as int) * (self.height as int))
                by (nonlinear_arith)
                requires
                    1 <= self.width as int,
                    1 <= self.height as int,
            ;
            assert(self.height as int <= (self.width as int) * (self.height as int))
                by (nonlinear_arith)
                requires
                    1 <= self.width as int,
                    1 <= self.height as int,
            ;
        }
        let ns = coords.get_neighbors();
        let mut count: u8 = 0;
        count = count + self.alive_contrib(&ns[0]);
        count = count + self.alive_contrib(&ns[1]);
        count = count + self.alive_contrib(&ns[2]);
        count = count + self.alive_contrib(&ns[3]);
        count = count + self.alive_contrib(&ns[4]);
        count = count + self.alive_contrib(&ns[5]);
        count = count + self.alive_contrib(&ns[6]);
        count = count + self.alive_contrib(&ns[7]);
        count
    }
}

/// Recovers (x, y) from a row-major index.
proof fn lemma_row_major_div_mod(width: int, x: int, y: int)
    requires
        0 < width,
        0 <= x < width,
        0 <= y,
    ensures
        (y * width + x) % width == x,
        (y * width + x) / width == y,
{
    vstd::arithmetic::div_mod::lemma_fundamental_div_mod_converse(y * width + x, width, y, x);
}

/// No spontaneous life: on a board with no `Alive` cell at all, one
/// step of the rule leaves every cell `Dead` — a cell only revives
/// with exactly 3 alive neighbors, and there are none.
pub proof fn lemma_dead_board_stays_dead(width: int, height: int, cells: Seq<TileState>)
    requires
        0 < width,
        0 < height,
        cells.len() == width * height,
        forall|i: int| 0 <= i < cells.len() ==> cells[i] is Dead,
    ensures
        next_cells(width, height, cells) == cells,
{
    assert forall|x: int, y: int| in_bounds_spec(width, height, x, y)
        implies alive_at(width, height, cells, x, y) == 0 by {
        lemma_cell_index_in_range(width, height, x, y);
    }
    assert forall|i: int| 0 <= i < cells.len()
        implies next_cells(width, height, cells)[i] == cells[i] by {
        assert(neighbor_count(width, height, cells, i % width, i / width) == 0);
    }
    assert(next_cells(width, height, cells) =~= cells);
}

/// Determinism: stepping is a pure function of the current
/// generation. Two simulations built from identical grids (hence
/// equal generations) agree after any number of steps — `step`'s
/// contract pins each new generation to `next_cells` of the old one,
/// which `run_steps` iterates, and the core draws on nothing else.
pub proof fn lemma_deterministic(
    width: int,
    height: int,
    a: Seq<TileState>,
    b: Seq<TileState>,
    n: nat,
)
    requires
        a == b,
    ensures
        run_steps(width, height, a, n) == run_steps(width, height, b, n),
{
}

/// The simulation: one grid holding the current generation, advanced
/// a whole generation at a time, plus the coordinates that changed in
/// the latest step (empty before the first step).
pub struct Simulation {
    pub grid: Grid,
    pub changed: Vec<Coordinates>,
}

impl Simulation {
    /// The simulation is valid whenever its grid is.
    pub open spec fn wf(&self) -> bool {
        self.grid.wf()
    }

    /// Takes ownership of a grid whose cell states are the explicit
    /// initial generation. The core has no randomness of its own:
    /// seeding is the caller's responsibility, applied to the grid
    /// with `Grid::set` before construction.
    pub fn new(grid: Grid) -> (r: Simulation)
        requires
            grid.wf(),
        ensures
            r.wf(),
            r.grid == grid,
            r.changed@ =~= Seq::<Coordinates>::empty(),
    {
        Simulation { grid, changed: Vec::new() }
    }

    /// Takes ownership of a grid and a function assigning each
    /// coordinate its initial state, and applies it to every cell.
    /// The function is the injected seeding policy: a random one
    /// stays in the caller, keeping the core deterministic.
    pub fn new_seeded<F: Fn(Coordinates) -> TileState>(grid: Grid, initial_states: F) -> (r:
        Simulation)
        requires
            grid.wf(),
            forall|c: Coordinates|
                grid.in_bounds_at(c.x as int, c.y as int) ==> #[trigger] call_requires(
                    initial_states,
                    (c,),
                ),
        ensures
            r.wf(),
            r.grid.width == grid.width,
            r.grid.height == grid.height,
            r.changed@ =~= Seq::<Coordinates>::empty(),
            forall|x: int, y: int| #[trigger] in_bounds_spec(
                grid.width as int,
                grid.height as int,
                x,
                y,
            ) ==> call_ensures(
                initial_states,
                (Coordinates { x: x as i32, y: y as i32 },),
                r.grid.state_at(x, y),
            ),
    {
        let w = grid.width;
        let h = grid.height;
        let ghost wi = w as int;
        let ghost hi = h as int;
        let mut grid = grid;
        let mut y: i32 = 0;
        while y < h
            invariant
                grid.wf(),
                w == grid.width,
                h == grid.height,
                wi == w as int,
                hi == h as int,
                0 <= y <= h,
                forall|c: Coordinates|
                    in_bounds_spec(wi, hi, c.x as int, c.y as int) ==> #[trigger] call_requires(
                        initial_states,
                        (c,),
                    ),
                forall|x2: int, y2: int| #[trigger] in_bounds_spec(wi, hi, x2, y2)
                    && cell_index(wi, x2, y2) < (y as int) * wi ==> call_ensures(
                    initial_states,
                    (Coordinates { x: x2 as i32, y: y2 as i32 },),
                    grid.state_at(x2, y2),
                ),
            decreases h - y,
        {
            let mut x: i32 = 0;
            while x < w
                invariant
                    grid.wf(),
                    w == grid.width,
                    h == grid.height,
                    wi == w as int,
                    hi == h as int,
                    0 <= y < h,
                    0 <= x <= w,
                    forall|c: Coordinates|
                        in_bounds_spec(wi, hi, c.x as int, c.y as int) ==> #[trigger] call_requires(
                            initial_states,
                            (c,),
                        ),
                    forall|x2: int, y2: int| #[trigger] in_bounds_spec(wi, hi, x2, y2)
                        && cell_index(wi, x2, y2) < (y as int) * wi + (x as int) ==> call_ensures(
                        initial_states,
                        (Coordinates { x: x2 as i32, y: y2 as i32 },),
                        grid.state_at(x2, y2),
                    ),
                decreases w - x,
            {
                let c = Coordinates::new(x, y);
                proof {
                    lemma_cell_index_in_range(wi, hi, x as int, y as int);
                }
                let ghost gprev = grid;
                let s = initial_states(c);
                let res = grid.set(c, s);
                proof {
                    assert(res is Ok);
                    let k = cell_index(wi, x as int, y as int);
                    assert forall|x2: int, y2: int| #[trigger] in_bounds_spec(wi, hi, x2, y2)
                        && cell_index(wi, x2, y2) < (y as int) * wi + (x as int) + 1
                        implies call_ensures(
                        initial_states,
                        (Coordinates { x: x2 as i32, y: y2 as i32 },),
                        grid.state_at(x2, y2),
                    ) by {
                        lemma_cell_index_in_range(wi, hi, x2, y2);
                        if cell_index(wi, x2, y2) == k {
                            lemma_row_major_div_mod(wi, x2, y2);
                            lemma_row_major_div_mod(wi, x as int, y as int);
                            assert(x2 == x as int && y2 == y as int);
                            assert(grid.state_at(x2, y2) == s);
                        } else {
                            assert(grid.state_at(x2, y2) == gprev.state_at(x2, y2));
                        }
                    }
                }
                x = x + 1;
            }
            proof {
                assert(((y as int) + 1) * wi == (y as int) * wi + wi) by (nonlinear_arith);
            }
            y = y + 1;
        }
        proof {
            assert forall|x2: int, y2: int| #[trigger] in_bounds_spec(wi, hi, x2, y2)
                implies cell_index(wi, x2, y2) < hi * wi by {
                lemma_cell_index_in_range(wi, hi, x2, y2);
                assert(wi * hi == hi * wi) by (nonlinear_arith);
            }
        }
        Simulation { grid, changed: Vec::new() }
    }

    /// Computes the full next generation of `grid` into a fresh
    /// buffer, reading only the frozen current generation, together
    /// with the coordinates whose state differs.
    fn compute_next(grid: &Grid) -> (r: (Generation, Vec<Coordinates>))
        requires
            grid.wf(),
        ensures
            r.0@ == next_cells(grid.width as int, grid.height as int, grid.gen@),
            r.1@.no_duplicates(),
            forall|d: Coordinates| #[trigger] r.1@.contains(d) <==>
                grid.in_bounds_at(d.x as int, d.y as int)
                    && next_cells(grid.width as int, grid.height as int, grid.gen@)[
                    cell_index(grid.width as int, d.x as int, d.y as int)] != grid.state_at(
                    d.x as int,
                    d.y as int,
                ),
    {
        let w = grid.width;
        let h = grid.height;
        let ghost wi = w as int;
        let ghost hi = h as int;
        let ghost cur = grid.gen@;
        let ghost nxt = next_cells(wi, hi, cur);
        let mut tiles: Vec<Tile> = Vec::new();
        let mut changed: Vec<Coordinates> = Vec::new();
        let mut y: i32 = 0;
        while y < h
            invariant
                grid.wf(),
                w == grid.width,
                h == grid.height,
                wi == w as int,
                hi == h as int,
                cur == grid.gen@,
                nxt == next_cells(wi, hi, cur),
                0 <= y <= h,
                tiles@.len() == (y as int) * wi,
                forall|i: int| 0 <= i < tiles@.len() ==> #[trigger] tiles@[i].state == nxt[i],
                changed@.no_duplicates(),
                forall|d: Coordinates| #[trigger] changed@.contains(d) <==>
                    in_bounds_spec(wi, hi, d.x as int, d.y as int)
                        && cell_index(wi, d.x as int, d.y as int) < tiles@.len()
                        && nxt[cell_index(wi, d.x as int, d.y as int)] != cur[cell_index(
                        wi,
                        d.x as int,
                        d.y as int,
                    )],
            decreases h - y,
        {
            let mut x: i32 = 0;
            while x < w
                invariant
                    grid.wf(),
                    w == grid.width,
                    h == grid.height,
                    wi == w as int,
                    hi == h as int,
                    cur == grid.gen@,
                    nxt == next_cells(wi, hi, cur),
                    0 <= y < h,
                    0 <= x <= w,
                    tiles@.len() == (y as int) * wi + (x as int),
                    forall|i: int| 0 <= i < tiles@.len() ==> #[trigger] tiles@[i].state == nxt[i],
                    changed@.no_duplicates(),
                    forall|d: Coordinates| #[trigger] changed@.contains(d) <==>
                        in_bounds_spec(wi, hi, d.x as int, d.y as int)
                            && cell_index(wi, d.x as int, d.y as int) < tiles@.len()
                            && nxt[cell_index(wi, d.x as int, d.y as int)] != cur[cell_index(
                            wi,
                            d.x as int,
                            d.y as int,
                        )],
                decreases w - x,
            {
                let c = Coordinates::new(x, y);
                proof {
                    lemma_cell_index_in_range(wi, hi, x as int, y as int);
                    lemma_row_major_div_mod(wi, x as int, y as int);
                }
                let cur_state = match grid.get(&c) {
                    Ok(s) => s,
                    Err(_) => TileState::Dead,
                };
                let n = grid.count_alive_neighbors(&c);
                let new_state = apply_rule(cur_state, n);
                proof {
                    assert(new_state == nxt[cell_index(wi, x as int, y as int)]);
                    assert(!changed@.contains(c));
                }
                tiles.push(Tile { state: new_state });
                if new_state != cur_state {
                    changed.push(c);
                }
                proof {
                    assert forall|d: Coordinates| #[trigger] changed@.contains(d) implies
                        in_bounds_spec(wi, hi, d.x as int, d.y as int)
                            && cell_index(wi, d.x as int, d.y as int) < tiles@.len()
                            && nxt[cell_index(wi, d.x as int, d.y as int)] != cur[cell_index(
                            wi,
                            d.x as int,
                            d.y as int,
                        )] by {
                        if d != c {
                            assert(cell_index(wi, d.x as int, d.y as int) < tiles@.len() - 1);
                        }
                    }
                    assert forall|d: Coordinates|
                        in_bounds_spec(wi, hi, d.x as int, d.y as int)
                            && cell_index(wi, d.x as int, d.y as int) < tiles@.len()
                            && nxt[cell_index(wi, d.x as int, d.y as int)] != cur[cell_index(
                            wi,
                            d.x as int,
                            d.y as int,
                        )] implies #[trigger] changed@.contains(d) by {
                        if cell_index(wi, d.x as int, d.y as int) == tiles@.len() - 1 {
                            lemma_row_major_div_mod(wi, d.x as int, d.y as int);
                            assert(d == c);
                        }
                    }
                }
                x = x + 1;
            }
            proof {
                assert(((y as int) + 1) * wi == (y as int) * wi + wi) by (nonlinear_arith);
            }
            y = y + 1;
        }
        proof {
            assert(tiles@.len() == hi * wi);
            assert(hi * wi == wi * hi) by (nonlinear_arith);
            let result = Generation { tiles: tiles }@;
            assert(result =~= nxt);
            assert forall|d: Coordinates| in_bounds_spec(wi, hi, d.x as int, d.y as int)
                implies 0 <= cell_index(wi, d.x as int, d.y as int) < tiles@.len() by {
                lemma_cell_index_in_range(wi, hi, d.x as int, d.y as int);
            }
        }
        (Generation { tiles }, changed)
    }

    /// Advances the simulation one whole generation: every cell of
    /// the next generation is the rule applied to the frozen current
    /// one, and the swapped-in generation's changed coordinates are
    /// recorded. Never fails on a validly constructed simulation.
    pub fn step(&mut self)
        requires
            old(self).wf(),
        ensures
            final(self).wf(),
            final(self).grid.width == old(self).grid.width,
            final(self).grid.height == old(self).grid.height,
            final(self).grid.gen@ == next_cells(
                old(self).grid.width as int,
                old(self).grid.height as int,
                old(self).grid.gen@,
            ),
            final(self).changed@.no_duplicates(),
            forall|d: Coordinates| #[trigger] final(self).changed@.contains(d) <==>
                old(self).grid.in_bounds_at(d.x as int, d.y as int)
                    && final(self).grid.state_at(d.x as int, d.y as int) != old(self).grid.state_at(
                    d.x as int,
                    d.y as int,
                ),
    {
        let (next, changed) = Self::compute_next(&self.grid);
        proof {
            assert forall|d: Coordinates|
                self.grid.in_bounds_at(d.x as int, d.y as int) implies 0 <= cell_index(
                self.grid.width as int,
                d.x as int,
                d.y as int,
            ) < next@.len() by {
                lemma_cell_index_in_range(
                    self.grid.width as int,
                    self.grid.height as int,
                    d.x as int,
                    d.y as int,
                );
            }
        }
        self.grid.gen = next;
        self.changed = changed;
    }

    /// The state of the addressed cell in the current generation;
    /// `OutOfBounds` exactly when the coordinate lies outside the
    /// board. The presentation layer reads the board through this.
    pub fn current_state(&self, coords: &Coordinates) -> (r: Result<TileState, BoardError>)
        requires
            self.wf(),
        ensures
            r is Ok <==> self.grid.in_bounds_at(coords.x as int, coords.y as int),
            r matches Ok(s) ==> s == self.grid.state_at(coords.x as int, coords.y as int),
            r matches Err(e) ==> e == BoardError::OutOfBounds,
    {
        self.grid.get(coords)
    }

    /// The coordinates whose state differs between the current
    /// generation and the one it replaced in the latest `step`;
    /// empty before the first step. Computed during `step` itself,
    /// at no extra full-board pass, so a consumer can redraw only
    /// what changed.
    pub fn changed_since_last_step(&self) -> (r: &Vec<Coordinates>)
        ensures
            r == &self.changed,
    {
        &self.changed
    }
}

} // verus!
