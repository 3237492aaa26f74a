//! The board: cell states, coordinates, and the bounded grid that
//! stores one full generation of cells.

use vstd::prelude::*;
use vstd::pervasive::VecAdditionalExecFns;

verus! {

broadcast use vstd::seq_lib::group_seq_properties;

/// The state of a single cell. No other states exist.
#[derive(Copy, Clone, Debug, PartialEq, Eq, Structural)]
pub enum TileState {
    Alive,
    Dead,
}

/// One addressable unit of the board, holding its cell state.
#[derive(Copy, Clone, Debug, PartialEq, Eq, Structural)]
pub struct Tile {
    pub state: TileState,
}

/// The two ways a board operation can fail: rejected construction
/// dimensions, and a coordinate outside `[0, width) x [0, height)`.
#[derive(Copy, Clone, Debug, PartialEq, Eq, Structural)]
pub enum BoardError {
    InvalidDimensions,
    OutOfBounds,
}

/// An (x, y) pair identifying a cell. Equality is by (x, y).
#[derive(Copy, Clone, Debug, PartialEq, Eq, Hash, Structural)]
pub struct Coordinates {
    pub x: i32,
    pub y: i32,
}

impl Coordinates {
    pub fn new(x: i32, y: i32) -> (r: Coordinates)
        ensures
            r.x == x,
            r.y == y,
    {
        Coordinates { x, y }
    }

    /// Componentwise translation; the basis of neighbor lookup.
    pub fn offset(&self, dx: i32, dy: i32) -> (r: Coordinates)
        requires
            i32::MIN <= self.x + dx <= i32::MAX,
            i32::MIN <= self.y + dy <= i32::MAX,
        ensures
            r.x == self.x + dx,
            r.y == self.y + dy,
    {
        Coordinates::new(self.x + dx, self.y + dy)
    }

    /// The eight coordinates offset from `self` by the (±1, ±1)
    /// combinations excluding (0, 0), in a fixed order. No bounds
    /// are applied here; the grid clips them (`Grid::neighbors_of`).
    pub fn get_neighbors(&self) -> (r: Vec<Coordinates>)
        requires
            i32::MIN < self.x < i32::MAX,
            i32::MIN < self.y < i32::MAX,
        ensures
            r@.len() == 8,
            r@[0] == (Coordinates { x: (self.x - 1) as i32, y: (self.y - 1) as i32 }),
            r@[1] == (Coordinates { x: self.x, y: (self.y - 1) as i32 }),
            r@[2] == (Coordinates { x: (self.x + 1) as i32, y: (self.y - 1) as i32 }),
            r@[3] == (Coordinates { x: (self.x - 1) as i32, y: self.y }),
            r@[4] == (Coordinates { x: (self.x + 1) as i32, y: self.y }),
            r@[5] == (Coordinates { x: (self.x - 1) as i32, y: (self.y + 1) as i32 }),
            r@[6] == (Coordinates { x: self.x, y: (self.y + 1) as i32 }),
            r@[7] == (Coordinates { x: (self.x + 1) as i32, y: (self.y + 1) as i32 }),
    {
        let mut r: Vec<Coordinates> = Vec::new();
        r.push(self.offset(-1, -1));
        r.push(self.offset(0, -1));
        r.push(self.offset(1, -1));
        r.push(self.offset(-1, 0));
        r.push(self.offset(1, 0));
        r.push(self.offset(-1, 1));
        r.push(self.offset(0, 1));
        r.push(self.offset(1, 1));
        r
    }
}

/// Whether `d` is one of the up-to-8 cells adjacent to `c`,
/// including diagonals and excluding `c` itself.
pub open spec fn is_neighbor(c: Coordinates, d: Coordinates) -> bool {
    let dx = d.x as int - c.x as int;
    let dy = d.y as int - c.y as int;
    -1 <= dx <= 1 && -1 <= dy <= 1 && !(dx == 0 && dy == 0)
}

/// Whether (x, y) lies on a `width` by `height` board.
pub open spec fn in_bounds_spec(width: int, height: int, x: int, y: int) -> bool {
    0 <= x < width && 0 <= y < height
}

/// The row-major position of (x, y) in a board of the given width.
pub open spec fn cell_index(width: int, x: int, y: int) -> int {
    y * width + x
}

/// A row-major index stays inside the board's cell storage.
pub proof fn lemma_cell_index_in_range(width: int, height: int, x: int, y: int)
    by (nonlinear_arith)
    requires
        in_bounds_spec(width, height, x, y),
    ensures
        0 <= cell_index(width, x, y) < width * height,
        y * width <= width * height,
{
}

/// A coordinate just past any edge of the board is out of bounds for
/// every board size: `x == width`, `x == -1`, `y == height` and
/// `y == -1` all fail the bounds test, so every coordinate-addressed
/// read or write (`get`, `set`, `current_state`) rejects it with
/// `OutOfBounds` by those functions' contracts.
pub proof fn lemma_boundary_rejected(width: int, height: int, x: int, y: int)
    ensures
        !in_bounds_spec(width, height, width, y),
        !in_bounds_spec(width, height, -1, y),
        !in_bounds_spec(width, height, x, height),
        !in_bounds_spec(width, height, x, -1),
{
}

/// A full snapshot of cell states for every cell of a board at one
/// simulation tick, stored row-major. Viewed as the sequence of states.
pub struct Generation {
    pub tiles: Vec<Tile>,
}

impl View for Generation {
    type V = Seq<TileState>;

    open spec fn view(&self) -> Seq<TileState> {
        Seq::new(self.tiles@.len(), |i: int| self.tiles@[i].state)
    }
}

/// A fixed-size bounded board: its dimensions and one generation of
/// cell states. The board never resizes and never wraps around.
pub struct Grid {
    pub width: i32,
    pub height: i32,
    pub gen: Generation,
}

impl Grid {
    /// The structural invariant: positive dimensions whose product
    /// fits the index arithmetic, and one stored state per cell.
    pub open spec fn wf(&self) -> bool {
        &&& 0 < self.width
        &&& 0 < self.height
        &&& (self.width as int) * (self.height as int) <= i32::MAX as int
        &&& self.gen@.len() == (self.width as int) * (self.height as int)
    }

    /// Whether (x, y) lies on this board.
    pub open spec fn in_bounds_at(&self, x: int, y: int) -> bool {
        in_bounds_spec(self.width as int, self.height as int, x, y)
    }

    /// The state stored for the in-bounds coordinate (x, y).
    pub open spec fn state_at(&self, x: int, y: int) -> TileState {
        self.gen@[cell_index(self.width as int, x, y)]
    }

    /// An all-`Dead` board of the given dimensions. Non-positive
    /// dimensions are a programmer error and are excluded outright;
    /// `try_new` is the checked form.
    pub fn new(width: i32, height: i32) -> (r: Grid)
        requires
            0 < width,
            0 < height,
            width * height <= i32::MAX,
        ensures
            r.wf(),
            r.width == width,
            r.height == height,
            forall|x: int, y: int|
                r.in_bounds_at(x, y) ==> r.state_at(x, y) == TileState::Dead,
    {
        proof {
            lemma_cell_index_in_range(width as int, height as int, (width - 1) as int, (height - 1) as int);
        }
        let count: usize = (width as usize) * (height as usize);
        let mut tiles: Vec<Tile> = Vec::new();
        let mut i: usize = 0;
        while i < count
            invariant
                i <= count,
                tiles@.len() == i,
                forall|j: int| 0 <= j < i ==> tiles@[j].state == TileState::Dead,
            decreases count - i,
        {
            tiles.push(Tile { state: TileState::Dead });
            i = i + 1;
        }
        let gen = Generation { tiles };
        let r = Grid { width, height, gen };
        proof {
            assert forall|x: int, y: int| r.in_bounds_at(x, y)
                implies r.state_at(x, y) == TileState::Dead by {
                lemma_cell_index_in_range(width as int, height as int, x, y);
            }
        }
        r
    }

    /// The checked constructor: rejects non-positive dimensions, and
    /// dimensions whose cell count overflows the index arithmetic,
    /// with `InvalidDimensions`.
    pub fn try_new(width: i32, height: i32) -> (r: Result<Grid, BoardError>)
        ensures
            (0 < width && 0 < height && width * height <= i32::MAX) <==> r is Ok,
            r matches Ok(g) ==> {
                &&& g.wf()
                &&& g.width == width
                &&& g.height == height
                &&& forall|x: int, y: int|
                    g.in_bounds_at(x, y) ==> g.state_at(x, y) == TileState::Dead
            },
            r matches Err(e) ==> e == BoardError::InvalidDimensions,
    {
        if width <= 0 || height <= 0 {
            return Err(BoardError::InvalidDimensions);
        }
        proof {
            assert(1 <= (width as int) * (height as int) <= 0x7fff_ffff * 0x7fff_ffff)
                by (nonlinear_arith)
                requires
                    1 <= width as int <= 0x7fff_ffff,
                    1 <= height as int <= 0x7fff_ffff,
            ;
        }
        if (width as i64) * (height as i64) > i32::MAX as i64 {
            return Err(BoardError::InvalidDimensions);
        }
        Ok(Grid::new(width, height))
    }

    /// Whether the coordinate lies on this board.
    pub fn in_bounds(&self, coords: &Coordinates) -> (r: bool)
        ensures
            r == self.in_bounds_at(coords.x as int, coords.y as int),
    {
        0 <= coords.x && coords.x < self.width && 0 <= coords.y && coords.y < self.height
    }

    /// The row-major storage index of an in-bounds coordinate.
    fn index_of(&self, coords: &Coordinates) -> (r: usize)
        requires
            self.wf(),
            self.in_bounds_at(coords.x as int, coords.y as int),
        ensures
            r == cell_index(self.width as int, coords.x as int, coords.y as int),
            r < self.gen@.len(),
    {
        proof {
            lemma_cell_index_in_range(
                self.width as int,
                self.height as int,
                coords.x as int,
                coords.y as int,
            );
        }
        (coords.y as usize) * (self.width as usize) + (coords.x as usize)
    }

    /// The up-to-8 in-bounds coordinates adjacent to an in-bounds
    /// cell: at most 8 distinct coordinates, all strictly in-bounds,
    /// never including the cell itself, in a fixed deterministic order.
    pub fn neighbors_of(&self, coords: &Coordinates) -> (r: Vec<Coordinates>)
        requires
            self.wf(),
            self.in_bounds_at(coords.x as int, coords.y as int),
        ensures
            r@.len() <= 8,
            r@.no_duplicates(),
            !r@.contains(*coords),
            forall|d: Coordinates| #[trigger] r@.contains(d) <==>
                (is_neighbor(*coords, d) && self.in_bounds_at(d.x as int, d.y as int)),
    {
        proof {
            assert(self.width as int <= (self.width as int) * (self.height as int))
                by (nonlinear_arith)
                requires
                    1 <= self.width as int,
                    1 <= self.height as int,
            ;
            assert(self.height as int <= (self.width as int) * (self.height as int))
                by (nonlinear_arith)
                requires
                    1 <= self.width as int,
                    1 <= self.height as int,
            ;
        }
        let ns = coords.get_neighbors();
        let mut r: Vec<Coordinates> = Vec::new();
        let mut i: usize = 0;
        while i < 8
            invariant
                i <= 8,
                ns@.len() == 8,
                forall|j: int, k: int| 0 <= j < k < 8 ==> ns@[j] != ns@[k],
                forall|j: int| 0 <= j < 8 ==> is_neighbor(*coords, #[trigger] ns@[j]),
                r@.len() <= i,
                r@.no_duplicates(),
                forall|d: Coordinates| #[trigger] r@.contains(d) ==> exists|j: int|
                    0 <= j < i && ns@[j] == d,
                forall|d: Coordinates| #[trigger] r@.contains(d) ==>
                    self.in_bounds_at(d.x as int, d.y as int),
                forall|j: int| 0 <= j < i
                    && self.in_bounds_at(#[trigger] ns@[j].x as int, ns@[j].y as int)
                    ==> r@.contains(ns@[j]),
            decreases 8 - i,
        {
            let c = ns[i];
            if self.in_bounds(&c) {
                proof {
                    assert(!r@.contains(c));
                }
                r.push(c);
            }
            i = i + 1;
        }
        proof {
            assert forall|d: Coordinates|
                is_neighbor(*coords, d) && self.in_bounds_at(d.x as int, d.y as int)
                implies r@.contains(d) by {
                assert(d == ns@[0] || d == ns@[1] || d == ns@[2] || d == ns@[3]
                    || d == ns@[4] || d == ns@[5] || d == ns@[6] || d == ns@[7]);
            }
            assert(!r@.contains(*coords));
        }
        r
    }

    /// The state of the addressed cell; `OutOfBounds` exactly when the
    /// coordinate lies outside the board.
    pub fn get(&self, coords: &Coordinates) -> (r: Result<TileState, BoardError>)
        requires
            self.wf(),
        ensures
            r is Ok <==> self.in_bounds_at(coords.x as int, coords.y as int),
            r matches Ok(s) ==> s == self.state_at(coords.x as int, coords.y as int),
            r matches Err(e) ==> e == BoardError::OutOfBounds,
    {
        if !self.in_bounds(coords) {
            return Err(BoardError::OutOfBounds);
        }
        let i = self.index_of(coords);
        Ok(self.gen.tiles[i].state)
    }

    /// Writes the addressed cell; `OutOfBounds` exactly when the
    /// coordinate lies outside the board, leaving the board unchanged.
    pub fn set(&mut self, coords: Coordinates, state: TileState) -> (r: Result<(), BoardError>)
        requires
            old(self).wf(),
        ensures
            final(self).wf(),
            final(self).width == old(self).width,
            final(self).height == old(self).height,
            r is Ok <==> old(self).in_bounds_at(coords.x as int, coords.y as int),
            r is Ok ==> final(self).gen@ == old(self).gen@.update(
                cell_index(old(self).width as int, coords.x as int, coords.y as int),
                state,
            ),
            r is Err ==> *final(self) == *old(self),
            r matches Err(e) ==> e == BoardError::OutOfBounds,
    {
        if !self.in_bounds(&coords) {
            return Err(BoardError::OutOfBounds);
        }
        let i = self.index_of(&coords);
        self.gen.tiles.set(i, Tile { state });
        proof {
            assert(self.gen@ =~= old(self).gen@.update(
                cell_index(old(self).width as int, coords.x as int, coords.y as int),
                state,
            ));
        }
        Ok(())
    }
}

} // verus!
