use vstd::prelude::*;

use crate::dir::Dir;

verus! {

/// Side length of a square grid.
pub const GRID: usize = 10;

/// One square of a grid.
///
/// A ship segment records how far it lies from the two ends of its ship:
/// `back` steps against `dir` reach the first segment, `front` steps along
/// `dir` reach the last one.
#[derive(Clone, Copy, Debug, PartialEq, Eq, Structural)]
pub enum Cell {
    Water,
    Miss,
    Ship { dir: Dir, front: u8, back: u8, fire: bool, destroyed: bool },
}

pub open spec fn in_grid(x: int, y: int) -> bool {
    0 <= x < GRID as int && 0 <= y < GRID as int
}

/// The square `i` steps away from `(x, y)` in direction `d`.
pub open spec fn along(x: int, y: int, d: Dir, i: int) -> (int, int) {
    match d {
        Dir::Up => (x, y - i),
        Dir::Down => (x, y + i),
        Dir::Left => (x - i, y),
        Dir::Right => (x + i, y),
    }
}

/// Whether `(a, b)` lies on the line through `(x, y)` parallel to `d`.
pub open spec fn on_line(x: int, y: int, d: Dir, a: int, b: int) -> bool {
    match d {
        Dir::Up | Dir::Down => a == x,
        Dir::Left | Dir::Right => b == y,
    }
}

/// How many steps along `d` lead from `(x, y)` to `(a, b)`, for a square on
/// that line.
pub open spec fn steps_to(x: int, y: int, d: Dir, a: int, b: int) -> int {
    match d {
        Dir::Up => y - b,
        Dir::Down => b - y,
        Dir::Left => x - a,
        Dir::Right => a - x,
    }
}

/// Whether `(a, b)` is one of the squares `along(x, y, d, i)` with `lo <= i < hi`.
pub open spec fn in_run(x: int, y: int, d: Dir, lo: int, hi: int, a: int, b: int) -> bool {
    on_line(x, y, d, a, b) && lo <= steps_to(x, y, d, a, b) < hi
}

/// Chebyshev distance at most one.
pub open spec fn near(a: int, b: int, p: int, q: int) -> bool {
    -1 <= a - p <= 1 && -1 <= b - q <= 1
}

/// Whether a square holding `c` rules out a ship next to it; with
/// `destroyed_only` only sunk ships count.
pub open spec fn blocks(c: Cell, destroyed_only: bool) -> bool {
    match c {
        Cell::Ship { destroyed, .. } => !destroyed_only || destroyed,
        _ => false,
    }
}

pub proof fn lemma_along_on_line(x: int, y: int, d: Dir, i: int)
    ensures
        on_line(x, y, d, along(x, y, d, i).0, along(x, y, d, i).1),
        steps_to(x, y, d, along(x, y, d, i).0, along(x, y, d, i).1) == i,
{
}

pub proof fn lemma_on_line_along(x: int, y: int, d: Dir, a: int, b: int)
    requires
        on_line(x, y, d, a, b),
    ensures
        along(x, y, d, steps_to(x, y, d, a, b)) == (a, b),
{
}

/// A ten-by-ten grid of cells, stored row after row of `x`.
pub struct Field {
    cells: Vec<Cell>,
}

impl View for Field {
    type V = Seq<Cell>;

    closed spec fn view(&self) -> Seq<Cell> {
        self.cells@
    }
}

pub open spec fn index_of(x: int, y: int) -> int {
    x * (GRID as int) + y
}

impl Field {
    pub open spec fn wf(self) -> bool {
        self@.len() == GRID * GRID
    }

    /// The cell at column `x`, row `y`.
    pub open spec fn at(self, x: int, y: int) -> Cell {
        self@[index_of(x, y)]
    }

    /// Whether some square within distance one of `(p, q)` holds a ship that
    /// counts under `destroyed_only`.
    pub open spec fn touches_ship(self, p: int, q: int, destroyed_only: bool) -> bool {
        exists|a: int, b: int|
            in_grid(a, b) && near(a, b, p, q) && #[trigger] blocks(self.at(a, b), destroyed_only)
    }

    /// Whether square `(p, q)` cannot take a ship segment: it is off the grid
    /// or touches a ship.
    pub open spec fn square_blocked(self, p: (int, int), destroyed_only: bool) -> bool {
        !in_grid(p.0, p.1) || self.touches_ship(p.0, p.1, destroyed_only)
    }

    /// Whether a run of `length` squares from `(x, y)` along `d` leaves the
    /// grid or comes within distance one of a ship.
    pub open spec fn collides(self, x: int, y: int, length: int, d: Dir, destroyed_only: bool) -> bool {
        exists|i: int|
            0 <= i < length && #[trigger] self.square_blocked(along(x, y, d, i), destroyed_only)
    }

    /// An empty grid: water everywhere.
    pub fn new() -> (r: Field)
        ensures
            r.wf(),
            forall|x: int, y: int| in_grid(x, y) ==> #[trigger] r.at(x, y) == Cell::Water,
    {
        let mut cells: Vec<Cell> = Vec::new();
        while cells.len() < GRID * GRID
            invariant
                cells.len() <= GRID * GRID,
                forall|i: int| 0 <= i < cells@.len() ==> cells@[i] == Cell::Water,
            decreases GRID * GRID - cells.len(),
        {
            cells.push(Cell::Water);
        }
        Field { cells }
    }

    pub fn get(&self, x: usize, y: usize) -> (r: &Cell)
        requires
            self.wf(),
            x < GRID,
            y < GRID,
        ensures
            *r == self.at(x as int, y as int),
    {
        &self.cells[x * GRID + y]
    }

    pub fn get_mut(&mut self, x: usize, y: usize) -> (r: &mut Cell)
        requires
            old(self).wf(),
            x < GRID,
            y < GRID,
        ensures
            *r == old(self).at(x as int, y as int),
            final(self)@ == old(self)@.update(index_of(x as int, y as int), *final(r)),
    {
        &mut self.cells[x * GRID + y]
    }

    /// The cell at `(x, y)`, or `None` off the grid.
    pub fn checked_get(&self, x: isize, y: isize) -> (r: Option<&Cell>)
        requires
            self.wf(),
        ensures
            r.is_some() == in_grid(x as int, y as int),
            r matches Some(c) ==> *c == self.at(x as int, y as int),
    {
        if x >= 0 && y >= 0 && x < GRID as isize && y < GRID as isize {
            Some(self.get(x as usize, y as usize))
        } else {
            None
        }
    }

    pub fn set(&mut self, x: usize, y: usize, cell: Cell)
        requires
            old(self).wf(),
            x < GRID,
            y < GRID,
        ensures
            final(self)@ == old(self)@.update(index_of(x as int, y as int), cell),
    {
        self.cells.set(x * GRID + y, cell);
    }
}


/// `x + dx * i` and `y + dy * i` are the squares of `along`.
pub proof fn lemma_step(x: int, y: int, d: Dir, i: int)
    ensures
        x + d.dx() * i == along(x, y, d, i).0,
        y + d.dy() * i == along(x, y, d, i).1,
{
    match d {
        Dir::Up => assert(d.dy() * i == -i),
        Dir::Down => assert(d.dy() * i == i),
        Dir::Left => assert(d.dx() * i == -i),
        Dir::Right => assert(d.dx() * i == i),
    }
}

/// Distinct squares of the grid have distinct places in storage.
pub proof fn lemma_index_of(a: int, b: int, p: int, q: int)
    requires
        in_grid(a, b),
        in_grid(p, q),
    ensures
        0 <= index_of(a, b) < GRID * GRID,
        index_of(a, b) == index_of(p, q) <==> (a == p && b == q),
{
}

impl Field {
    /// Whether a square within distance one of `(px, py)` holds a ship that
    /// counts under `destroyed_only`.
    fn touches_ship_exec(&self, px: usize, py: usize, destroyed_only: bool) -> (r: bool)
        requires
            self.wf(),
            px < GRID,
            py < GRID,
        ensures
            r == self.touches_ship(px as int, py as int, destroyed_only),
    {
        let mut ddx: i32 = -1;
        while ddx <= 1
            invariant
                self.wf(),
                px < GRID,
                py < GRID,
                -1 <= ddx <= 2,
                forall|a: int, b: int|
                    in_grid(a, b) && near(a, b, px as int, py as int) && a - px < ddx
                        ==> !#[trigger] blocks(self.at(a, b), destroyed_only),
            decreases 2 - ddx,
        {
            let mut ddy: i32 = -1;
            while ddy <= 1
                invariant
                    self.wf(),
                    px < GRID,
                    py < GRID,
                    -1 <= ddx <= 1,
                    -1 <= ddy <= 2,
                    forall|a: int, b: int|
                        in_grid(a, b) && near(a, b, px as int, py as int) && (a - px < ddx || (a
                            - px == ddx && b - py < ddy)) ==> !#[trigger] blocks(
                            self.at(a, b),
                            destroyed_only,
                        ),
                decreases 2 - ddy,
            {
                let x = px as i32 + ddx;
                let y = py as i32 + ddy;
                if x >= 0 && y >= 0 && x < GRID as i32 && y < GRID as i32 {
                    let cell = self.get(x as usize, y as usize);
                    if let Cell::Ship { destroyed, .. } = cell {
                        if !(destroyed_only && !*destroyed) {
                            assert(blocks(self.at(x as int, y as int), destroyed_only));
                            return true;
                        }
                    }
                }
                ddy += 1;
            }
            ddx += 1;
        }
        false
    }

    /// Whether a ship of `length` squares from `(x, y)` along `dir` would
    /// leave the grid or touch a ship (only sunk ones, with `destroyed_only`).
    /// A start off the grid collides unless `length` is zero.
    pub fn has_collision(&self, x: usize, y: usize, length: u8, dir: Dir, destroyed_only: bool) -> (r: bool)
        requires
            self.wf(),
        ensures
            r == self.collides(x as int, y as int, length as int, dir, destroyed_only),
    {
        let mut i: u8 = 0;
        while i < length
            invariant
                self.wf(),
                i <= length,
                forall|j: int|
                    0 <= j < i ==> !#[trigger] self.square_blocked(
                        along(x as int, y as int, dir, j),
                        destroyed_only,
                    ),
            decreases length - i,
        {
            let (dx, dy) = dir.to_vec();
            proof {
                lemma_step(x as int, y as int, dir, i as int);
            }
            let cx = x as i128 + dx as i128 * i as i128;
            let cy = y as i128 + dy as i128 * i as i128;
            if cx >= 0 && cy >= 0 && cx < GRID as i128 && cy < GRID as i128 {
                if self.touches_ship_exec(cx as usize, cy as usize, destroyed_only) {
                    assert(self.square_blocked(along(x as int, y as int, dir, i as int), destroyed_only));
                    return true;
                }
            } else {
                assert(self.square_blocked(along(x as int, y as int, dir, i as int), destroyed_only));
                return true;
            }
            i += 1;
        }
        false
    }
}

impl Field {
    /// Replaces each cell `along(x, y, dir, i)` with `start_len <= i < end_len`
    /// that lies on the grid by `modifier(old cell, i)`; squares off the grid
    /// are skipped, wherever the run starts.
    pub fn modify_all<M>(&mut self, x: usize, y: usize, start_len: i8, end_len: i8, dir: Dir, modifier: M)
        where
            M: Fn(Cell, i8) -> Cell,
        requires
            old(self).wf(),
            forall|c: Cell, i: i8| start_len <= i < end_len ==> #[trigger] modifier.requires((c, i)),
        ensures
            final(self).wf(),
            forall|a: int, b: int|
                #![trigger final(self).at(a, b)]
                in_grid(a, b) ==> if in_run(
                    x as int,
                    y as int,
                    dir,
                    start_len as int,
                    end_len as int,
                    a,
                    b,
                ) {
                    modifier.ensures(
                        (old(self).at(a, b), steps_to(x as int, y as int, dir, a, b) as i8),
                        final(self).at(a, b),
                    )
                } else {
                    final(self).at(a, b) == old(self).at(a, b)
                },
    {
        let ghost start = *self;
        let mut i: i8 = start_len;
        while i < end_len
            invariant
                self.wf(),
                start.wf(),
                start_len <= i,
                i <= end_len || i == start_len,
                forall|c: Cell, j: i8| start_len <= j < end_len ==> #[trigger] modifier.requires((c, j)),
                forall|a: int, b: int|
                    #![trigger self.at(a, b)]
                    in_grid(a, b) ==> if in_run(
                        x as int,
                        y as int,
                        dir,
                        start_len as int,
                        i as int,
                        a,
                        b,
                    ) {
                        modifier.ensures(
                            (start.at(a, b), steps_to(x as int, y as int, dir, a, b) as i8),
                            self.at(a, b),
                        )
                    } else {
                        self.at(a, b) == start.at(a, b)
                    },
            decreases end_len - i,
        {
            let (dx, dy) = dir.to_vec();
            proof {
                lemma_step(x as int, y as int, dir, i as int);
                lemma_along_on_line(x as int, y as int, dir, i as int);
            }
            let cx = x as i128 + dx as i128 * i as i128;
            let cy = y as i128 + dy as i128 * i as i128;
            if cx >= 0 && cy >= 0 && cx < GRID as i128 && cy < GRID as i128 {
                let ghost before = *self;
                let c = *self.get(cx as usize, cy as usize);
                let n = modifier(c, i);
                self.set(cx as usize, cy as usize, n);
                proof {
                    assert forall|a: int, b: int| in_grid(a, b) && !(a == cx && b == cy) implies
                        #[trigger] self.at(a, b) == before.at(a, b) by {
                        lemma_index_of(a, b, cx as int, cy as int);
                    }
                    lemma_index_of(cx as int, cy as int, cx as int, cy as int);
                }
            }
            i += 1;
        }
    }
}

/// What a square shows on screen.
#[derive(Clone, Copy, Debug, PartialEq, Eq, Structural)]
pub enum CellView {
    Water,
    Miss,
    /// An unhit segment of one's own ship.
    ShipVisible,
    /// An unhit segment of the opponent's ship, drawn as water.
    ShipHidden,
    Hit,
    Destroyed,
}

/// How `c` is drawn; `hidden` hides unhit ships of the opponent.
pub open spec fn spec_cell_view(c: Cell, hidden: bool) -> CellView {
    match c {
        Cell::Water => CellView::Water,
        Cell::Miss => CellView::Miss,
        Cell::Ship { fire, destroyed, .. } => if fire && destroyed {
            CellView::Destroyed
        } else if fire {
            CellView::Hit
        } else if hidden {
            CellView::ShipHidden
        } else {
            CellView::ShipVisible
        },
    }
}

impl Field {
    /// How the square `(x, y)` is drawn.
    pub fn view_cell(&self, x: usize, y: usize, hidden: bool) -> (r: CellView)
        requires
            self.wf(),
            x < GRID,
            y < GRID,
        ensures
            r == spec_cell_view(self.at(x as int, y as int), hidden),
    {
        match self.get(x, y) {
            Cell::Water => CellView::Water,
            Cell::Miss => CellView::Miss,
            Cell::Ship { fire, destroyed, .. } => {
                if *fire {
                    if *destroyed {
                        CellView::Destroyed
                    } else {
                        CellView::Hit
                    }
                } else if !hidden {
                    CellView::ShipVisible
                } else {
                    CellView::ShipHidden
                }
            },
        }
    }
}

} // verus!
