use vstd::prelude::*;

use crate::dir::Dir;
use crate::field::{
    along, in_grid, in_run, lemma_along_on_line, lemma_on_line_along, near, on_line, steps_to,
    Cell, Field, GRID,
};

verus! {

pub open spec fn is_ship(c: Cell) -> bool {
    c is Ship
}

/// A segment that has been hit.
pub open spec fn is_fired(c: Cell) -> bool {
    match c {
        Cell::Ship { fire, .. } => fire,
        _ => false,
    }
}

pub open spec fn ship_dir(c: Cell) -> Dir {
    match c {
        Cell::Ship { dir, .. } => dir,
        _ => Dir::Up,
    }
}

/// The first square of the ship that a segment at `(x, y)` belongs to.
pub open spec fn stern(x: int, y: int, c: Cell) -> (int, int) {
    match c {
        Cell::Ship { dir, back, .. } => along(x, y, dir, -(back as int)),
        _ => (x, y),
    }
}

/// `e` is the segment `k` steps further along the ship of segment `c`.
pub open spec fn same_ship(c: Cell, e: Cell, k: int) -> bool {
    match c {
        Cell::Ship { dir, front, back, destroyed, .. } => match e {
            Cell::Ship { dir: dir2, front: front2, back: back2, destroyed: destroyed2, .. } => dir2
                == dir && back2 as int == back as int + k && front2 as int == front as int - k
                && destroyed2 == destroyed,
            _ => false,
        },
        _ => false,
    }
}

/// The segment written at step `i` of a ship of `length` squares along `dir`.
pub open spec fn fresh_segment(dir: Dir, length: int, i: int) -> Cell {
    Cell::Ship { dir, front: (length - 1 - i) as u8, back: i as u8, fire: false, destroyed: false }
}

/// An unhit segment of a ship not sunk: what placing writes.
pub open spec fn is_fresh(c: Cell) -> bool {
    match c {
        Cell::Ship { fire, destroyed, .. } => !fire && !destroyed,
        _ => false,
    }
}

/// `fin` is `start` with ships added: every square that changed held no
/// ship and now holds an unhit segment, so every ship of `start` is kept.
pub open spec fn grown(start: Field, fin: Field) -> bool {
    &&& fin.wf()
    &&& forall|a: int, b: int|
        #![trigger fin.at(a, b)]
        in_grid(a, b) ==> fin.at(a, b) == start.at(a, b) || (!is_ship(start.at(a, b)) && is_fresh(
            fin.at(a, b),
        ))
}

/// Adding ships twice is adding ships.
pub proof fn lemma_grown_trans(f1: Field, f2: Field, f3: Field)
    requires
        grown(f1, f2),
        grown(f2, f3),
    ensures
        grown(f1, f3),
{
    assert forall|a: int, b: int| #![trigger f3.at(a, b)] in_grid(a, b) implies f3.at(a, b) == f1.at(a, b)
        || (!is_ship(f1.at(a, b)) && is_fresh(f3.at(a, b))) by {
        assert(f2.at(a, b) == f1.at(a, b) || (!is_ship(f1.at(a, b)) && is_fresh(f2.at(a, b))));
    }
}

pub proof fn lemma_grown_refl(f: Field)
    requires
        f.wf(),
    ensures
        grown(f, f),
{
}

impl Field {
    /// The square `k` steps along the ship of the segment `c` at `(x, y)`
    /// holds the matching segment.
    pub open spec fn has_segment(self, x: int, y: int, c: Cell, k: int) -> bool {
        let p = along(x, y, ship_dir(c), k);
        in_grid(p.0, p.1) && same_ship(c, self.at(p.0, p.1), k)
    }

    pub open spec fn fired_along(self, x: int, y: int, c: Cell, k: int) -> bool {
        let p = along(x, y, ship_dir(c), k);
        is_fired(self.at(p.0, p.1))
    }

    /// A segment at `(x, y)` sees its whole ship, of one to four squares, on
    /// the grid.
    pub open spec fn ship_complete(self, x: int, y: int) -> bool {
        let c = self.at(x, y);
        match c {
            Cell::Ship { front, back, .. } => front + back < 4 && forall|k: int|
                -back <= k <= front ==> #[trigger] self.has_segment(x, y, c, k),
            _ => true,
        }
    }

    /// A ship is marked sunk exactly when every one of its segments is hit.
    pub open spec fn sunk_exact(self, x: int, y: int) -> bool {
        let c = self.at(x, y);
        match c {
            Cell::Ship { front, back, fire, destroyed, .. } => (destroyed ==> fire) && ((forall|
                k: int,
            |
                -back <= k <= front ==> #[trigger] self.fired_along(x, y, c, k)) ==> destroyed),
            _ => true,
        }
    }

    /// Segments of two different ships never lie within distance one.
    pub open spec fn apart(self, x1: int, y1: int, x2: int, y2: int) -> bool {
        in_grid(x1, y1) && in_grid(x2, y2) && near(x1, y1, x2, y2) && is_ship(self.at(x1, y1))
            && is_ship(self.at(x2, y2)) ==> stern(x1, y1, self.at(x1, y1)) == stern(
            x2,
            y2,
            self.at(x2, y2),
        )
    }

    /// The grid holds only whole, straight, non-touching ships whose sunk
    /// marks agree with their hits.
    pub open spec fn fleet_ok(self) -> bool {
        &&& self.wf()
        &&& forall|x: int, y: int| in_grid(x, y) ==> #[trigger] self.ship_complete(x, y)
        &&& forall|x: int, y: int| in_grid(x, y) ==> #[trigger] self.sunk_exact(x, y)
        &&& forall|x1: int, y1: int, x2: int, y2: int| #[trigger]
            self.apart(x1, y1, x2, y2)
    }
}

/// An empty grid holds a valid fleet.
pub proof fn lemma_empty_fleet(f: Field)
    requires
        f.wf(),
        forall|x: int, y: int| in_grid(x, y) ==> #[trigger] f.at(x, y) == Cell::Water,
    ensures
        f.fleet_ok(),
{
    assert forall|x: int, y: int| in_grid(x, y) implies #[trigger] f.ship_complete(x, y) by {
        assert(f.at(x, y) == Cell::Water);
    }
    assert forall|x: int, y: int| in_grid(x, y) implies #[trigger] f.sunk_exact(x, y) by {
        assert(f.at(x, y) == Cell::Water);
    }
    assert forall|x1: int, y1: int, x2: int, y2: int| #[trigger] f.apart(x1, y1, x2, y2) by {
        if in_grid(x1, y1) {
            assert(f.at(x1, y1) == Cell::Water);
        }
    }
}

impl Field {
    /// Writes a new ship of `length` squares from `(x, y)` along `dir`:
    /// segment `i` gets `back == i` and `front == length - 1 - i`, unhit.
    /// The caller has checked that the place is free.
    pub fn place_ship(&mut self, x: usize, y: usize, length: u8, dir: Dir)
        requires
            old(self).fleet_ok(),
            x < GRID,
            y < GRID,
            1 <= length <= 4,
            !old(self).collides(x as int, y as int, length as int, dir, false),
        ensures
            final(self).fleet_ok(),
            forall|a: int, b: int|
                #![trigger final(self).at(a, b)]
                in_grid(a, b) ==> final(self).at(a, b) == if in_run(
                    x as int,
                    y as int,
                    dir,
                    0,
                    length as int,
                    a,
                    b,
                ) {
                    fresh_segment(dir, length as int, steps_to(x as int, y as int, dir, a, b))
                } else {
                    old(self).at(a, b)
                },
            grown(*old(self), *final(self)),
    {
        let ghost start = *self;
        let modifier = |c: Cell, i: i8| -> (r: Cell)
            requires
                0 <= i < length,
            ensures
                r == fresh_segment(dir, length as int, i as int),
            { Cell::Ship { dir, back: i as u8, front: length - i as u8 - 1, fire: false, destroyed: false } };
        self.modify_all(x, y, 0, length as i8, dir, modifier);
        proof {
            let xi = x as int;
            let yi = y as int;
            let len = length as int;
            let fin = *self;
            assert forall|a: int, b: int| #![trigger fin.at(a, b)] in_grid(a, b) implies fin.at(a, b)
                == if in_run(xi, yi, dir, 0, len, a, b) {
                fresh_segment(dir, len, steps_to(xi, yi, dir, a, b))
            } else {
                start.at(a, b)
            } by {
                if in_run(xi, yi, dir, 0, len, a, b) {
                    let i = steps_to(xi, yi, dir, a, b);
                    assert(0 <= i < length);
                }
            }
            lemma_place_fleet(start, fin, xi, yi, len, dir);
            assert forall|a: int, b: int| #![trigger fin.at(a, b)] in_grid(a, b) implies fin.at(a, b)
                == start.at(a, b) || (!is_ship(start.at(a, b)) && is_fresh(fin.at(a, b))) by {
                if in_run(xi, yi, dir, 0, len, a, b) {
                    lemma_on_line_along(xi, yi, dir, a, b);
                    lemma_run_free(start, xi, yi, len, dir, steps_to(xi, yi, dir, a, b));
                }
            }
        }
    }
}

/// The facts that placing a ship on a free run needs of each square.
pub open spec fn placed(start: Field, fin: Field, x: int, y: int, len: int, dir: Dir) -> bool {
    &&& start.fleet_ok()
    &&& fin.wf()
    &&& 1 <= len <= 4
    &&& !start.collides(x, y, len, dir, false)
    &&& forall|a: int, b: int|
        #![trigger fin.at(a, b)]
        in_grid(a, b) ==> fin.at(a, b) == if in_run(x, y, dir, 0, len, a, b) {
            fresh_segment(dir, len, steps_to(x, y, dir, a, b))
        } else {
            start.at(a, b)
        }
}

/// Each square of a free run is on the grid and holds no ship.
proof fn lemma_run_free(start: Field, x: int, y: int, len: int, dir: Dir, i: int)
    requires
        !start.collides(x, y, len, dir, false),
        0 <= i < len,
    ensures
        in_grid(along(x, y, dir, i).0, along(x, y, dir, i).1),
        !is_ship(start.at(along(x, y, dir, i).0, along(x, y, dir, i).1)),
{
    assert(!start.square_blocked(along(x, y, dir, i), false));
    let p = along(x, y, dir, i);
    if is_ship(start.at(p.0, p.1)) {
        assert(crate::field::blocks(start.at(p.0, p.1), false));
        assert(start.touches_ship(p.0, p.1, false));
    }
}

proof fn lemma_place_new_square(start: Field, fin: Field, x: int, y: int, len: int, dir: Dir, a: int, b: int)
    requires
        placed(start, fin, x, y, len, dir),
        in_grid(a, b),
        in_run(x, y, dir, 0, len, a, b),
    ensures
        fin.ship_complete(a, b),
        fin.sunk_exact(a, b),
{
    let i = steps_to(x, y, dir, a, b);
    let c = fin.at(a, b);
    assert(c == fresh_segment(dir, len, i));
    lemma_on_line_along(x, y, dir, a, b);
    assert forall|k: int| -i <= k <= len - 1 - i implies #[trigger] fin.has_segment(a, b, c, k) by {
        let p = along(x, y, dir, i + k);
        assert(along(a, b, dir, k) == p);
        lemma_along_on_line(x, y, dir, i + k);
        lemma_run_free(start, x, y, len, dir, i + k);
        assert(fin.at(p.0, p.1) == fresh_segment(dir, len, i + k));
    }
    assert(!fin.fired_along(a, b, c, 0));
}

proof fn lemma_place_old_square(start: Field, fin: Field, x: int, y: int, len: int, dir: Dir, a: int, b: int)
    requires
        placed(start, fin, x, y, len, dir),
        in_grid(a, b),
        !in_run(x, y, dir, 0, len, a, b),
    ensures
        fin.ship_complete(a, b),
        fin.sunk_exact(a, b),
{
    let c = fin.at(a, b);
    assert(c == start.at(a, b));
    if is_ship(c) {
        assert(start.ship_complete(a, b));
        assert(start.sunk_exact(a, b));
        let back = c->Ship_back as int;
        let front = c->Ship_front as int;
        assert forall|k: int| -back <= k <= front implies {
            let p = #[trigger] along(a, b, ship_dir(c), k);
            fin.at(p.0, p.1) == start.at(p.0, p.1)
        } by {
            assert(start.has_segment(a, b, c, k));
            let p = along(a, b, ship_dir(c), k);
            if in_run(x, y, dir, 0, len, p.0, p.1) {
                lemma_on_line_along(x, y, dir, p.0, p.1);
                let j = steps_to(x, y, dir, p.0, p.1);
                lemma_run_free(start, x, y, len, dir, j);
            }
        }
        assert forall|k: int| -back <= k <= front implies #[trigger] fin.has_segment(a, b, c, k) by {
            assert(start.has_segment(a, b, c, k));
            let p = along(a, b, ship_dir(c), k);
            assert(fin.at(p.0, p.1) == start.at(p.0, p.1));
        }
        if forall|k: int| -back <= k <= front ==> #[trigger] fin.fired_along(a, b, c, k) {
            assert forall|k: int| -back <= k <= front implies #[trigger] start.fired_along(a, b, c, k) by {
                assert(fin.fired_along(a, b, c, k));
                let p = along(a, b, ship_dir(c), k);
                assert(fin.at(p.0, p.1) == start.at(p.0, p.1));
            }
        }
    }
}

proof fn lemma_place_apart(
    start: Field,
    fin: Field,
    x: int,
    y: int,
    len: int,
    dir: Dir,
    x1: int,
    y1: int,
    x2: int,
    y2: int,
)
    requires
        placed(start, fin, x, y, len, dir),
    ensures
        fin.apart(x1, y1, x2, y2),
{
    if in_grid(x1, y1) && in_grid(x2, y2) && near(x1, y1, x2, y2) && is_ship(fin.at(x1, y1))
        && is_ship(fin.at(x2, y2)) {
        let r1 = in_run(x, y, dir, 0, len, x1, y1);
        let r2 = in_run(x, y, dir, 0, len, x2, y2);
        if r1 && r2 {
        } else if r1 {
            lemma_on_line_along(x, y, dir, x1, y1);
            let i = steps_to(x, y, dir, x1, y1);
            assert(!start.square_blocked(along(x, y, dir, i), false));
            assert(crate::field::blocks(start.at(x2, y2), false));
            assert(start.touches_ship(x1, y1, false));
        } else if r2 {
            lemma_on_line_along(x, y, dir, x2, y2);
            let i = steps_to(x, y, dir, x2, y2);
            assert(!start.square_blocked(along(x, y, dir, i), false));
            assert(crate::field::blocks(start.at(x1, y1), false));
            assert(start.touches_ship(x2, y2, false));
        } else {
            assert(start.apart(x1, y1, x2, y2));
        }
    }
}

proof fn lemma_place_fleet(start: Field, fin: Field, x: int, y: int, len: int, dir: Dir)
    requires
        placed(start, fin, x, y, len, dir),
    ensures
        fin.fleet_ok(),
{
    assert forall|a: int, b: int| in_grid(a, b) implies #[trigger] fin.ship_complete(a, b) by {
        if in_run(x, y, dir, 0, len, a, b) {
            lemma_place_new_square(start, fin, x, y, len, dir, a, b);
        } else {
            lemma_place_old_square(start, fin, x, y, len, dir, a, b);
        }
    }
    assert forall|a: int, b: int| in_grid(a, b) implies #[trigger] fin.sunk_exact(a, b) by {
        if in_run(x, y, dir, 0, len, a, b) {
            lemma_place_new_square(start, fin, x, y, len, dir, a, b);
        } else {
            lemma_place_old_square(start, fin, x, y, len, dir, a, b);
        }
    }
    assert forall|x1: int, y1: int, x2: int, y2: int| #[trigger] fin.apart(x1, y1, x2, y2) by {
        lemma_place_apart(start, fin, x, y, len, dir, x1, y1, x2, y2);
    }
}

/// What a shot found.
#[derive(Clone, Copy, Debug, PartialEq, Eq, Structural)]
pub enum ShootResult {
    Miss,
    Hit,
    Destroy,
}

/// The cell `c` with its hit and sunk marks replaced.
pub open spec fn with_flags(c: Cell, fire: bool, destroyed: bool) -> Cell {
    match c {
        Cell::Ship { dir, front, back, .. } => Cell::Ship { dir, front, back, fire, destroyed },
        _ => c,
    }
}

/// Whether `(a, b)` is a square of the ship whose segment `c` is at `(x, y)`.
pub open spec fn in_ship(x: int, y: int, c: Cell, a: int, b: int) -> bool {
    match c {
        Cell::Ship { dir, front, back, .. } => in_run(x, y, dir, -(back as int), front + 1, a, b),
        _ => a == x && b == y,
    }
}

impl Field {
    /// Every other segment of the ship at `(x, y)` was hit before.
    pub open spec fn rest_fired(self, x: int, y: int) -> bool {
        let c = self.at(x, y);
        forall|k: int|
            -(c->Ship_back as int) <= k <= c->Ship_front as int && k != 0
                ==> #[trigger] self.fired_along(x, y, c, k)
    }

    /// `fin` is this grid after a shot at the unhit segment at `(x, y)`:
    /// that segment is hit, every segment of its ship is marked sunk when no
    /// segment is left unhit, and nothing else changes.
    pub open spec fn hit_result(self, fin: Field, x: int, y: int) -> bool {
        let c = self.at(x, y);
        let sunk = self.rest_fired(x, y);
        &&& fin.wf()
        &&& forall|a: int, b: int|
            #![trigger fin.at(a, b)]
            in_grid(a, b) ==> fin.at(a, b) == if in_ship(x, y, c, a, b) {
                with_flags(self.at(a, b), is_fired(self.at(a, b)) || (a == x && b == y), sunk)
            } else {
                self.at(a, b)
            }
    }
}

/// A square of the ship of the segment at `(x, y)` holds the matching segment.
proof fn lemma_ship_square(f: Field, x: int, y: int, a: int, b: int)
    requires
        f.fleet_ok(),
        in_grid(x, y),
        is_ship(f.at(x, y)),
        in_ship(x, y, f.at(x, y), a, b),
    ensures
        along(x, y, ship_dir(f.at(x, y)), steps_to(x, y, ship_dir(f.at(x, y)), a, b)) == (a, b),
        in_grid(a, b),
        same_ship(f.at(x, y), f.at(a, b), steps_to(x, y, ship_dir(f.at(x, y)), a, b)),
{
    let c = f.at(x, y);
    let j = steps_to(x, y, ship_dir(c), a, b);
    lemma_on_line_along(x, y, ship_dir(c), a, b);
    assert(f.ship_complete(x, y));
    assert(f.has_segment(x, y, c, j));
}

/// A segment outside the ship at `(x, y)` has all its own segments outside it.
proof fn lemma_outside_ship(f: Field, x: int, y: int, a: int, b: int, k: int)
    requires
        f.fleet_ok(),
        in_grid(x, y),
        is_ship(f.at(x, y)),
        in_grid(a, b),
        is_ship(f.at(a, b)),
        !in_ship(x, y, f.at(x, y), a, b),
        -(f.at(a, b)->Ship_back as int) <= k <= f.at(a, b)->Ship_front as int,
    ensures
        !in_ship(x, y, f.at(x, y), along(a, b, ship_dir(f.at(a, b)), k).0, along(a, b, ship_dir(f.at(a, b)), k).1),
{
    let c = f.at(x, y);
    let ca = f.at(a, b);
    let q = along(a, b, ship_dir(ca), k);
    assert(f.ship_complete(a, b));
    assert(f.has_segment(a, b, ca, k));
    if in_ship(x, y, c, q.0, q.1) {
        lemma_ship_square(f, x, y, q.0, q.1);
        let j = steps_to(x, y, ship_dir(c), q.0, q.1);
        assert(ship_dir(ca) == ship_dir(c));
        assert(along(q.0, q.1, ship_dir(c), -k) == (a, b));
        assert(along(x, y, ship_dir(c), j - k) == (a, b));
        lemma_along_on_line(x, y, ship_dir(c), j - k);
        assert(in_ship(x, y, c, a, b));
    }
}

proof fn lemma_hit_ship_square(f: Field, fin: Field, x: int, y: int, a: int, b: int)
    requires
        f.fleet_ok(),
        in_grid(x, y),
        is_ship(f.at(x, y)),
        !is_fired(f.at(x, y)),
        f.hit_result(fin, x, y),
        in_ship(x, y, f.at(x, y), a, b),
    ensures
        fin.ship_complete(a, b),
        fin.sunk_exact(a, b),
{
    let c = f.at(x, y);
    let d = ship_dir(c);
    let back = c->Ship_back as int;
    let front = c->Ship_front as int;
    let sunk = f.rest_fired(x, y);
    lemma_ship_square(f, x, y, a, b);
    let j = steps_to(x, y, d, a, b);
    let ca = fin.at(a, b);
    assert(ca == with_flags(f.at(a, b), is_fired(f.at(a, b)) || (a == x && b == y), sunk));
    assert(f.ship_complete(x, y));
    assert(is_ship(ca) && ship_dir(ca) == d && ca->Ship_back as int == back + j && ca->Ship_front as int
        == front - j && ca->Ship_destroyed == sunk);
    assert forall|k: int| -back - j <= k <= front - j implies {
        let p = #[trigger] along(a, b, d, k);
        &&& p == along(x, y, d, j + k)
        &&& in_ship(x, y, c, p.0, p.1)
        &&& in_grid(p.0, p.1)
        &&& same_ship(c, f.at(p.0, p.1), j + k)
        &&& fin.at(p.0, p.1) == with_flags(f.at(p.0, p.1), is_fired(f.at(p.0, p.1)) || (p.0 == x && p.1 == y), sunk)
    } by {
        let p = along(a, b, d, k);
        assert(p == along(x, y, d, j + k));
        lemma_along_on_line(x, y, d, j + k);
        lemma_ship_square(f, x, y, p.0, p.1);
    }
    assert forall|k: int| -back - j <= k <= front - j implies #[trigger] fin.has_segment(a, b, ca, k) by {
        let p = along(a, b, d, k);
        assert(in_ship(x, y, c, p.0, p.1));
    }
    // The hit marks of the ship, counted from `(a, b)`, are those counted from `(x, y)`.
    assert forall|k: int| -back - j <= k <= front - j implies (#[trigger] fin.fired_along(a, b, ca, k)
        <==> (k + j == 0 || f.fired_along(x, y, c, j + k))) by {
        let p = along(a, b, d, k);
        assert(in_ship(x, y, c, p.0, p.1));
        if k + j != 0 {
            assert(p != (x, y));
        }
    }
    if sunk {
        if j != 0 {
            assert(f.fired_along(x, y, c, j));
        }
        assert(fin.fired_along(a, b, ca, 0));
    } else {
        let k0 = choose|k: int| -back <= k <= front && k != 0 && !#[trigger] f.fired_along(x, y, c, k);
        assert(!fin.fired_along(a, b, ca, k0 - j));
    }
}

proof fn lemma_hit_other_square(f: Field, fin: Field, x: int, y: int, a: int, b: int)
    requires
        f.fleet_ok(),
        in_grid(x, y),
        is_ship(f.at(x, y)),
        !is_fired(f.at(x, y)),
        f.hit_result(fin, x, y),
        in_grid(a, b),
        !in_ship(x, y, f.at(x, y), a, b),
    ensures
        fin.ship_complete(a, b),
        fin.sunk_exact(a, b),
{
    let c = fin.at(a, b);
    assert(c == f.at(a, b));
    if is_ship(c) {
        assert(f.ship_complete(a, b));
        assert(f.sunk_exact(a, b));
        let back = c->Ship_back as int;
        let front = c->Ship_front as int;
        assert forall|k: int| -back <= k <= front implies {
            let p = #[trigger] along(a, b, ship_dir(c), k);
            fin.at(p.0, p.1) == f.at(p.0, p.1)
        } by {
            assert(f.has_segment(a, b, c, k));
            lemma_outside_ship(f, x, y, a, b, k);
        }
        assert forall|k: int| -back <= k <= front implies #[trigger] fin.has_segment(a, b, c, k) by {
            assert(f.has_segment(a, b, c, k));
            let p = along(a, b, ship_dir(c), k);
            assert(fin.at(p.0, p.1) == f.at(p.0, p.1));
        }
        if forall|k: int| -back <= k <= front ==> #[trigger] fin.fired_along(a, b, c, k) {
            assert forall|k: int| -back <= k <= front implies #[trigger] f.fired_along(a, b, c, k) by {
                assert(fin.fired_along(a, b, c, k));
                let p = along(a, b, ship_dir(c), k);
                assert(fin.at(p.0, p.1) == f.at(p.0, p.1));
            }
        }
    }
}

/// A hit keeps the fleet valid.
proof fn lemma_hit_fleet(f: Field, fin: Field, x: int, y: int)
    requires
        f.fleet_ok(),
        in_grid(x, y),
        is_ship(f.at(x, y)),
        !is_fired(f.at(x, y)),
        f.hit_result(fin, x, y),
    ensures
        fin.fleet_ok(),
{
    let c = f.at(x, y);
    assert forall|a: int, b: int| in_grid(a, b) implies #[trigger] fin.ship_complete(a, b) by {
        if in_ship(x, y, c, a, b) {
            lemma_hit_ship_square(f, fin, x, y, a, b);
        } else {
            lemma_hit_other_square(f, fin, x, y, a, b);
        }
    }
    assert forall|a: int, b: int| in_grid(a, b) implies #[trigger] fin.sunk_exact(a, b) by {
        if in_ship(x, y, c, a, b) {
            lemma_hit_ship_square(f, fin, x, y, a, b);
        } else {
            lemma_hit_other_square(f, fin, x, y, a, b);
        }
    }
    assert forall|x1: int, y1: int, x2: int, y2: int| #[trigger] fin.apart(x1, y1, x2, y2) by {
        assert(f.apart(x1, y1, x2, y2));
        if in_grid(x1, y1) && in_grid(x2, y2) {
            assert(fin.at(x1, y1) == f.at(x1, y1) || fin.at(x1, y1) == with_flags(
                f.at(x1, y1),
                is_fired(f.at(x1, y1)) || (x1 == x && y1 == y),
                f.rest_fired(x, y),
            ));
            assert(fin.at(x2, y2) == f.at(x2, y2) || fin.at(x2, y2) == with_flags(
                f.at(x2, y2),
                is_fired(f.at(x2, y2)) || (x2 == x && y2 == y),
                f.rest_fired(x, y),
            ));
        }
    }
}

/// Marking a square that holds no ship keeps the fleet valid.
proof fn lemma_mark_water(f: Field, fin: Field, x: int, y: int, c: Cell)
    requires
        f.fleet_ok(),
        in_grid(x, y),
        !is_ship(f.at(x, y)),
        !is_ship(c),
        fin@ == f@.update(crate::field::index_of(x, y), c),
    ensures
        fin.fleet_ok(),
        forall|a: int, b: int|
            #![trigger fin.at(a, b)]
            in_grid(a, b) ==> fin.at(a, b) == if a == x && b == y {
                c
            } else {
                f.at(a, b)
            },
{
    assert forall|a: int, b: int| #![trigger fin.at(a, b)] in_grid(a, b) implies fin.at(a, b) == if a
        == x && b == y {
        c
    } else {
        f.at(a, b)
    } by {
        crate::field::lemma_index_of(a, b, x, y);
    }
    assert forall|a: int, b: int|
        #![trigger fin.ship_complete(a, b)]
        #![trigger fin.sunk_exact(a, b)]
        in_grid(a, b) implies fin.ship_complete(a, b) && fin.sunk_exact(a, b) by {
        let ca = fin.at(a, b);
        if is_ship(ca) {
            assert(ca == f.at(a, b));
            assert(f.ship_complete(a, b));
            assert(f.sunk_exact(a, b));
            let back = ca->Ship_back as int;
            let front = ca->Ship_front as int;
            assert forall|k: int| -back <= k <= front implies {
                let p = #[trigger] along(a, b, ship_dir(ca), k);
                fin.at(p.0, p.1) == f.at(p.0, p.1)
            } by {
                assert(f.has_segment(a, b, ca, k));
            }
            assert forall|k: int| -back <= k <= front implies #[trigger] fin.has_segment(a, b, ca, k) by {
                assert(f.has_segment(a, b, ca, k));
                let p = along(a, b, ship_dir(ca), k);
                assert(fin.at(p.0, p.1) == f.at(p.0, p.1));
            }
            if forall|k: int| -back <= k <= front ==> #[trigger] fin.fired_along(a, b, ca, k) {
                assert forall|k: int| -back <= k <= front implies #[trigger] f.fired_along(a, b, ca, k) by {
                    assert(fin.fired_along(a, b, ca, k));
                    assert(f.has_segment(a, b, ca, k));
                    let p = along(a, b, ship_dir(ca), k);
                    assert(fin.at(p.0, p.1) == f.at(p.0, p.1));
                }
            }
        }
    }
    assert forall|x1: int, y1: int, x2: int, y2: int| #[trigger] fin.apart(x1, y1, x2, y2) by {
        assert(f.apart(x1, y1, x2, y2));
    }
}

impl Field {
    /// `fin` and `r` are this grid and the result after a shot at `(x, y)`.
    pub open spec fn shot_outcome(self, fin: Field, x: int, y: int, r: ShootResult) -> bool {
        match self.at(x, y) {
            Cell::Water => r == ShootResult::Miss && fin@ == self@.update(
                crate::field::index_of(x, y),
                Cell::Miss,
            ),
            Cell::Ship { fire: false, .. } => self.hit_result(fin, x, y) && r == if self.rest_fired(x, y) {
                ShootResult::Destroy
            } else {
                ShootResult::Hit
            },
            _ => r == ShootResult::Miss && fin@ == self@,
        }
    }

    /// Resolves a shot at `(x, y)`. Water becomes a miss; an unhit segment
    /// is hit, and its ship is sunk when that was its last unhit segment; a
    /// square already shot at is left alone and counts as a miss.
    pub fn receive_shot(&mut self, x: usize, y: usize) -> (r: ShootResult)
        requires
            old(self).fleet_ok(),
            x < GRID,
            y < GRID,
        ensures
            final(self).fleet_ok(),
            old(self).shot_outcome(*final(self), x as int, y as int, r),
    {
        let ghost f = *self;
        let c = *self.get(x, y);
        match c {
            Cell::Water => {
                self.set(x, y, Cell::Miss);
                proof {
                    lemma_mark_water(f, *self, x as int, y as int, Cell::Miss);
                }
                ShootResult::Miss
            },
            Cell::Ship { dir, front, back, fire, destroyed } => {
                if fire {
                    return ShootResult::Miss;
                }
                self.set(x, y, Cell::Ship { dir, front, back, fire: true, destroyed });
                let ghost f1 = *self;
                let ghost xi = x as int;
                let ghost yi = y as int;
                proof {
                    assert(f.ship_complete(xi, yi));
                    assert(f.sunk_exact(xi, yi));
                    assert forall|a: int, b: int| #![trigger f1.at(a, b)] in_grid(a, b) implies f1.at(a, b)
                        == if a == xi && b == yi {
                        with_flags(c, true, destroyed)
                    } else {
                        f.at(a, b)
                    } by {
                        crate::field::lemma_index_of(a, b, xi, yi);
                    }
                }
                let (dx, dy) = dir.to_vec();
                let start: isize = -(back as isize);
                let end: isize = front as isize;
                let mut destroy = true;
                let mut i: isize = start;
                while i <= end && destroy
                    invariant
                        *self == f1,
                        xi == x as int,
                        yi == y as int,
                        f.fleet_ok(),
                        f1.wf(),
                        x < GRID,
                        y < GRID,
                        c == f.at(xi, yi),
                        c == (Cell::Ship { dir, front, back, fire: false, destroyed }),
                        start == -(back as int),
                        end == front as int,
                        dx == dir.dx(),
                        dy == dir.dy(),
                        forall|a: int, b: int| #![trigger f1.at(a, b)] in_grid(a, b) ==> f1.at(a, b)
                            == if a == xi && b == yi {
                            with_flags(c, true, destroyed)
                        } else {
                            f.at(a, b)
                        },
                        start <= i <= end + 1,
                        destroy ==> forall|k: int| start <= k < i && k != 0 ==> #[trigger] f.fired_along(xi, yi, c, k),
                        !destroy ==> start <= i - 1 <= end && i - 1 != 0 && !f.fired_along(xi, yi, c, i - 1),
                    decreases end + 1 - i,
                {
                    proof {
                        crate::field::lemma_step(xi, yi, dir, i as int);
                        assert(f.ship_complete(xi, yi));
                        assert(f.has_segment(xi, yi, c, i as int));
                        if i != 0 {
                            assert(along(xi, yi, dir, i as int) != (xi, yi));
                        }
                    }
                    let px = x as isize + dx * i;
                    let py = y as isize + dy * i;
                    if px >= 0 && py >= 0 && px < GRID as isize && py < GRID as isize {
                        if let Cell::Ship { fire, .. } = self.get(px as usize, py as usize) {
                            if !*fire {
                                destroy = false;
                            }
                        }
                    }
                    i += 1;
                }
                proof {
                    assert(destroy == f.rest_fired(xi, yi));
                }
                if destroy {
                    let mark_sunk = |s: Cell, k: i8| -> (r: Cell)
                        ensures
                            r == with_flags(s, is_fired(s), true),
                        {
                            match s {
                                Cell::Ship { dir, front, back, fire, .. } => Cell::Ship {
                                    dir,
                                    front,
                                    back,
                                    fire,
                                    destroyed: true,
                                },
                                other => other,
                            }
                        };
                    self.modify_all(x, y, start as i8, (end + 1) as i8, dir, mark_sunk);
                }
                proof {
                    let fin = *self;
                    assert forall|a: int, b: int| #![trigger fin.at(a, b)] in_grid(a, b) implies fin.at(a, b)
                        == if in_ship(xi, yi, c, a, b) {
                        with_flags(f.at(a, b), is_fired(f.at(a, b)) || (a == xi && b == yi), destroy)
                    } else {
                        f.at(a, b)
                    } by {
                        if in_ship(xi, yi, c, a, b) {
                            lemma_ship_square(f, xi, yi, a, b);
                        }
                    }
                    lemma_hit_fleet(f, fin, xi, yi);
                }
                if destroy {
                    ShootResult::Destroy
                } else {
                    ShootResult::Hit
                }
            },
            Cell::Miss => ShootResult::Miss,
        }
    }
}

} // verus!
