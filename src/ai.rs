use vstd::prelude::*;

use crate::dir::Dir;
use crate::field::{along, in_grid, Cell, Field, GRID};
use crate::fleet::ShootResult;
use crate::game::{GameContext, Move, Pos, Tactics, MOVE_DELAY};

verus! {

/// A square the computer may fire at: on the grid, not next to a sunk ship,
/// and not shot at before.
pub open spec fn is_candidate(f: Field, x: int, y: int) -> bool {
    &&& in_grid(x, y)
    &&& !f.collides(x, y, 1, Dir::Down, true)
    &&& match f.at(x, y) {
        Cell::Water => true,
        Cell::Miss => false,
        Cell::Ship { fire, .. } => !fire,
    }
}

/// The candidate squares among the first `n` squares, in storage order.
pub open spec fn candidates_upto(f: Field, n: nat) -> Seq<(usize, usize)>
    decreases n,
{
    if n == 0 {
        Seq::empty()
    } else {
        let k = n - 1;
        let prev = candidates_upto(f, (n - 1) as nat);
        if is_candidate(f, k / (GRID as int), k % (GRID as int)) {
            prev.push(((k / (GRID as int)) as usize, (k % (GRID as int)) as usize))
        } else {
            prev
        }
    }
}

/// All candidate squares, column after column.
pub open spec fn candidates(f: Field) -> Seq<(usize, usize)> {
    candidates_upto(f, (GRID as nat) * (GRID as nat))
}

/// The candidate picked by the random number `rand`, if there is any.
pub open spec fn random_pick(cands: Seq<(usize, usize)>, rand: usize) -> Option<(usize, usize)> {
    if cands.len() == 0 {
        None
    } else {
        Some(cands[(rand as int) % (cands.len() as int)])
    }
}

/// The first of `tries` clockwise turns, starting at `d`, whose neighbour
/// of `(x, y)` is a candidate.
pub open spec fn first_open_dir(f: Field, x: int, y: int, d: Dir, tries: nat) -> Option<Dir>
    decreases tries,
{
    if tries == 0 {
        None
    } else if is_candidate(f, along(x, y, d, 1).0, along(x, y, d, 1).1) {
        Some(d)
    } else {
        first_open_dir(f, x, y, d.spec_clockwise(), (tries - 1) as nat)
    }
}

pub open spec fn pos_of(p: (int, int)) -> Pos {
    Pos { x: p.0 as u8, y: p.1 as u8 }
}

/// The direction drawn from the random number `v`.
pub open spec fn dir_of_random(v: u8) -> Dir {
    if v % 4 == 0 {
        Dir::Up
    } else if v % 4 == 1 {
        Dir::Right
    } else if v % 4 == 2 {
        Dir::Down
    } else {
        Dir::Left
    }
}

/// Where a shot goes, and the tactic after picking it: a scan turns until
/// a neighbour of its origin is open; a line fires at its next square; with
/// no such square, a random candidate and no lead.
pub open spec fn spec_choose_target(f: Field, t: Tactics, rand: usize) -> (Option<(usize, usize)>, Tactics) {
    match t {
        Tactics::Random => (random_pick(candidates(f), rand), Tactics::Random),
        Tactics::Scan { pos, dir } => match first_open_dir(f, pos.x as int, pos.y as int, dir, 4) {
            Some(d) => {
                let p = along(pos.x as int, pos.y as int, d, 1);
                (Some((p.0 as usize, p.1 as usize)), Tactics::Scan { pos, dir: d })
            },
            None => (random_pick(candidates(f), rand), Tactics::Random),
        },
        Tactics::Line { current_pos, .. } => if is_candidate(
            f,
            current_pos.x as int,
            current_pos.y as int,
        ) {
            (Some((current_pos.x as usize, current_pos.y as usize)), t)
        } else {
            (random_pick(candidates(f), rand), Tactics::Random)
        },
    }
}

/// A line that starts over from `start` in direction `d`, if that square is
/// on the grid.
pub open spec fn restart_line(start: Pos, d: Dir) -> Tactics {
    let p = along(start.x as int, start.y as int, d, 1);
    if in_grid(p.0, p.1) {
        Tactics::Line { start_pos: start, current_pos: pos_of(p), dir: d }
    } else {
        Tactics::Random
    }
}

/// The tactic after a shot at `(x, y)` with result `r` under tactic `t`;
/// `f` is the player's grid after the shot.
pub open spec fn spec_next_tactics(f: Field, t: Tactics, x: int, y: int, r: ShootResult, rand_dir: u8) -> Tactics {
    match r {
        ShootResult::Miss => match t {
            Tactics::Random => Tactics::Random,
            Tactics::Scan { pos, dir } => Tactics::Scan { pos, dir: dir.spec_clockwise() },
            Tactics::Line { start_pos, dir, .. } => restart_line(start_pos, dir.spec_opposite()),
        },
        ShootResult::Hit => match t {
            Tactics::Random => Tactics::Scan { pos: pos_of((x, y)), dir: dir_of_random(rand_dir) },
            Tactics::Scan { pos, dir } => match first_open_dir(f, x, y, dir, 4) {
                Some(d) => Tactics::Line { start_pos: pos, current_pos: pos_of(along(x, y, d, 1)), dir: d },
                None => Tactics::Random,
            },
            Tactics::Line { start_pos, current_pos, dir } => {
                let p = along(current_pos.x as int, current_pos.y as int, dir, 1);
                if is_candidate(f, p.0, p.1) {
                    Tactics::Line { start_pos, current_pos: pos_of(p), dir }
                } else {
                    restart_line(start_pos, dir.spec_opposite())
                }
            },
        },
        ShootResult::Destroy => Tactics::Random,
    }
}

/// The direction drawn from the random number `v`.
pub fn dir_from_random(v: u8) -> (d: Dir)
    ensures
        d == dir_of_random(v),
{
    match v % 4 {
        0 => Dir::Up,
        1 => Dir::Right,
        2 => Dir::Down,
        _ => Dir::Left,
    }
}

/// Whether the computer may fire at `(x, y)` of grid `f`.
pub fn can_target(f: &Field, x: isize, y: isize) -> (r: bool)
    requires
        f.wf(),
    ensures
        r == is_candidate(*f, x as int, y as int),
{
    if !(x >= 0 && y >= 0 && x < GRID as isize && y < GRID as isize) {
        return false;
    }
    if f.has_collision(x as usize, y as usize, 1, Dir::Down, true) {
        return false;
    }
    match f.get(x as usize, y as usize) {
        Cell::Water => true,
        Cell::Miss => false,
        Cell::Ship { fire, .. } => !*fire,
    }
}

/// The squares the computer may fire at, column after column.
pub fn target_candidates(f: &Field) -> (r: Vec<(usize, usize)>)
    requires
        f.wf(),
    ensures
        r@ == candidates(*f),
{
    let mut points: Vec<(usize, usize)> = Vec::new();
    let mut x: usize = 0;
    while x < GRID
        invariant
            f.wf(),
            x <= GRID,
            points@ == candidates_upto(*f, (x * GRID) as nat),
        decreases GRID - x,
    {
        let mut y: usize = 0;
        while y < GRID
            invariant
                f.wf(),
                x < GRID,
                y <= GRID,
                points@ == candidates_upto(*f, (x * GRID + y) as nat),
            decreases GRID - y,
        {
            proof {
                let k = (x * GRID + y) as int;
                assert(k / 10 == x as int && k % 10 == y as int) by (nonlinear_arith)
                    requires
                        k == x * 10 + y,
                        0 <= y < 10,
                        0 <= x,
                ;
                assert(candidates_upto(*f, (k + 1) as nat) == if is_candidate(*f, x as int, y as int) {
                    candidates_upto(*f, k as nat).push((x, y))
                } else {
                    candidates_upto(*f, k as nat)
                });
            }
            if can_target(f, x as isize, y as isize) {
                points.push((x, y));
            }
            y += 1;
        }
        x += 1;
    }
    points
}

fn random_target(points: &Vec<(usize, usize)>, rand: usize) -> (r: Option<(usize, usize)>)
    ensures
        r == random_pick(points@, rand),
{
    if points.len() == 0 {
        None
    } else {
        let index = rand % points.len();
        Some(points[index])
    }
}

/// The first of four clockwise turns, starting at `d`, whose neighbour of
/// `(x, y)` the computer may fire at.
fn open_dir(f: &Field, x: u8, y: u8, d: Dir) -> (r: Option<Dir>)
    requires
        f.wf(),
    ensures
        r == first_open_dir(*f, x as int, y as int, d, 4),
{
    let mut dir = d;
    let mut tries: u8 = 0;
    while tries < 4
        invariant
            f.wf(),
            tries <= 4,
            first_open_dir(*f, x as int, y as int, d, 4) == first_open_dir(
                *f,
                x as int,
                y as int,
                dir,
                (4 - tries) as nat,
            ),
        decreases 4 - tries,
    {
        let (dx, dy) = dir.to_vec();
        let tx = x as isize + dx;
        let ty = y as isize + dy;
        if can_target(f, tx, ty) {
            return Some(dir);
        }
        dir = dir.clockwise();
        tries += 1;
    }
    None
}

/// Picks the computer's next square under tactic `t` with the random
/// number `rand`, and the tactic that holds after picking.
pub fn choose_target(f: &Field, t: Tactics, rand: usize) -> (r: (Option<(usize, usize)>, Tactics))
    requires
        f.wf(),
    ensures
        r == spec_choose_target(*f, t, rand),
{
    match t {
        Tactics::Random => {
            let points = target_candidates(f);
            (random_target(&points, rand), Tactics::Random)
        },
        Tactics::Scan { pos, dir } => match open_dir(f, pos.x, pos.y, dir) {
            Some(d) => {
                let (dx, dy) = d.to_vec();
                let tx = pos.x as isize + dx;
                let ty = pos.y as isize + dy;
                (Some((tx as usize, ty as usize)), Tactics::Scan { pos, dir: d })
            },
            None => {
                let points = target_candidates(f);
                (random_target(&points, rand), Tactics::Random)
            },
        },
        Tactics::Line { current_pos, .. } => {
            if can_target(f, current_pos.x as isize, current_pos.y as isize) {
                (Some((current_pos.x as usize, current_pos.y as usize)), t)
            } else {
                let points = target_candidates(f);
                (random_target(&points, rand), Tactics::Random)
            }
        },
    }
}

fn restart_line_exec(start: Pos, d: Dir) -> (r: Tactics)
    ensures
        r == restart_line(start, d),
{
    let (dx, dy) = d.to_vec();
    let tx = start.x as isize + dx;
    let ty = start.y as isize + dy;
    if tx >= 0 && ty >= 0 && tx < GRID as isize && ty < GRID as isize {
        Tactics::Line { start_pos: start, current_pos: Pos { x: tx as u8, y: ty as u8 }, dir: d }
    } else {
        Tactics::Random
    }
}

/// The tactic after the computer's shot at `(x, y)` gave `r` under tactic
/// `t`; `f` is the player's grid after the shot and `rand_dir` the random
/// number that picks a scan direction after a first hit.
pub fn next_tactics(f: &Field, t: Tactics, x: u8, y: u8, r: ShootResult, rand_dir: u8) -> (n: Tactics)
    requires
        f.wf(),
    ensures
        n == spec_next_tactics(*f, t, x as int, y as int, r, rand_dir),
{
    match r {
        ShootResult::Miss => match t {
            Tactics::Random => Tactics::Random,
            Tactics::Scan { pos, dir } => Tactics::Scan { pos, dir: dir.clockwise() },
            Tactics::Line { start_pos, dir, .. } => restart_line_exec(start_pos, dir.opposite()),
        },
        ShootResult::Hit => match t {
            Tactics::Random => {
                Tactics::Scan { pos: Pos { x, y }, dir: dir_from_random(rand_dir) }
            },
            Tactics::Scan { pos, dir } => match open_dir(f, x, y, dir) {
                Some(d) => {
                    let (dx, dy) = d.to_vec();
                    let tx = x as isize + dx;
                    let ty = y as isize + dy;
                    Tactics::Line { start_pos: pos, current_pos: Pos { x: tx as u8, y: ty as u8 }, dir: d }
                },
                None => Tactics::Random,
            },
            Tactics::Line { start_pos, current_pos, dir } => {
                let (dx, dy) = dir.to_vec();
                let tx = current_pos.x as isize + dx;
                let ty = current_pos.y as isize + dy;
                if can_target(f, tx, ty) {
                    Tactics::Line { start_pos, current_pos: Pos { x: tx as u8, y: ty as u8 }, dir }
                } else {
                    restart_line_exec(start_pos, dir.opposite())
                }
            },
        },
        ShootResult::Destroy => Tactics::Random,
    }
}

/// Every listed candidate is a candidate square.
pub proof fn lemma_candidates_valid(f: Field, n: nat)
    ensures
        forall|i: int|
            0 <= i < candidates_upto(f, n).len() ==> is_candidate(
                f,
                #[trigger] candidates_upto(f, n)[i].0 as int,
                candidates_upto(f, n)[i].1 as int,
            ),
    decreases n,
{
    if n > 0 {
        let k = n - 1;
        lemma_candidates_valid(f, (n - 1) as nat);
        let prev = candidates_upto(f, (n - 1) as nat);
        if is_candidate(f, k / (GRID as int), k % (GRID as int)) {
            let e = ((k / (GRID as int)) as usize, (k % (GRID as int)) as usize);
            assert(e.0 as int == k / (GRID as int) && e.1 as int == k % (GRID as int));
            assert forall|i: int| 0 <= i < prev.len() + 1 implies is_candidate(
                f,
                #[trigger] prev.push(e)[i].0 as int,
                prev.push(e)[i].1 as int,
            ) by {
                if i < prev.len() {
                    assert(prev.push(e)[i] == prev[i]);
                }
            }
        }
    }
}

/// A direction found open leads to a candidate square.
pub proof fn lemma_open_dir_valid(f: Field, x: int, y: int, d: Dir, tries: nat)
    ensures
        first_open_dir(f, x, y, d, tries) matches Some(e) ==> is_candidate(
            f,
            along(x, y, e, 1).0,
            along(x, y, e, 1).1,
        ),
    decreases tries,
{
    if tries > 0 {
        lemma_open_dir_valid(f, x, y, d.spec_clockwise(), (tries - 1) as nat);
    }
}

/// The target picked under any tactic is a candidate square.
pub proof fn lemma_target_valid(f: Field, t: Tactics, rand: usize)
    ensures
        spec_choose_target(f, t, rand).0 matches Some(p) ==> is_candidate(f, p.0 as int, p.1 as int),
{
    lemma_candidates_valid(f, (GRID as nat) * (GRID as nat));
    match t {
        Tactics::Scan { pos, dir } => {
            lemma_open_dir_valid(f, pos.x as int, pos.y as int, dir, 4);
        },
        _ => {},
    }
}

/// Relies on rand::random: an arbitrary value drawn from the thread-local
/// generator; nothing is known of it.
pub assume_specification<T>[ rand::random::<T> ]() -> (r: T)
    where
        rand::distributions::Standard: rand::distributions::Distribution<T>,
;

impl GameContext {
    /// Whether the computer fires on this frame, `time_elapsed`
    /// milliseconds after the last one. Only while no side has won and it
    /// is the computer's turn does its delay run down; when it runs out the
    /// computer fires and the delay starts over.
    pub fn tick_ai_timer(&mut self, time_elapsed: u64) -> (fire: bool)
        requires
            old(self).wf(),
        ensures
            final(self).wf(),
            fire == (old(self).winner.is_none() && old(self).current_move == Move::Computer
                && time_elapsed >= old(self).enemy_ai.delay),
            final(self).enemy_ai.tactics == old(self).enemy_ai.tactics,
            final(self).enemy_ai.delay == if old(self).winner.is_some() || old(self).current_move
                != Move::Computer {
                old(self).enemy_ai.delay
            } else if fire {
                MOVE_DELAY
            } else {
                (old(self).enemy_ai.delay - time_elapsed) as u64
            },
            final(self).player_field == old(self).player_field,
            final(self).computer_field == old(self).computer_field,
            final(self).current_move == old(self).current_move,
            final(self).winner == old(self).winner,
            final(self).started == old(self).started,
            final(self).inventory == old(self).inventory,
            final(self).length == old(self).length,
            final(self).dir == old(self).dir,
            final(self).player_ships == old(self).player_ships,
            final(self).computer_ships == old(self).computer_ships,
    {
        if self.winner.is_some() || self.current_move != Move::Computer {
            return false;
        }
        if time_elapsed < self.enemy_ai.delay {
            self.enemy_ai.delay = self.enemy_ai.delay - time_elapsed;
            return false;
        }
        self.enemy_ai.delay = MOVE_DELAY;
        true
    }

    /// One shot of the computer, with `rand_index` picking a random
    /// candidate and `rand_dir` the first probe direction after a first
    /// hit. `None` when a side has already won, or when no square is left to
    /// fire at, which hands the turn to the player.
    pub fn ai_move(&mut self, rand_index: usize, rand_dir: u8) -> (r: Option<ShootResult>)
        requires
            old(self).wf(),
        ensures
            final(self).wf(),
            old(self).winner.is_some() ==> r.is_none() && *final(self) == *old(self),
            old(self).winner.is_none() ==> old(self).ai_shot(*final(self), rand_index, rand_dir, r),
            final(self).enemy_ai.delay == old(self).enemy_ai.delay,
    {
        if self.winner.is_some() {
            return None;
        }
        let (target, tactics) = choose_target(&self.player_field, self.enemy_ai.tactics, rand_index);
        proof {
            lemma_target_valid(self.player_field, self.enemy_ai.tactics, rand_index);
        }
        self.enemy_ai.tactics = tactics;
        match target {
            None => {
                // Nothing left to fire at: the turn passes.
                self.current_move = Move::Player;
                None
            },
            Some((x, y)) => {
                let res = self.shoot(x, y, Move::Computer);
                self.enemy_ai.tactics = next_tactics(&self.player_field, tactics, x as u8, y as u8, res, rand_dir);
                Some(res)
            },
        }
    }

    /// `fin` and `r` are this match and the result after the computer's
    /// shot with the random numbers `rand_index` and `rand_dir`, while no
    /// side had won.
    pub open spec fn ai_shot(self, fin: GameContext, rand_index: usize, rand_dir: u8, r: Option<ShootResult>) -> bool {
        let (target, t1) = spec_choose_target(self.player_field, self.enemy_ai.tactics, rand_index);
        match target {
            None => {
                &&& r.is_none()
                &&& fin.enemy_ai.tactics == t1
                &&& fin.player_field == self.player_field
                &&& fin.computer_field == self.computer_field
                &&& fin.current_move == Move::Player
                &&& fin.winner == self.winner
                &&& fin.started == self.started
                &&& fin.inventory == self.inventory
                &&& fin.length == self.length
                &&& fin.dir == self.dir
                &&& fin.player_ships == self.player_ships
                &&& fin.computer_ships == self.computer_ships
            },
            Some(p) => {
                &&& r is Some
                &&& self.shot_taken(fin, p.0 as int, p.1 as int, Move::Computer, r->0)
                &&& fin.enemy_ai.tactics == spec_next_tactics(
                    fin.player_field,
                    t1,
                    p.0 as int,
                    p.1 as int,
                    r->0,
                    rand_dir,
                )
            },
        }
    }

    /// Whether the computer fires after `time_elapsed` more milliseconds.
    pub open spec fn ai_due(self, time_elapsed: u64) -> bool {
        self.winner.is_none() && self.current_move == Move::Computer && time_elapsed
            >= self.enemy_ai.delay
    }

    /// `fin` is this match after `time_elapsed` milliseconds in which the
    /// computer did not fire: only its delay ran down, on its turn.
    pub open spec fn ai_waited(self, fin: GameContext, time_elapsed: u64) -> bool {
        &&& fin.enemy_ai.delay == if self.winner.is_none() && self.current_move == Move::Computer {
            (self.enemy_ai.delay - time_elapsed) as u64
        } else {
            self.enemy_ai.delay
        }
        &&& fin.enemy_ai.tactics == self.enemy_ai.tactics
        &&& fin.player_field == self.player_field
        &&& fin.computer_field == self.computer_field
        &&& fin.current_move == self.current_move
        &&& fin.winner == self.winner
        &&& fin.started == self.started
        &&& fin.inventory == self.inventory
        &&& fin.length == self.length
        &&& fin.dir == self.dir
        &&& fin.player_ships == self.player_ships
        &&& fin.computer_ships == self.computer_ships
    }

    /// Advances the computer by `time_elapsed` milliseconds, with the
    /// random numbers given; see `tick_ai_timer` and `ai_move`.
    pub fn update_ai_with(&mut self, time_elapsed: u64, rand_index: usize, rand_dir: u8) -> (r: Option<ShootResult>)
        requires
            old(self).wf(),
        ensures
            final(self).wf(),
            !old(self).ai_due(time_elapsed) ==> r.is_none() && old(self).ai_waited(*final(self), time_elapsed),
            old(self).ai_due(time_elapsed) ==> final(self).enemy_ai.delay == MOVE_DELAY && old(self).ai_shot(
                *final(self),
                rand_index,
                rand_dir,
                r,
            ),
    {
        if self.tick_ai_timer(time_elapsed) {
            self.ai_move(rand_index, rand_dir)
        } else {
            None
        }
    }

    /// Advances the computer by `time_elapsed` milliseconds; when it fires,
    /// its random choices come from the thread-local generator.
    pub fn update_ai(&mut self, time_elapsed: u64) -> (r: Option<ShootResult>)
        requires
            old(self).wf(),
        ensures
            final(self).wf(),
            !old(self).ai_due(time_elapsed) ==> r.is_none() && old(self).ai_waited(*final(self), time_elapsed),
            old(self).ai_due(time_elapsed) ==> final(self).enemy_ai.delay == MOVE_DELAY && exists|
                rand_index: usize,
                rand_dir: u8,
            | old(self).ai_shot(*final(self), rand_index, rand_dir, r),
    {
        let ghost pre = *self;
        if self.tick_ai_timer(time_elapsed) {
            let rand_index = rand::random::<usize>();
            let rand_dir = rand::random::<u8>();
            let r = self.ai_move(rand_index, rand_dir);
            assert(pre.ai_shot(*self, rand_index, rand_dir, r));
            r
        } else {
            None
        }
    }
}

} // verus!
