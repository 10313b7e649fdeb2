use vstd::prelude::*;

use crate::ai::dir_from_random;
use crate::dir::Dir;
use crate::field::{along, in_grid, in_run, steps_to, Field, GRID};
use crate::fleet::{fresh_segment, grown, lemma_grown_refl, lemma_grown_trans};
use crate::game::{other, GameContext, Move, FULL_INVENTORY};

verus! {

/// Random places tried for one ship before the grid is searched in order.
pub const MAX_ATTEMPTS: u32 = 1000;

/// How many ships an inventory holds.
pub open spec fn total(inv: [u8; 4]) -> int {
    inv[0] + inv[1] + inv[2] + inv[3]
}

pub open spec fn all_dirs() -> Seq<Dir> {
    seq![Dir::Up, Dir::Right, Dir::Down, Dir::Left]
}

/// The first free place for a ship of `length`, searching columns, then
/// rows, then directions in the order up, right, down, left.
pub fn find_free_place(f: &Field, length: u8) -> (r: Option<(usize, usize, Dir)>)
    requires
        f.wf(),
    ensures
        r matches Some(p) ==> p.0 < GRID && p.1 < GRID && !f.collides(
            p.0 as int,
            p.1 as int,
            length as int,
            p.2,
            false,
        ),
        r is None ==> forall|x: int, y: int, d: Dir|
            in_grid(x, y) ==> #[trigger] f.collides(x, y, length as int, d, false),
{
    let mut x: usize = 0;
    while x < GRID
        invariant
            f.wf(),
            x <= GRID,
            forall|a: int, b: int, d: Dir|
                in_grid(a, b) && a < x ==> #[trigger] f.collides(a, b, length as int, d, false),
        decreases GRID - x,
    {
        let mut y: usize = 0;
        while y < GRID
            invariant
                f.wf(),
                x < GRID,
                y <= GRID,
                forall|a: int, b: int, d: Dir|
                    in_grid(a, b) && (a < x || (a == x && b < y)) ==> #[trigger] f.collides(
                        a,
                        b,
                        length as int,
                        d,
                        false,
                    ),
            decreases GRID - y,
        {
            let mut k: usize = 0;
            while k < 4
                invariant
                    f.wf(),
                    x < GRID,
                    y < GRID,
                    k <= 4,
                    forall|a: int, b: int, d: Dir|
                        in_grid(a, b) && (a < x || (a == x && b < y)) ==> #[trigger] f.collides(
                            a,
                            b,
                            length as int,
                            d,
                            false,
                        ),
                    forall|j: int| 0 <= j < k ==> f.collides(x as int, y as int, length as int, #[trigger] all_dirs()[j], false),
                decreases 4 - k,
            {
                let d = if k == 0 {
                    Dir::Up
                } else if k == 1 {
                    Dir::Right
                } else if k == 2 {
                    Dir::Down
                } else {
                    Dir::Left
                };
                assert(d == all_dirs()[k as int]);
                if !f.has_collision(x, y, length, d, false) {
                    return Some((x, y, d));
                }
                k += 1;
            }
            assert forall|d: Dir| #[trigger] f.collides(x as int, y as int, length as int, d, false) by {
                match d {
                    Dir::Up => assert(d == all_dirs()[0]),
                    Dir::Right => assert(d == all_dirs()[1]),
                    Dir::Down => assert(d == all_dirs()[2]),
                    Dir::Left => assert(d == all_dirs()[3]),
                }
            }
            y += 1;
        }
        x += 1;
    }
    None
}

/// No ship of `length` squares can be placed anywhere on `f`.
pub open spec fn fits_nowhere(f: Field, length: int) -> bool {
    forall|x: int, y: int, d: Dir| in_grid(x, y) ==> #[trigger] f.collides(x, y, length, d, false)
}

/// Some length that `inventory` still asks for fits nowhere on `f`.
pub open spec fn no_room(f: Field, inventory: [u8; 4]) -> bool {
    exists|l: int| 1 <= l <= 4 && inventory[l - 1] > 0 && #[trigger] fits_nowhere(f, l)
}

pub open spec fn all_placed(inventory: [u8; 4]) -> bool {
    inventory@ == seq![0u8, 0u8, 0u8, 0u8]
}

impl GameContext {
    /// `fin` equals this match but for the placement selection.
    pub open spec fn same_but_selection(self, fin: GameContext) -> bool {
        &&& fin.started == self.started
        &&& fin.current_move == self.current_move
        &&& fin.player_field == self.player_field
        &&& fin.computer_field == self.computer_field
        &&& fin.inventory == self.inventory
        &&& fin.enemy_ai == self.enemy_ai
        &&& fin.player_ships == self.player_ships
        &&& fin.computer_ships == self.computer_ships
        &&& fin.winner == self.winner
    }

    /// `fin` equals this match but for the grid and live-ship count of
    /// `side`.
    pub open spec fn same_but_fleet(self, fin: GameContext, side: Move) -> bool {
        &&& fin.field_of(other(side)) == self.field_of(other(side))
        &&& fin.ships_of(other(side)) == self.ships_of(other(side))
        &&& fin.started == self.started
        &&& fin.current_move == self.current_move
        &&& fin.winner == self.winner
        &&& fin.inventory == self.inventory
        &&& fin.length == self.length
        &&& fin.dir == self.dir
        &&& fin.enemy_ai == self.enemy_ai
    }

    /// `fin` and `r` are this match and the result after placing the ships
    /// of `inventory` for `player` at places that chance picked: ships are
    /// only added; all of them when `r` holds; on failure the count reached
    /// its limit or some wanted length fits nowhere.
    pub open spec fn fleet_placed(self, fin: GameContext, player: Move, inventory: [u8; 4], r: bool) -> bool {
        &&& self.same_but_fleet(fin, player)
        &&& grown(self.field_of(player), fin.field_of(player))
        &&& self.ships_of(player) <= fin.ships_of(player) <= self.ships_of(player) + total(inventory)
        &&& r ==> fin.ships_of(player) == self.ships_of(player) + total(inventory)
        &&& total(inventory) == 0 ==> r && fin == self
        &&& self.ships_of(player) == 255 && total(inventory) > 0 ==> !r && fin == self
        &&& !r ==> fin.ships_of(player) == 255 || no_room(fin.field_of(player), inventory)
    }

    /// One step of placing a fleet: puts a ship of `length` squares from
    /// `(x, y)` along `dir` on the grid of `player` and counts it, when the
    /// place is free and the count is below its limit; else changes nothing.
    pub fn try_place(&mut self, player: Move, x: usize, y: usize, length: u8, dir: Dir) -> (r: bool)
        requires
            old(self).wf(),
            1 <= length <= 4,
        ensures
            final(self).wf(),
            r == (old(self).ships_of(player) < 255 && !old(self).field_of(player).collides(
                x as int,
                y as int,
                length as int,
                dir,
                false,
            )),
            !r ==> *final(self) == *old(self),
            r ==> {
                &&& forall|a: int, b: int|
                    #![trigger final(self).field_of(player).at(a, b)]
                    in_grid(a, b) ==> final(self).field_of(player).at(a, b) == if in_run(
                        x as int,
                        y as int,
                        dir,
                        0,
                        length as int,
                        a,
                        b,
                    ) {
                        fresh_segment(dir, length as int, steps_to(x as int, y as int, dir, a, b))
                    } else {
                        old(self).field_of(player).at(a, b)
                    }
                &&& grown(old(self).field_of(player), final(self).field_of(player))
                &&& final(self).ships_of(player) == old(self).ships_of(player) + 1
                &&& old(self).same_but_fleet(*final(self), player)
            },
    {
        let ships = match player {
            Move::Player => self.player_ships,
            Move::Computer => self.computer_ships,
        };
        if ships == 255 {
            return false;
        }
        let blocked = match player {
            Move::Player => self.player_field.has_collision(x, y, length, dir, false),
            Move::Computer => self.computer_field.has_collision(x, y, length, dir, false),
        };
        if blocked {
            return false;
        }
        proof {
            assert(!self.field_of(player).square_blocked(along(x as int, y as int, dir, 0), false));
        }
        match player {
            Move::Player => {
                self.player_field.place_ship(x, y, length, dir);
                self.player_ships += 1;
            },
            Move::Computer => {
                self.computer_field.place_ship(x, y, length, dir);
                self.computer_ships += 1;
            },
        }
        true
    }

    /// Places the ships of `inventory` on the grid of `player` at random
    /// free places, shortest first, through `try_place`. A ship that finds
    /// no free place in `MAX_ATTEMPTS` random draws takes the first free
    /// place in order. Returns whether every ship was placed: false when the
    /// count reaches its limit or some ship fits nowhere, and the rest are
    /// then left out.
    pub fn place_ships(&mut self, player: Move, inventory: [u8; 4]) -> (r: bool)
        requires
            old(self).wf(),
        ensures
            final(self).wf(),
            old(self).fleet_placed(*final(self), player, inventory, r),
    {
        let ghost start = *self;
        let ghost initial = inventory;
        proof {
            lemma_grown_refl(start.field_of(player));
        }
        let mut left = inventory;
        let mut length: u8 = 1;
        while length <= 4
            invariant
                self.wf(),
                start == *old(self),
                initial == inventory,
                1 <= length <= 5,
                start.same_but_fleet(*self, player),
                grown(start.field_of(player), self.field_of(player)),
                self.ships_of(player) + total(left) == start.ships_of(player) + total(initial),
                self.ships_of(player) >= start.ships_of(player),
                self.ships_of(player) == start.ships_of(player) ==> *self == start,
                forall|j: int| 0 <= j < 4 ==> #[trigger] left[j] <= initial[j],
                forall|j: int| 0 <= j < length - 1 ==> #[trigger] left[j] == 0,
            decreases 5 - length,
        {
            let i = length as usize - 1;
            let mut attempts: u32 = 0;
            while left[i] > 0
                invariant
                    self.wf(),
                    start == *old(self),
                    initial == inventory,
                    1 <= length <= 4,
                    i == length - 1,
                    attempts <= MAX_ATTEMPTS,
                    start.same_but_fleet(*self, player),
                    grown(start.field_of(player), self.field_of(player)),
                    self.ships_of(player) + total(left) == start.ships_of(player) + total(initial),
                    self.ships_of(player) >= start.ships_of(player),
                    self.ships_of(player) == start.ships_of(player) ==> *self == start,
                    forall|j: int| 0 <= j < 4 ==> #[trigger] left[j] <= initial[j],
                    forall|j: int| 0 <= j < length - 1 ==> #[trigger] left[j] == 0,
                decreases left[i as int], MAX_ATTEMPTS - attempts,
            {
                let ships = match player {
                    Move::Player => self.player_ships,
                    Move::Computer => self.computer_ships,
                };
                if ships == 255 {
                    assert(total(initial) > 0);
                    return false;
                }
                let ghost before = *self;
                let placed = if attempts < MAX_ATTEMPTS {
                    attempts += 1;
                    let x = rand::random::<usize>() % GRID;
                    let y = rand::random::<usize>() % GRID;
                    let dir = dir_from_random(rand::random::<u8>());
                    self.try_place(player, x, y, length, dir)
                } else {
                    let found = match player {
                        Move::Player => find_free_place(&self.player_field, length),
                        Move::Computer => find_free_place(&self.computer_field, length),
                    };
                    match found {
                        Some((x, y, dir)) => self.try_place(player, x, y, length, dir),
                        None => {
                            proof {
                                let l = length as int;
                                assert(initial[l - 1] > 0);
                                assert(fits_nowhere(self.field_of(player), l));
                                assert(no_room(self.field_of(player), initial));
                                assert(total(initial) > 0);
                            }
                            return false;
                        },
                    }
                };
                if placed {
                    proof {
                        lemma_grown_trans(start.field_of(player), before.field_of(player), self.field_of(player));
                    }
                    left[i] = left[i] - 1;
                    attempts = 0;
                }
            }
            length += 1;
        }
        true
    }
}

impl GameContext {
    /// Whether the selected ship may be placed from `(x, y)` on the
    /// player's grid: one is left and the place is free.
    pub fn can_place_selected(&self, x: usize, y: usize) -> (r: bool)
        requires
            self.wf(),
            x < GRID,
            y < GRID,
        ensures
            r == (self.inventory[self.length - 1] > 0 && !self.player_field.collides(
                x as int,
                y as int,
                self.length as int,
                self.dir,
                false,
            )),
    {
        self.has_selected_ship_model() && !self.player_field.has_collision(x, y, self.length, self.dir, false)
    }

    /// The player places the selected ship from `(x, y)`. Refused once the
    /// battle has begun or a side has won, when no ship of that length is
    /// left, or when the place is not free. Placing the last ship places
    /// the computer's fleet at random and, when all of it was placed,
    /// begins the battle.
    pub fn place_selected(&mut self, x: usize, y: usize) -> (r: bool)
        requires
            old(self).wf(),
            x < GRID,
            y < GRID,
        ensures
            final(self).wf(),
            r == (!old(self).started && old(self).winner.is_none() && old(self).inventory[old(self).length - 1]
                > 0 && !old(self).player_field.collides(
                x as int,
                y as int,
                old(self).length as int,
                old(self).dir,
                false,
            ) && old(self).player_ships < 255),
            !r ==> *final(self) == *old(self),
            r ==> {
                &&& forall|a: int, b: int|
                    #![trigger final(self).player_field.at(a, b)]
                    in_grid(a, b) ==> final(self).player_field.at(a, b) == if in_run(
                        x as int,
                        y as int,
                        old(self).dir,
                        0,
                        old(self).length as int,
                        a,
                        b,
                    ) {
                        fresh_segment(
                            old(self).dir,
                            old(self).length as int,
                            steps_to(x as int, y as int, old(self).dir, a, b),
                        )
                    } else {
                        old(self).player_field.at(a, b)
                    }
                &&& final(self).player_ships == old(self).player_ships + 1
                &&& final(self).inventory@ == old(self).inventory@.update(
                    old(self).length - 1,
                    (old(self).inventory[old(self).length - 1] - 1) as u8,
                )
                &&& final(self).current_move == old(self).current_move
                &&& final(self).winner == old(self).winner
                &&& final(self).length == old(self).length
                &&& final(self).dir == old(self).dir
                &&& final(self).enemy_ai == old(self).enemy_ai
                &&& !all_placed(final(self).inventory) ==> {
                    &&& !final(self).started
                    &&& final(self).computer_field == old(self).computer_field
                    &&& final(self).computer_ships == old(self).computer_ships
                }
                &&& all_placed(final(self).inventory) ==> {
                    &&& grown(old(self).computer_field, final(self).computer_field)
                    &&& old(self).computer_ships <= final(self).computer_ships <= old(self).computer_ships
                        + total(FULL_INVENTORY)
                    &&& final(self).started ==> final(self).computer_ships == old(self).computer_ships
                        + total(FULL_INVENTORY)
                    &&& !final(self).started ==> final(self).computer_ships == 255 || no_room(
                        final(self).computer_field,
                        FULL_INVENTORY,
                    )
                }
            },
    {
        if self.started || self.winner.is_some() || self.player_ships == 255 {
            return false;
        }
        if !self.can_place_selected(x, y) {
            return false;
        }
        self.place(Move::Player, x, y, self.length, self.dir);
        if self.inventory[0] == 0 && self.inventory[1] == 0 && self.inventory[2] == 0
            && self.inventory[3] == 0 {
            assert(self.inventory@ =~= seq![0u8, 0u8, 0u8, 0u8]);
            let done = self.place_ships(Move::Computer, FULL_INVENTORY);
            self.started = done;
        } else {
            assert(!all_placed(self.inventory)) by {
                if all_placed(self.inventory) {
                    assert(self.inventory@[0] == 0 && self.inventory@[1] == 0
                        && self.inventory@[2] == 0 && self.inventory@[3] == 0);
                }
            }
        }
        true
    }

    /// Selects the ship length for placement, brought into `1..=4`; ignored
    /// once the battle has begun.
    pub fn select_length(&mut self, length: u8)
        requires
            old(self).wf(),
        ensures
            final(self).wf(),
            final(self).length == if old(self).started {
                old(self).length
            } else if length < 1 {
                1
            } else if length > 4 {
                4
            } else {
                length
            },
            final(self).dir == old(self).dir,
            old(self).same_but_selection(*final(self)),
    {
        if self.started {
            return;
        }
        self.length = if length < 1 {
            1
        } else if length > 4 {
            4
        } else {
            length
        };
    }

    /// Selects the direction for placement; ignored once the battle has
    /// begun.
    pub fn select_dir(&mut self, dir: Dir)
        requires
            old(self).wf(),
        ensures
            final(self).wf(),
            final(self).dir == if old(self).started {
                old(self).dir
            } else {
                dir
            },
            final(self).length == old(self).length,
            old(self).same_but_selection(*final(self)),
    {
        if !self.started {
            self.dir = dir;
        }
    }

    /// Turns the selected direction a quarter, clockwise or not; ignored
    /// once the battle has begun.
    pub fn rotate_selection(&mut self, clockwise: bool)
        requires
            old(self).wf(),
        ensures
            final(self).wf(),
            final(self).dir == if old(self).started {
                old(self).dir
            } else if clockwise {
                old(self).dir.spec_clockwise()
            } else {
                old(self).dir.spec_counter_clockwise()
            },
            final(self).length == old(self).length,
            old(self).same_but_selection(*final(self)),
    {
        if !self.started {
            self.dir = if clockwise {
                self.dir.clockwise()
            } else {
                self.dir.counter_clockwise()
            };
        }
    }

    /// Places the player's remaining ships and then the computer's fleet at
    /// random, and begins the battle when both are placed in full; ignored
    /// once the battle has begun. Returns whether the battle began.
    pub fn auto_place(&mut self) -> (r: bool)
        requires
            old(self).wf(),
        ensures
            final(self).wf(),
            old(self).started ==> !r && *final(self) == *old(self),
            !old(self).started ==> {
                &&& final(self).started == r
                &&& grown(old(self).player_field, final(self).player_field)
                &&& grown(old(self).computer_field, final(self).computer_field)
                &&& old(self).player_ships <= final(self).player_ships <= old(self).player_ships + total(
                    old(self).inventory,
                )
                &&& old(self).computer_ships <= final(self).computer_ships <= old(self).computer_ships
                    + total(FULL_INVENTORY)
                &&& r ==> final(self).player_ships == old(self).player_ships + total(old(self).inventory)
                    && final(self).computer_ships == old(self).computer_ships + total(FULL_INVENTORY)
                    && all_placed(final(self).inventory)
                &&& !r ==> (final(self).player_ships == 255 || no_room(final(self).player_field, old(self).inventory))
                    || (final(self).computer_ships == 255 || no_room(
                    final(self).computer_field,
                    FULL_INVENTORY,
                ))
                &&& final(self).inventory == old(self).inventory || all_placed(final(self).inventory)
                &&& final(self).current_move == old(self).current_move
                &&& final(self).winner == old(self).winner
                &&& final(self).length == old(self).length
                &&& final(self).dir == old(self).dir
                &&& final(self).enemy_ai == old(self).enemy_ai
            },
    {
        if self.started {
            return false;
        }
        let ghost start = *self;
        let inventory = self.inventory;
        let player_done = self.place_ships(Move::Player, inventory);
        if !player_done {
            proof {
                lemma_grown_refl(self.computer_field);
            }
            return false;
        }
        self.inventory = [0, 0, 0, 0];
        assert(self.inventory@ =~= seq![0u8, 0u8, 0u8, 0u8]);
        let ghost mid = *self;
        let computer_done = self.place_ships(Move::Computer, FULL_INVENTORY);
        self.started = computer_done;
        computer_done
    }
}

} // verus!
