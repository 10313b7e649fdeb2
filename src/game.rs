use vstd::prelude::*;

use crate::dir::Dir;
use crate::field::{along, in_grid, in_run, steps_to, Cell, Field, GRID};
use crate::fleet::{fresh_segment, lemma_empty_fleet, ShootResult};

verus! {

/// Ships still to be placed: entry `l - 1` counts ships of length `l`.
pub const FULL_INVENTORY: [u8; 4] = [4, 3, 2, 1];

/// Milliseconds the computer waits before each of its shots.
pub const MOVE_DELAY: u64 = 1000;

/// Whose turn it is, or which side a grid or a shot belongs to.
#[derive(Clone, Copy, Debug, PartialEq, Eq, Structural)]
pub enum Move {
    Player,
    Computer,
}

pub open spec fn other(m: Move) -> Move {
    match m {
        Move::Player => Move::Computer,
        Move::Computer => Move::Player,
    }
}

/// A square of a grid.
#[derive(Clone, Copy, Debug, PartialEq, Eq, Structural)]
pub struct Pos {
    pub x: u8,
    pub y: u8,
}

/// How the computer picks its next square.
#[derive(Clone, Copy, Debug, PartialEq, Eq, Structural)]
pub enum Tactics {
    /// No lead: any candidate square.
    Random,
    /// A hit at `pos`; probing its neighbours, starting towards `dir`.
    Scan { pos: Pos, dir: Dir },
    /// A ship's axis is known: walking from `start_pos` along `dir`, next
    /// at `current_pos`.
    Line { start_pos: Pos, current_pos: Pos, dir: Dir },
}

#[derive(Clone, Copy, Debug, PartialEq, Eq, Structural)]
pub struct EnemyAI {
    pub tactics: Tactics,
    /// Milliseconds left before the next shot.
    pub delay: u64,
}

/// One match: both grids, the ships left to place, the selection used for
/// placing, turn, winner and the computer's targeting state.
pub struct GameContext {
    /// Whether the battle has begun (placement is over).
    pub started: bool,
    pub current_move: Move,
    pub player_field: Field,
    pub computer_field: Field,
    /// The player's ships still to place, by length.
    pub inventory: [u8; 4],
    /// Length of the ship selected for placement.
    pub length: u8,
    /// Direction of the ship selected for placement.
    pub dir: Dir,
    pub enemy_ai: EnemyAI,
    /// Ships of the player not yet sunk.
    pub player_ships: u8,
    /// Ships of the computer not yet sunk.
    pub computer_ships: u8,
    /// The side that sank the other's last ship.
    pub winner: Option<Move>,
}

impl GameContext {
    pub open spec fn wf(self) -> bool {
        &&& self.player_field.fleet_ok()
        &&& self.computer_field.fleet_ok()
        &&& 1 <= self.length <= 4
    }

    /// The grid that `shooter` fires at.
    pub open spec fn target_field(self, shooter: Move) -> Field {
        match shooter {
            Move::Player => self.computer_field,
            Move::Computer => self.player_field,
        }
    }

    /// The live-ship count of the side that `shooter` fires at.
    pub open spec fn target_ships(self, shooter: Move) -> u8 {
        match shooter {
            Move::Player => self.computer_ships,
            Move::Computer => self.player_ships,
        }
    }

    pub open spec fn field_of(self, side: Move) -> Field {
        match side {
            Move::Player => self.player_field,
            Move::Computer => self.computer_field,
        }
    }

    pub open spec fn ships_of(self, side: Move) -> u8 {
        match side {
            Move::Player => self.player_ships,
            Move::Computer => self.computer_ships,
        }
    }

    /// A fresh match: empty grids, full inventory, a ship of length four
    /// facing down selected, the player to move.
    pub fn new() -> (r: GameContext)
        ensures
            r.wf(),
            !r.started,
            r.current_move == Move::Player,
            r.winner.is_none(),
            r.inventory == FULL_INVENTORY,
            r.length == 4,
            r.dir == Dir::Down,
            r.enemy_ai == (EnemyAI { tactics: Tactics::Random, delay: MOVE_DELAY }),
            r.player_ships == 0,
            r.computer_ships == 0,
            forall|x: int, y: int|
                in_grid(x, y) ==> #[trigger] r.player_field.at(x, y) == Cell::Water
                    && r.computer_field.at(x, y) == Cell::Water,
    {
        let player_field = Field::new();
        let computer_field = Field::new();
        proof {
            lemma_empty_fleet(player_field);
            lemma_empty_fleet(computer_field);
        }
        GameContext {
            started: false,
            current_move: Move::Player,
            player_field,
            computer_field,
            inventory: [4, 3, 2, 1],
            length: 4,
            dir: Dir::Down,
            enemy_ai: EnemyAI { tactics: Tactics::Random, delay: MOVE_DELAY },
            player_ships: 0,
            computer_ships: 0,
            winner: None,
        }
    }

    /// Whether a ship of the selected length is left to place.
    pub fn has_selected_ship_model(&self) -> (r: bool)
        requires
            self.wf(),
        ensures
            r == (self.inventory[self.length - 1] > 0),
    {
        self.inventory[self.length as usize - 1] > 0
    }
}

impl GameContext {
    /// Fires from `shooter` at `(x, y)` on the other side's grid. A miss on
    /// water hands the turn over; a hit or a sink keeps it. Sinking the
    /// last live ship makes `shooter` the winner. Once there is a winner,
    /// shots are refused and change nothing.
    pub fn shoot(&mut self, x: usize, y: usize, shooter: Move) -> (r: ShootResult)
        requires
            old(self).wf(),
            x < GRID,
            y < GRID,
        ensures
            final(self).wf(),
            old(self).shoot_spec(*final(self), x as int, y as int, shooter, r),
    {
        if self.winner.is_some() {
            return ShootResult::Miss;
        }
        let was_water = match shooter {
            Move::Player => matches!(self.computer_field.get(x, y), Cell::Water),
            Move::Computer => matches!(self.player_field.get(x, y), Cell::Water),
        };
        let r = match shooter {
            Move::Player => self.computer_field.receive_shot(x, y),
            Move::Computer => self.player_field.receive_shot(x, y),
        };
        if was_water {
            self.current_move = match shooter {
                Move::Player => Move::Computer,
                Move::Computer => Move::Player,
            };
        }
        if r == ShootResult::Destroy {
            match shooter {
                Move::Player => {
                    if self.computer_ships > 0 {
                        self.computer_ships -= 1;
                        if self.computer_ships == 0 {
                            self.winner = Some(Move::Player);
                        }
                    }
                },
                Move::Computer => {
                    if self.player_ships > 0 {
                        self.player_ships -= 1;
                        if self.player_ships == 0 {
                            self.winner = Some(Move::Computer);
                        }
                    }
                },
            }
        }
        r
    }

    /// `fin` and `r` are this match and the result after `shooter` fired at
    /// `(x, y)`.
    pub open spec fn shoot_spec(self, fin: GameContext, x: int, y: int, shooter: Move, r: ShootResult) -> bool {
        &&& self.winner.is_some() ==> r == ShootResult::Miss && fin == self
        &&& self.winner.is_none() ==> self.shot_taken(fin, x, y, shooter, r)
        &&& fin.enemy_ai == self.enemy_ai
    }

    /// `fin` and `r` are this match and the result after `shooter` fired at
    /// `(x, y)` while no side had won.
    pub open spec fn shot_taken(self, fin: GameContext, x: int, y: int, shooter: Move, r: ShootResult) -> bool {
        let target = self.target_field(shooter);
        let ships = self.target_ships(shooter);
        let sunk = r == ShootResult::Destroy && ships > 0;
        &&& target.shot_outcome(fin.target_field(shooter), x, y, r)
        &&& fin.field_of(shooter) == self.field_of(shooter)
        &&& fin.current_move == if target.at(x, y) is Water {
            other(shooter)
        } else {
            self.current_move
        }
        &&& fin.target_ships(shooter) == if sunk {
            (ships - 1) as u8
        } else {
            ships
        }
        &&& fin.ships_of(shooter) == self.ships_of(shooter)
        &&& fin.winner == if sunk && ships == 1 {
            Some(shooter)
        } else {
            None
        }
        &&& fin.started == self.started
        &&& fin.inventory == self.inventory
        &&& fin.length == self.length
        &&& fin.dir == self.dir
    }

    /// Writes a ship of `length` squares from `(x, y)` along `dir` on the
    /// grid of `side` and counts it among that side's live ships; a ship of
    /// the player also leaves the player's inventory. The caller has checked
    /// that the place is free and, for the player, that such a ship is left.
    pub fn place(&mut self, side: Move, x: usize, y: usize, length: u8, dir: Dir)
        requires
            old(self).wf(),
            x < GRID,
            y < GRID,
            1 <= length <= 4,
            !old(self).field_of(side).collides(x as int, y as int, length as int, dir, false),
            old(self).ships_of(side) < 255,
            side == Move::Player ==> old(self).inventory[length - 1] > 0,
        ensures
            final(self).wf(),
            forall|a: int, b: int|
                #![trigger final(self).field_of(side).at(a, b)]
                in_grid(a, b) ==> final(self).field_of(side).at(a, b) == if in_run(
                    x as int,
                    y as int,
                    dir,
                    0,
                    length as int,
                    a,
                    b,
                ) {
                    fresh_segment(dir, length as int, steps_to(x as int, y as int, dir, a, b))
                } else {
                    old(self).field_of(side).at(a, b)
                },
            final(self).field_of(other(side)) == old(self).field_of(other(side)),
            final(self).ships_of(side) == old(self).ships_of(side) + 1,
            final(self).ships_of(other(side)) == old(self).ships_of(other(side)),
            final(self).inventory@ == if side == Move::Player {
                old(self).inventory@.update(length - 1, (old(self).inventory[length - 1] - 1) as u8)
            } else {
                old(self).inventory@
            },
            final(self).started == old(self).started,
            final(self).current_move == old(self).current_move,
            final(self).winner == old(self).winner,
            final(self).length == old(self).length,
            final(self).dir == old(self).dir,
            final(self).enemy_ai == old(self).enemy_ai,
    {
        match side {
            Move::Player => {
                self.player_field.place_ship(x, y, length, dir);
                let i = length as usize - 1;
                self.inventory[i] = self.inventory[i] - 1;
                self.player_ships += 1;
            },
            Move::Computer => {
                self.computer_field.place_ship(x, y, length, dir);
                self.computer_ships += 1;
            },
        }
    }
}

} // verus!
