use vstd::prelude::*;

use crate::dir::Dir;
use crate::field::{along, blocks, in_grid, near, Cell, Field};
use crate::fleet::{is_fired, is_ship, stern, ShootResult};
use crate::game::{other, GameContext, Move};

verus! {

/// Placements keep ships apart: on a grid built by placements, two
/// segments within distance one of each other belong to the same ship
/// (they share its first square).
pub proof fn lemma_ships_apart(f: Field, x1: int, y1: int, x2: int, y2: int)
    requires
        f.fleet_ok(),
        in_grid(x1, y1),
        in_grid(x2, y2),
        near(x1, y1, x2, y2),
        is_ship(f.at(x1, y1)),
        is_ship(f.at(x2, y2)),
    ensures
        stern(x1, y1, f.at(x1, y1)) == stern(x2, y2, f.at(x2, y2)),
{
    assert(f.apart(x1, y1, x2, y2));
}

/// Counting only sunk ships can only remove collisions: a run that
/// collides with sunk ships collides with ships. The two answers differ
/// exactly when the run is on the grid and every ship it touches is afloat.
pub proof fn lemma_collision_filter(f: Field, x: int, y: int, length: int, d: Dir)
    ensures
        f.collides(x, y, length, d, true) ==> f.collides(x, y, length, d, false),
        f.collides(x, y, length, d, false) && !f.collides(x, y, length, d, true) <==> {
            &&& forall|i: int| 0 <= i < length ==> in_grid(#[trigger] along(x, y, d, i).0, along(x, y, d, i).1)
            &&& exists|i: int| 0 <= i < length && #[trigger] f.touches_ship(along(x, y, d, i).0, along(x, y, d, i).1, false)
            &&& forall|i: int| 0 <= i < length ==> !#[trigger] f.touches_ship(along(x, y, d, i).0, along(x, y, d, i).1, true)
        },
{
    assert forall|p: int, q: int| f.touches_ship(p, q, true) implies f.touches_ship(p, q, false) by {
        let (a, b) = choose|a: int, b: int|
            in_grid(a, b) && near(a, b, p, q) && #[trigger] blocks(f.at(a, b), true);
        assert(blocks(f.at(a, b), false));
    }
    if f.collides(x, y, length, d, true) {
        let i = choose|i: int| 0 <= i < length && #[trigger] f.square_blocked(along(x, y, d, i), true);
        assert(f.square_blocked(along(x, y, d, i), false));
    }
    if f.collides(x, y, length, d, false) && !f.collides(x, y, length, d, true) {
        assert forall|i: int| 0 <= i < length implies in_grid(#[trigger] along(x, y, d, i).0, along(x, y, d, i).1) by {
            assert(!f.square_blocked(along(x, y, d, i), true));
        }
        assert forall|i: int| 0 <= i < length implies !#[trigger] f.touches_ship(along(x, y, d, i).0, along(x, y, d, i).1, true) by {
            assert(!f.square_blocked(along(x, y, d, i), true));
        }
        let i = choose|i: int| 0 <= i < length && #[trigger] f.square_blocked(along(x, y, d, i), false);
        assert(f.touches_ship(along(x, y, d, i).0, along(x, y, d, i).1, false));
    }
    if (forall|i: int| 0 <= i < length ==> in_grid(#[trigger] along(x, y, d, i).0, along(x, y, d, i).1))
        && (exists|i: int| 0 <= i < length && #[trigger] f.touches_ship(along(x, y, d, i).0, along(x, y, d, i).1, false))
        && (forall|i: int| 0 <= i < length ==> !#[trigger] f.touches_ship(along(x, y, d, i).0, along(x, y, d, i).1, true)) {
        let i = choose|i: int| 0 <= i < length && #[trigger] f.touches_ship(along(x, y, d, i).0, along(x, y, d, i).1, false);
        assert(f.square_blocked(along(x, y, d, i), false));
        assert forall|j: int| 0 <= j < length implies !#[trigger] f.square_blocked(along(x, y, d, j), true) by {
            assert(in_grid(along(x, y, d, j).0, along(x, y, d, j).1));
            assert(!f.touches_ship(along(x, y, d, j).0, along(x, y, d, j).1, true));
        }
    }
}

/// A ship is marked sunk exactly when all of its segments are hit.
pub proof fn lemma_destroyed_iff_all_fired(f: Field, x: int, y: int)
    requires
        f.fleet_ok(),
        in_grid(x, y),
        is_ship(f.at(x, y)),
    ensures
        f.at(x, y)->Ship_destroyed <==> forall|k: int|
            -(f.at(x, y)->Ship_back as int) <= k <= f.at(x, y)->Ship_front as int
                ==> #[trigger] is_fired(
                f.at(along(x, y, f.at(x, y)->Ship_dir, k).0, along(x, y, f.at(x, y)->Ship_dir, k).1),
            ),
{
    let c = f.at(x, y);
    assert(f.sunk_exact(x, y));
    assert(f.ship_complete(x, y));
    if c->Ship_destroyed {
        assert forall|k: int| -(c->Ship_back as int) <= k <= c->Ship_front as int implies #[trigger] is_fired(
            f.at(along(x, y, c->Ship_dir, k).0, along(x, y, c->Ship_dir, k).1),
        ) by {
            assert(f.has_segment(x, y, c, k));
            let p = along(x, y, c->Ship_dir, k);
            assert(f.sunk_exact(p.0, p.1));
        }
    } else {
        if forall|k: int| -(c->Ship_back as int) <= k <= c->Ship_front as int ==> #[trigger] is_fired(
            f.at(along(x, y, c->Ship_dir, k).0, along(x, y, c->Ship_dir, k).1),
        ) {
            assert forall|k: int| -(c->Ship_back as int) <= k <= c->Ship_front as int implies #[trigger] f.fired_along(
                x,
                y,
                c,
                k,
            ) by {
                assert(is_fired(f.at(along(x, y, c->Ship_dir, k).0, along(x, y, c->Ship_dir, k).1)));
            }
        }
    }
}

/// A square already shot at (a miss, or a hit segment) absorbs another shot:
/// both grids, the turn and the winner stay as they were, and the result is
/// a miss.
pub proof fn lemma_reshot_changes_nothing(
    g: GameContext,
    fin: GameContext,
    x: int,
    y: int,
    shooter: Move,
    r: ShootResult,
)
    requires
        g.wf(),
        in_grid(x, y),
        g.target_field(shooter).at(x, y) is Miss || is_fired(g.target_field(shooter).at(x, y)),
        g.shoot_spec(fin, x, y, shooter, r),
    ensures
        r == ShootResult::Miss,
        fin.player_field@ == g.player_field@,
        fin.computer_field@ == g.computer_field@,
        fin.current_move == g.current_move,
        fin.winner == g.winner,
        fin.player_ships == g.player_ships,
        fin.computer_ships == g.computer_ships,
{
    if g.winner.is_none() {
        match shooter {
            Move::Player => {},
            Move::Computer => {},
        }
    }
}

/// The winner is set exactly when a shot takes the last live ship of the
/// side fired at (its count goes from one to zero), and it is the side
/// that fired. With a winner set, a shot changes nothing.
pub proof fn lemma_win_condition(
    g: GameContext,
    fin: GameContext,
    x: int,
    y: int,
    shooter: Move,
    r: ShootResult,
)
    requires
        g.wf(),
        in_grid(x, y),
        g.shoot_spec(fin, x, y, shooter, r),
    ensures
        g.winner.is_none() ==> (fin.winner.is_some() <==> (g.target_ships(shooter) == 1
            && fin.target_ships(shooter) == 0)),
        g.winner.is_none() && fin.winner.is_some() ==> fin.winner == Some(shooter),
        g.winner.is_some() ==> fin == g,
{
    if g.winner.is_none() {
        match shooter {
            Move::Player => {},
            Move::Computer => {},
        }
    }
}

/// A miss on a square not shot at before hands the turn to the other side;
/// a hit or a sink leaves it with the shooter.
pub proof fn lemma_turn_sequencing(
    g: GameContext,
    fin: GameContext,
    x: int,
    y: int,
    r: ShootResult,
)
    requires
        g.wf(),
        in_grid(x, y),
        g.winner.is_none(),
        g.target_field(g.current_move).at(x, y) is Water || (g.target_field(g.current_move).at(x, y) is Ship
            && !is_fired(g.target_field(g.current_move).at(x, y))),
        g.shoot_spec(fin, x, y, g.current_move, r),
    ensures
        r == ShootResult::Miss ==> fin.current_move == other(g.current_move),
        r != ShootResult::Miss ==> fin.current_move == g.current_move,
{
}

} // verus!
