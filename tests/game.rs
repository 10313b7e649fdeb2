use battleship::ai::{can_target, choose_target, next_tactics, target_candidates};
use battleship::dir::Dir;
use battleship::field::{Cell, Field, GRID};
use battleship::fleet::ShootResult;
use battleship::game::{EnemyAI, GameContext, Move, Pos, Tactics, FULL_INVENTORY, MOVE_DELAY};
use battleship::setup::find_free_place;

fn count_ship_cells(f: &Field) -> usize {
    let mut n = 0;
    for x in 0..GRID {
        for y in 0..GRID {
            if let Cell::Ship { .. } = f.get(x, y) {
                n += 1;
            }
        }
    }
    n
}

#[test]
fn new_game_state() {
    let g = GameContext::new();
    assert!(!g.started);
    assert_eq!(g.current_move, Move::Player);
    assert_eq!(g.winner, None);
    assert_eq!(g.inventory, [4, 3, 2, 1]);
    assert_eq!(g.length, 4);
    assert_eq!(g.dir, Dir::Down);
    assert_eq!(g.enemy_ai, EnemyAI { tactics: Tactics::Random, delay: MOVE_DELAY });
    assert_eq!(g.player_ships, 0);
    assert_eq!(g.computer_ships, 0);
    assert!(g.has_selected_ship_model());
}

#[test]
fn end_to_end_single_ship() {
    let mut g = GameContext::new();
    g.select_length(1);
    g.select_dir(Dir::Up);
    assert!(g.place_selected(0, 0));
    assert_eq!(g.inventory, [3, 3, 2, 1]);
    assert_eq!(g.player_ships, 1);
    assert_eq!(
        *g.player_field.get(0, 0),
        Cell::Ship { dir: Dir::Up, front: 0, back: 0, fire: false, destroyed: false }
    );
    assert_eq!(g.shoot(0, 0, Move::Computer), ShootResult::Destroy);
    assert_eq!(g.player_ships, 0);
    assert_eq!(g.winner, Some(Move::Computer));
}

#[test]
fn placement_refusals() {
    let mut g = GameContext::new();
    g.select_length(2);
    g.select_dir(Dir::Right);
    assert!(!g.place_selected(9, 0));
    assert!(g.place_selected(0, 0));
    assert!(!g.place_selected(0, 1));
    assert!(g.can_place_selected(3, 0));
    assert!(!g.can_place_selected(2, 0));
    assert_eq!(g.inventory, [4, 2, 2, 1]);
    g.select_length(4);
    assert!(g.place_selected(0, 5));
    assert_eq!(g.inventory, [4, 2, 2, 0]);
    assert!(!g.has_selected_ship_model());
    assert!(!g.place_selected(0, 9));
    assert_eq!(g.player_ships, 2);
}

#[test]
fn selection_controls() {
    let mut g = GameContext::new();
    g.select_length(0);
    assert_eq!(g.length, 1);
    g.select_length(9);
    assert_eq!(g.length, 4);
    g.select_length(3);
    assert_eq!(g.length, 3);
    g.rotate_selection(true);
    assert_eq!(g.dir, Dir::Left);
    g.rotate_selection(false);
    assert_eq!(g.dir, Dir::Down);
    g.select_dir(Dir::Right);
    assert_eq!(g.dir, Dir::Right);
}

#[test]
fn last_placement_starts_battle() {
    let mut g = GameContext::new();
    g.inventory = [1, 0, 0, 0];
    g.select_length(1);
    assert!(g.place_selected(4, 4));
    assert!(g.started);
    assert_eq!(g.inventory, [0, 0, 0, 0]);
    assert_eq!(g.computer_ships, 10);
    assert_eq!(count_ship_cells(&g.computer_field), 20);
    // Placement is over.
    g.select_length(2);
    assert_eq!(g.length, 1);
    assert!(!g.place_selected(0, 0));
}

#[test]
fn random_fleet_is_complete() {
    let mut g = GameContext::new();
    assert!(g.place_ships(Move::Computer, FULL_INVENTORY));
    assert_eq!(g.computer_ships, 10);
    assert_eq!(g.player_ships, 0);
    assert_eq!(count_ship_cells(&g.computer_field), 20);
    assert_eq!(count_ship_cells(&g.player_field), 0);
}

#[test]
fn auto_place_both_fleets() {
    let mut g = GameContext::new();
    g.select_length(1);
    assert!(g.place_selected(0, 0));
    assert!(g.auto_place());
    assert!(g.started);
    assert_eq!(g.inventory, [0, 0, 0, 0]);
    assert_eq!(g.player_ships, 10);
    assert_eq!(g.computer_ships, 10);
    assert_eq!(count_ship_cells(&g.player_field), 20);
    assert!(!g.auto_place());
}

#[test]
fn free_place_search() {
    let f = Field::new();
    assert_eq!(find_free_place(&f, 1), Some((0, 0, Dir::Up)));
    assert_eq!(find_free_place(&f, 2), Some((0, 0, Dir::Right)));
    let mut full = Field::new();
    for x in (0..GRID).step_by(2) {
        for y in (0..GRID).step_by(2) {
            full.place_ship(x, y, 1, Dir::Up);
        }
    }
    assert_eq!(find_free_place(&full, 1), None);
}

#[test]
fn miss_passes_turn_hit_keeps_it() {
    let mut g = GameContext::new();
    g.place(Move::Computer, 5, 5, 2, Dir::Right);
    assert_eq!(g.computer_ships, 1);
    assert_eq!(g.shoot(0, 0, Move::Player), ShootResult::Miss);
    assert_eq!(g.current_move, Move::Computer);
    assert_eq!(*g.computer_field.get(0, 0), Cell::Miss);
    assert_eq!(g.shoot(9, 9, Move::Computer), ShootResult::Miss);
    assert_eq!(g.current_move, Move::Player);
    assert_eq!(g.shoot(5, 5, Move::Player), ShootResult::Hit);
    assert_eq!(g.current_move, Move::Player);
    assert_eq!(g.shoot(6, 5, Move::Player), ShootResult::Destroy);
    assert_eq!(g.current_move, Move::Player);
    assert_eq!(g.computer_ships, 0);
    assert_eq!(g.winner, Some(Move::Player));
}

#[test]
fn reshot_changes_nothing() {
    let mut g = GameContext::new();
    g.place(Move::Computer, 5, 5, 2, Dir::Right);
    g.place(Move::Computer, 0, 0, 1, Dir::Right);
    assert_eq!(g.shoot(5, 5, Move::Player), ShootResult::Hit);
    assert_eq!(g.shoot(5, 5, Move::Player), ShootResult::Miss);
    assert_eq!(g.current_move, Move::Player);
    assert_eq!(g.shoot(3, 3, Move::Player), ShootResult::Miss);
    assert_eq!(g.current_move, Move::Computer);
    g.current_move = Move::Player;
    assert_eq!(g.shoot(3, 3, Move::Player), ShootResult::Miss);
    assert_eq!(g.current_move, Move::Player);
    assert_eq!(*g.computer_field.get(3, 3), Cell::Miss);
    assert_eq!(
        *g.computer_field.get(5, 5),
        Cell::Ship { dir: Dir::Right, front: 1, back: 0, fire: true, destroyed: false }
    );
    assert_eq!(g.computer_ships, 2);
    assert_eq!(g.winner, None);
}

#[test]
fn winner_only_at_last_ship() {
    let mut g = GameContext::new();
    g.place(Move::Player, 0, 0, 1, Dir::Up);
    g.place(Move::Player, 5, 5, 1, Dir::Up);
    assert_eq!(g.inventory, [2, 3, 2, 1]);
    assert_eq!(g.player_ships, 2);
    assert_eq!(g.shoot(0, 0, Move::Computer), ShootResult::Destroy);
    assert_eq!(g.player_ships, 1);
    assert_eq!(g.winner, None);
    assert_eq!(g.shoot(5, 5, Move::Computer), ShootResult::Destroy);
    assert_eq!(g.player_ships, 0);
    assert_eq!(g.winner, Some(Move::Computer));
}

#[test]
fn no_mutation_after_winner() {
    let mut g = GameContext::new();
    g.place(Move::Player, 0, 0, 1, Dir::Up);
    g.place(Move::Player, 5, 5, 1, Dir::Up);
    g.winner = Some(Move::Player);
    assert_eq!(g.shoot(5, 5, Move::Computer), ShootResult::Miss);
    assert_eq!(g.shoot(7, 7, Move::Computer), ShootResult::Miss);
    assert_eq!(*g.player_field.get(7, 7), Cell::Water);
    assert_eq!(
        *g.player_field.get(5, 5),
        Cell::Ship { dir: Dir::Up, front: 0, back: 0, fire: false, destroyed: false }
    );
    assert_eq!(g.player_ships, 2);
    assert_eq!(g.current_move, Move::Player);
    g.current_move = Move::Computer;
    assert_eq!(g.ai_move(0, 0), None);
    assert_eq!(g.update_ai(5000), None);
    assert_eq!(*g.player_field.get(0, 0), Cell::Ship { dir: Dir::Up, front: 0, back: 0, fire: false, destroyed: false });
    assert!(!g.place_selected(9, 9));
}

#[test]
fn candidates_exclude_shot_and_sunk_surroundings() {
    let mut f = Field::new();
    let all = target_candidates(&f);
    assert_eq!(all.len(), 100);
    assert_eq!(all[0], (0, 0));
    assert_eq!(all[1], (0, 1));
    assert_eq!(all[33], (3, 3));
    f.place_ship(4, 4, 1, Dir::Up);
    f.receive_shot(0, 0);
    assert!(!can_target(&f, 0, 0));
    assert!(can_target(&f, 3, 3));
    assert!(can_target(&f, 4, 4));
    assert!(!can_target(&f, -1, 3));
    assert!(!can_target(&f, 3, 10));
    assert_eq!(f.receive_shot(4, 4), ShootResult::Destroy);
    assert!(!can_target(&f, 3, 3));
    assert!(!can_target(&f, 4, 4));
    assert!(can_target(&f, 2, 2));
    assert_eq!(target_candidates(&f).len(), 100 - 1 - 9);
}

#[test]
fn choose_target_by_tactic() {
    let mut f = Field::new();
    assert_eq!(choose_target(&f, Tactics::Random, 133), (Some((3, 3)), Tactics::Random));
    let scan = Tactics::Scan { pos: Pos { x: 0, y: 0 }, dir: Dir::Up };
    // Up and then left of a corner are off the grid... up is off, right is open.
    assert_eq!(
        choose_target(&f, scan, 0),
        (Some((1, 0)), Tactics::Scan { pos: Pos { x: 0, y: 0 }, dir: Dir::Right })
    );
    let line = Tactics::Line { start_pos: Pos { x: 2, y: 2 }, current_pos: Pos { x: 2, y: 4 }, dir: Dir::Down };
    assert_eq!(choose_target(&f, line, 0), (Some((2, 4)), line));
    f.receive_shot(2, 4);
    assert_eq!(choose_target(&f, line, 0), (Some((0, 0)), Tactics::Random));
}

#[test]
fn tactics_after_results() {
    let f = Field::new();
    let scan = Tactics::Scan { pos: Pos { x: 3, y: 3 }, dir: Dir::Right };
    assert_eq!(next_tactics(&f, Tactics::Random, 3, 3, ShootResult::Hit, 6), Tactics::Scan {
        pos: Pos { x: 3, y: 3 },
        dir: Dir::Down
    });
    assert_eq!(next_tactics(&f, scan, 4, 3, ShootResult::Miss, 0), Tactics::Scan {
        pos: Pos { x: 3, y: 3 },
        dir: Dir::Down
    });
    assert_eq!(next_tactics(&f, scan, 4, 3, ShootResult::Hit, 0), Tactics::Line {
        start_pos: Pos { x: 3, y: 3 },
        current_pos: Pos { x: 5, y: 3 },
        dir: Dir::Right
    });
    let line = Tactics::Line { start_pos: Pos { x: 3, y: 3 }, current_pos: Pos { x: 5, y: 3 }, dir: Dir::Right };
    assert_eq!(next_tactics(&f, line, 5, 3, ShootResult::Miss, 0), Tactics::Line {
        start_pos: Pos { x: 3, y: 3 },
        current_pos: Pos { x: 2, y: 3 },
        dir: Dir::Left
    });
    assert_eq!(next_tactics(&f, line, 5, 3, ShootResult::Hit, 0), Tactics::Line {
        start_pos: Pos { x: 3, y: 3 },
        current_pos: Pos { x: 6, y: 3 },
        dir: Dir::Right
    });
    let edge = Tactics::Line { start_pos: Pos { x: 0, y: 3 }, current_pos: Pos { x: 9, y: 3 }, dir: Dir::Right };
    assert_eq!(next_tactics(&f, edge, 9, 3, ShootResult::Hit, 0), Tactics::Random);
    assert_eq!(next_tactics(&f, line, 5, 3, ShootResult::Destroy, 0), Tactics::Random);
}

#[test]
fn ai_tactic_transitions() {
    let mut g = GameContext::new();
    g.place(Move::Player, 3, 3, 3, Dir::Down);
    g.place(Move::Player, 8, 8, 1, Dir::Down);
    g.current_move = Move::Computer;
    // Random pick of candidate 33, the square (3, 3): a hit.
    assert_eq!(g.ai_move(33, 1), Some(ShootResult::Hit));
    assert_eq!(g.enemy_ai.tactics, Tactics::Scan { pos: Pos { x: 3, y: 3 }, dir: Dir::Right });
    assert_eq!(g.current_move, Move::Computer);
    // Probe to the right: a miss turns the probe clockwise.
    assert_eq!(g.ai_move(0, 0), Some(ShootResult::Miss));
    assert_eq!(*g.player_field.get(4, 3), Cell::Miss);
    assert_eq!(g.enemy_ai.tactics, Tactics::Scan { pos: Pos { x: 3, y: 3 }, dir: Dir::Down });
    assert_eq!(g.current_move, Move::Player);
    g.current_move = Move::Computer;
    // Probe downwards: a hit fixes the axis.
    assert_eq!(g.ai_move(0, 0), Some(ShootResult::Hit));
    assert_eq!(g.enemy_ai.tactics, Tactics::Line {
        start_pos: Pos { x: 3, y: 3 },
        current_pos: Pos { x: 3, y: 5 },
        dir: Dir::Down
    });
    // The line finishes the ship.
    assert_eq!(g.ai_move(0, 0), Some(ShootResult::Destroy));
    assert_eq!(g.enemy_ai.tactics, Tactics::Random);
    assert_eq!(g.player_ships, 1);
    assert_eq!(g.winner, None);
}

#[test]
fn ai_timer() {
    let mut g = GameContext::new();
    g.place(Move::Player, 0, 0, 1, Dir::Down);
    g.place(Move::Player, 9, 9, 1, Dir::Down);
    assert_eq!(g.update_ai_with(5000, 0, 0), None);
    assert_eq!(g.enemy_ai.delay, MOVE_DELAY);
    g.current_move = Move::Computer;
    assert_eq!(g.update_ai_with(400, 0, 0), None);
    assert_eq!(g.enemy_ai.delay, 600);
    assert_eq!(g.update_ai_with(600, 0, 0), Some(ShootResult::Destroy));
    assert_eq!(g.enemy_ai.delay, MOVE_DELAY);
    assert_eq!(g.player_ships, 1);
    assert!(g.tick_ai_timer(1000));
    assert!(!g.tick_ai_timer(999));
    assert_eq!(g.enemy_ai.delay, 1);
}

#[test]
fn ai_random_play_finishes() {
    let mut g = GameContext::new();
    assert!(g.auto_place());
    g.current_move = Move::Computer;
    let mut shots = 0;
    while g.winner.is_none() && shots < 1000 {
        g.current_move = Move::Computer;
        if g.update_ai(MOVE_DELAY).is_none() {
            break;
        }
        shots += 1;
    }
    assert_eq!(g.winner, Some(Move::Computer));
    assert_eq!(g.player_ships, 0);
    assert!(shots <= 100);
}

#[test]
fn try_place_step() {
    let mut g = GameContext::new();
    assert!(g.try_place(Move::Computer, 2, 2, 3, Dir::Right));
    assert_eq!(g.computer_ships, 1);
    assert_eq!(
        *g.computer_field.get(4, 2),
        Cell::Ship { dir: Dir::Right, front: 0, back: 2, fire: false, destroyed: false }
    );
    assert_eq!(count_ship_cells(&g.player_field), 0);
    // Touching the first ship, off the grid, or at the count limit: nothing changes.
    assert!(!g.try_place(Move::Computer, 5, 3, 1, Dir::Up));
    assert!(!g.try_place(Move::Computer, 9, 9, 2, Dir::Down));
    assert!(!g.try_place(Move::Computer, 12, 0, 1, Dir::Down));
    g.computer_ships = 255;
    assert!(!g.try_place(Move::Computer, 8, 8, 1, Dir::Down));
    assert_eq!(count_ship_cells(&g.computer_field), 3);
}

#[test]
fn place_ships_edge_cases() {
    let mut g = GameContext::new();
    assert!(g.place_ships(Move::Player, [0, 0, 0, 0]));
    assert_eq!(g.player_ships, 0);
    assert_eq!(count_ship_cells(&g.player_field), 0);
    g.player_ships = 255;
    assert!(!g.place_ships(Move::Player, [1, 0, 0, 0]));
    assert_eq!(count_ship_cells(&g.player_field), 0);
    // A grid with single ships on every other square has no room left.
    let mut h = GameContext::new();
    for x in (0..GRID).step_by(2) {
        for y in (0..GRID).step_by(2) {
            assert!(h.try_place(Move::Player, x, y, 1, Dir::Up));
        }
    }
    assert_eq!(h.player_ships, 25);
    assert!(!h.place_ships(Move::Player, [0, 1, 0, 0]));
    assert_eq!(h.player_ships, 25);
    assert_eq!(count_ship_cells(&h.player_field), 25);
    assert!(h.computer_ships == 0 && count_ship_cells(&h.computer_field) == 0);
}

#[test]
fn selection_keeps_the_rest() {
    let mut g = GameContext::new();
    g.rotate_selection(false);
    g.select_length(2);
    g.select_dir(Dir::Left);
    assert_eq!(g.current_move, Move::Player);
    assert_eq!(g.winner, None);
    assert_eq!(g.enemy_ai, EnemyAI { tactics: Tactics::Random, delay: MOVE_DELAY });
    assert_eq!(g.player_ships, 0);
    assert_eq!(g.computer_ships, 0);
    assert_eq!(g.inventory, FULL_INVENTORY);
}

#[test]
fn ai_without_candidates_passes_turn() {
    let mut g = GameContext::new();
    for x in 0..GRID {
        for y in 0..GRID {
            g.player_field.receive_shot(x, y);
        }
    }
    g.current_move = Move::Computer;
    assert_eq!(g.ai_move(5, 5), None);
    assert_eq!(g.current_move, Move::Player);
}
