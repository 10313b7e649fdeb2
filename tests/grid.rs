use battleship::dir::Dir;
use battleship::field::{Cell, CellView, Field, GRID};
use battleship::fleet::ShootResult;
use battleship::font::{get_nearest_po2, Error, TextAlignHorizontal, TextAlignVertical};

fn ship(dir: Dir, front: u8, back: u8) -> Cell {
    Cell::Ship { dir, front, back, fire: false, destroyed: false }
}

#[test]
fn dir_vectors() {
    assert_eq!(Dir::Up.to_vec(), (0, -1));
    assert_eq!(Dir::Down.to_vec(), (0, 1));
    assert_eq!(Dir::Left.to_vec(), (-1, 0));
    assert_eq!(Dir::Right.to_vec(), (1, 0));
}

#[test]
fn dir_rotations() {
    assert_eq!(Dir::Up.clockwise(), Dir::Right);
    assert_eq!(Dir::Right.clockwise(), Dir::Down);
    assert_eq!(Dir::Down.clockwise(), Dir::Left);
    assert_eq!(Dir::Left.clockwise(), Dir::Up);
    assert_eq!(Dir::Up.counter_clockwise(), Dir::Left);
    assert_eq!(Dir::Left.counter_clockwise(), Dir::Down);
    assert_eq!(Dir::Down.counter_clockwise(), Dir::Right);
    assert_eq!(Dir::Right.counter_clockwise(), Dir::Up);
    assert_eq!(Dir::Up.opposite(), Dir::Down);
    assert_eq!(Dir::Left.opposite(), Dir::Right);
    assert_eq!(Dir::Down.opposite(), Dir::Up);
    assert_eq!(Dir::Right.opposite(), Dir::Left);
}

#[test]
fn new_field_is_water() {
    let f = Field::new();
    for x in 0..GRID {
        for y in 0..GRID {
            assert_eq!(*f.get(x, y), Cell::Water);
        }
    }
}

#[test]
fn set_get_and_get_mut() {
    let mut f = Field::new();
    f.set(2, 7, Cell::Miss);
    assert_eq!(*f.get(2, 7), Cell::Miss);
    assert_eq!(*f.get(7, 2), Cell::Water);
    *f.get_mut(9, 9) = ship(Dir::Up, 0, 0);
    assert_eq!(*f.get(9, 9), ship(Dir::Up, 0, 0));
}

#[test]
fn checked_get_bounds() {
    let mut f = Field::new();
    f.set(0, 9, Cell::Miss);
    assert_eq!(f.checked_get(0, 9), Some(&Cell::Miss));
    assert_eq!(f.checked_get(-1, 0), None);
    assert_eq!(f.checked_get(0, -1), None);
    assert_eq!(f.checked_get(10, 0), None);
    assert_eq!(f.checked_get(0, 10), None);
    assert_eq!(f.checked_get(9, 9), Some(&Cell::Water));
}

#[test]
fn modify_all_writes_run_on_grid_only() {
    let mut f = Field::new();
    f.modify_all(1, 1, -2, 3, Dir::Right, |_c: Cell, i: i8| {
        if i == 0 { Cell::Miss } else { ship(Dir::Right, 0, i as u8) }
    });
    // i = -2 is off the grid and skipped; i = -1, 0, 1, 2 are written.
    assert_eq!(*f.get(0, 1), ship(Dir::Right, 0, 255));
    assert_eq!(*f.get(1, 1), Cell::Miss);
    assert_eq!(*f.get(2, 1), ship(Dir::Right, 0, 1));
    assert_eq!(*f.get(3, 1), ship(Dir::Right, 0, 2));
    assert_eq!(*f.get(4, 1), Cell::Water);
    assert_eq!(*f.get(1, 2), Cell::Water);
}

#[test]
fn collision_off_grid() {
    let f = Field::new();
    assert!(f.has_collision(0, 0, 2, Dir::Up, false));
    assert!(f.has_collision(0, 0, 2, Dir::Left, false));
    assert!(f.has_collision(9, 9, 2, Dir::Right, false));
    assert!(f.has_collision(7, 9, 4, Dir::Right, false));
    assert!(!f.has_collision(6, 9, 4, Dir::Right, false));
    assert!(!f.has_collision(0, 0, 1, Dir::Up, false));
    assert!(!f.has_collision(0, 0, 4, Dir::Down, false));
    assert!(!f.has_collision(5, 5, 0, Dir::Down, false));
}

#[test]
fn collision_neighbourhood() {
    let mut f = Field::new();
    f.place_ship(4, 4, 1, Dir::Up);
    for x in 3..=5 {
        for y in 3..=5 {
            assert!(f.has_collision(x, y, 1, Dir::Down, false));
        }
    }
    assert!(!f.has_collision(2, 2, 1, Dir::Down, false));
    assert!(!f.has_collision(6, 4, 1, Dir::Down, false));
    // A run whose far end touches the ship.
    assert!(f.has_collision(0, 3, 4, Dir::Right, false));
    assert!(!f.has_collision(0, 3, 3, Dir::Right, false));
    // Diagonal contact.
    assert!(f.has_collision(6, 6, 2, Dir::Down, false) == false);
    assert!(f.has_collision(5, 6, 1, Dir::Down, false) == false);
    assert!(f.has_collision(5, 5, 1, Dir::Down, false));
}

#[test]
fn collision_destroyed_only() {
    let mut f = Field::new();
    f.set(2, 2, Cell::Ship { dir: Dir::Up, front: 0, back: 0, fire: false, destroyed: false });
    assert!(f.has_collision(3, 3, 1, Dir::Down, false));
    assert!(!f.has_collision(3, 3, 1, Dir::Down, true));
    f.set(2, 2, Cell::Ship { dir: Dir::Up, front: 0, back: 0, fire: true, destroyed: true });
    assert!(f.has_collision(3, 3, 1, Dir::Down, true));
    assert!(!f.has_collision(4, 4, 1, Dir::Down, true));
    // Off the grid still collides under the filter.
    assert!(f.has_collision(9, 9, 2, Dir::Down, true));
}

#[test]
fn place_ship_writes_segments() {
    let mut f = Field::new();
    f.place_ship(2, 5, 3, Dir::Up);
    assert_eq!(*f.get(2, 5), ship(Dir::Up, 2, 0));
    assert_eq!(*f.get(2, 4), ship(Dir::Up, 1, 1));
    assert_eq!(*f.get(2, 3), ship(Dir::Up, 0, 2));
    assert_eq!(*f.get(2, 2), Cell::Water);
    assert_eq!(*f.get(2, 6), Cell::Water);
}

#[test]
fn placements_stay_apart() {
    let mut f = Field::new();
    f.place_ship(0, 0, 4, Dir::Right);
    assert!(f.has_collision(0, 1, 1, Dir::Down, false));
    assert!(f.has_collision(4, 1, 2, Dir::Down, false));
    assert!(!f.has_collision(5, 0, 2, Dir::Down, false));
    f.place_ship(5, 0, 2, Dir::Down);
    assert!(f.has_collision(6, 2, 1, Dir::Down, false));
    // No two segments of different ships are within distance one.
    for x in 0..GRID {
        for y in 0..GRID {
            if let Cell::Ship { .. } = f.get(x, y) {
                let own_row = y == 0 && x <= 3;
                for (nx, ny) in [(x + 1, y), (x, y + 1), (x + 1, y + 1)] {
                    if nx < GRID && ny < GRID {
                        if let Cell::Ship { .. } = f.get(nx, ny) {
                            let other_row = ny == 0 && nx <= 3;
                            assert_eq!(own_row, other_row);
                        }
                    }
                }
            }
        }
    }
}

#[test]
fn receive_shot_on_water_and_repeat() {
    let mut f = Field::new();
    assert_eq!(f.receive_shot(3, 3), ShootResult::Miss);
    assert_eq!(*f.get(3, 3), Cell::Miss);
    assert_eq!(f.receive_shot(3, 3), ShootResult::Miss);
    assert_eq!(*f.get(3, 3), Cell::Miss);
}

#[test]
fn destroy_needs_every_segment() {
    for length in 1u8..=4 {
        let mut f = Field::new();
        f.place_ship(1, 2, length, Dir::Right);
        for i in 0..length as usize {
            let r = f.receive_shot(1 + i, 2);
            if i + 1 < length as usize {
                assert_eq!(r, ShootResult::Hit);
            } else {
                assert_eq!(r, ShootResult::Destroy);
            }
            for j in 0..length as usize {
                match f.get(1 + j, 2) {
                    Cell::Ship { fire, destroyed, .. } => {
                        assert_eq!(*fire, j <= i);
                        assert_eq!(*destroyed, i + 1 == length as usize);
                    }
                    _ => panic!("segment lost"),
                }
            }
        }
        // A hit segment shot again is a miss and changes nothing.
        assert_eq!(f.receive_shot(1, 2), ShootResult::Miss);
    }
}

#[test]
fn destroy_in_any_order() {
    let mut f = Field::new();
    f.place_ship(5, 8, 3, Dir::Up);
    assert_eq!(f.receive_shot(5, 7), ShootResult::Hit);
    assert_eq!(f.receive_shot(5, 6), ShootResult::Hit);
    assert_eq!(f.receive_shot(5, 8), ShootResult::Destroy);
    for y in 6..=8 {
        assert_eq!(f.view_cell(5, y, true), CellView::Destroyed);
    }
}

#[test]
fn cell_views() {
    let mut f = Field::new();
    f.set(0, 0, Cell::Miss);
    f.set(1, 0, ship(Dir::Up, 0, 0));
    f.set(2, 0, Cell::Ship { dir: Dir::Up, front: 0, back: 0, fire: true, destroyed: false });
    f.set(3, 0, Cell::Ship { dir: Dir::Up, front: 0, back: 0, fire: true, destroyed: true });
    assert_eq!(f.view_cell(0, 0, false), CellView::Miss);
    assert_eq!(f.view_cell(1, 0, false), CellView::ShipVisible);
    assert_eq!(f.view_cell(1, 0, true), CellView::ShipHidden);
    assert_eq!(f.view_cell(2, 0, true), CellView::Hit);
    assert_eq!(f.view_cell(3, 0, true), CellView::Destroyed);
    assert_eq!(f.view_cell(4, 0, true), CellView::Water);
}

#[test]
fn nearest_power_of_two() {
    assert_eq!(get_nearest_po2(1), 1);
    assert_eq!(get_nearest_po2(2), 2);
    assert_eq!(get_nearest_po2(3), 4);
    assert_eq!(get_nearest_po2(5), 8);
    assert_eq!(get_nearest_po2(64), 64);
    assert_eq!(get_nearest_po2(65), 128);
    assert_eq!(get_nearest_po2(1000), 1024);
    assert_eq!(get_nearest_po2(0x4000_0001), 0x8000_0000);
    assert_eq!(get_nearest_po2(0x8000_0000), 0x8000_0000);
}

#[test]
fn font_enums() {
    let e = Error::NoGlyph('x');
    assert!(matches!(e, Error::NoGlyph('x')));
    assert!(matches!(Error::FontError, Error::FontError));
    assert_eq!(TextAlignHorizontal::Center.clone(), TextAlignHorizontal::Center);
    assert_ne!(TextAlignVertical::Top, TextAlignVertical::Bottom);
}

fn naive_collision(f: &Field, x: usize, y: usize, length: u8, dir: Dir, destroyed_only: bool) -> bool {
    let (dx, dy) = dir.to_vec();
    for i in 0..length as isize {
        let cx = x as isize + dx * i;
        let cy = y as isize + dy * i;
        if cx < 0 || cy < 0 || cx >= GRID as isize || cy >= GRID as isize {
            return true;
        }
        for nx in cx - 1..=cx + 1 {
            for ny in cy - 1..=cy + 1 {
                if let Some(Cell::Ship { destroyed, .. }) = f.checked_get(nx, ny) {
                    if !destroyed_only || *destroyed {
                        return true;
                    }
                }
            }
        }
    }
    false
}

#[test]
fn collision_matches_definition_everywhere() {
    let mut f = Field::new();
    f.place_ship(1, 1, 3, Dir::Down);
    f.place_ship(6, 2, 4, Dir::Right);
    f.place_ship(4, 8, 2, Dir::Left);
    f.receive_shot(3, 8);
    f.receive_shot(4, 8);
    for x in 0..GRID {
        for y in 0..GRID {
            for length in 1u8..=4 {
                for dir in [Dir::Up, Dir::Down, Dir::Left, Dir::Right] {
                    for destroyed_only in [false, true] {
                        assert_eq!(
                            f.has_collision(x, y, length, dir, destroyed_only),
                            naive_collision(&f, x, y, length, dir, destroyed_only)
                        );
                    }
                }
            }
        }
    }
}

#[test]
fn off_grid_starts() {
    let mut f = Field::new();
    assert!(f.has_collision(12, 3, 1, Dir::Down, false));
    assert!(!f.has_collision(12, 3, 0, Dir::Down, false));
    assert!(f.has_collision(11, 3, 3, Dir::Left, false));
    f.modify_all(11, 3, 0, 4, Dir::Left, |_c: Cell, _i: i8| Cell::Miss);
    assert_eq!(*f.get(9, 3), Cell::Miss);
    assert_eq!(*f.get(8, 3), Cell::Miss);
    assert_eq!(*f.get(7, 3), Cell::Water);
    f.modify_all(usize::MAX, 0, 0, 100, Dir::Right, |_c: Cell, _i: i8| Cell::Miss);
    assert_eq!(*f.get(0, 0), Cell::Water);
}
