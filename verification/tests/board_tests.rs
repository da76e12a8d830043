use std::collections::HashMap;

use robotfindskitten::board::{ascii_lowercase_map, Board, StepAction};
use robotfindskitten::common::{GItem, Point, UsefulInput};
use robotfindskitten::rng::get_rand_non_black_color;

fn board_with(w: i16, h: i16, robot: Point, items: Vec<(Point, GItem)>) -> Board {
    let mut b = Board {
        board_size: Point { x: w, y: h },
        robot_location: robot,
        board_locations: HashMap::new(),
        rng: rand::thread_rng(),
        message: String::new(),
        game_over: false,
        kitten_color: 3,
    };
    for (p, item) in items {
        let k = b.key_of(p);
        b.board_locations.insert(k, item);
    }
    b
}

fn sample_board() -> Board {
    // Robot at (2, 2); kitten to its right, a rock above it.
    board_with(
        5,
        4,
        Point { x: 2, y: 2 },
        vec![
            (Point { x: 3, y: 2 }, GItem::Kitten(b'k', 3)),
            (Point { x: 2, y: 1 }, GItem::NonKittenItem("A rock.".to_string(), b'r', 5)),
        ],
    )
}

fn phrases(n: usize) -> Vec<String> {
    (0..n).map(|i| format!("phrase {}", i)).collect()
}

fn item_at(b: &Board, p: Point) -> Option<GItem> {
    b.board_locations.get(&b.key_of(p)).cloned()
}

fn check_new_board(b: &Board, n: u32, ph: &[String], size: Point) {
    assert_eq!(b.board_size, size);
    assert_eq!(b.board_locations.len(), n as usize + 1);
    assert!(!b.game_over);
    assert_eq!(b.message, "");
    assert!(!b.is_out_of_bounds(b.robot_location));
    // The robot never starts at the corner it was created on.
    assert_ne!(b.robot_location, Point { x: 0, y: 0 });
    let glyphs = ascii_lowercase_map();
    let mut kittens = 0;
    for (k, item) in b.board_locations.iter() {
        assert!((*k as i32) < (size.x as i32) * (size.y as i32));
        assert_ne!(*k, b.key_of(b.robot_location));
        match item {
            GItem::Kitten(ch, color) => {
                kittens += 1;
                assert_eq!(*color, b.kitten_color);
                assert!(*color < 15);
                assert!(glyphs.contains(ch));
            }
            GItem::NonKittenItem(s, ch, color) => {
                assert!(ph.contains(s));
                assert!(*color < 15);
                assert!(glyphs.contains(ch));
            }
        }
    }
    assert_eq!(kittens, 1);
}

#[test]
fn new_board_places_robot_items_and_one_kitten() {
    let ph = phrases(30);
    for _ in 0..20 {
        let b = Board::new(ph.clone(), (80, 24), 21);
        check_new_board(&b, 21, &ph, Point { x: 79, y: 21 });
    }
}

#[test]
fn new_board_on_a_board_with_no_room_to_spare() {
    // A 2 by 2 board holds robot, two items and kitten: every cell is taken.
    let ph = phrases(2);
    for _ in 0..20 {
        let b = Board::new(ph.clone(), (3, 5), 2);
        check_new_board(&b, 2, &ph, Point { x: 2, y: 2 });
        for y in 0..2 {
            for x in 0..2 {
                assert!(b.is_occupied(Point { x, y }));
            }
        }
    }
}

#[test]
fn new_board_without_items_holds_only_kitten() {
    let b = Board::new(Vec::new(), (10, 10), 0);
    check_new_board(&b, 0, &[], Point { x: 9, y: 7 });
}

#[test]
fn new_boards_differ_from_game_to_game() {
    // The generator and the shuffles are used: robot's cell, kitten's glyph
    // and the chosen descriptions vary between boards.
    let ph = phrases(90);
    let mut robots = std::collections::HashSet::new();
    let mut kitten_glyphs = std::collections::HashSet::new();
    let mut descriptions = std::collections::HashSet::new();
    for _ in 0..30 {
        let b = Board::new(ph.clone(), (80, 24), 3);
        robots.insert(b.robot_location);
        for item in b.board_locations.values() {
            match item {
                GItem::Kitten(ch, _) => {
                    kitten_glyphs.insert(*ch);
                }
                GItem::NonKittenItem(s, _, _) => {
                    descriptions.insert(s.clone());
                }
            }
        }
    }
    assert!(robots.len() > 1);
    assert!(kitten_glyphs.len() > 1);
    assert!(descriptions.len() > 3);
}

#[test]
fn ascii_lowercase_map_is_printable_ascii_in_lower_case() {
    let v = ascii_lowercase_map();
    assert_eq!(v.len(), 95);
    assert_eq!(v[0], b' ');
    assert_eq!(v[32], b'@');
    assert_eq!(v[33], b'a');
    assert_eq!(v[58], b'z');
    assert_eq!(v[59], b'[');
    assert_eq!(v[65], b'a');
    assert_eq!(v[94], b'~');
    assert!(v.iter().all(|b| !b.is_ascii_uppercase()));
}

#[test]
fn key_of_is_row_major_index() {
    let b = board_with(10, 5, Point { x: 0, y: 0 }, vec![]);
    assert_eq!(b.key_of(Point { x: 3, y: 2 }), 23);
    assert_eq!(b.key_of(Point { x: 0, y: 0 }), 0);
    assert_eq!(b.key_of(Point { x: 9, y: 4 }), 49);
}

#[test]
fn out_of_bounds_and_occupied() {
    let b = sample_board();
    assert!(b.is_out_of_bounds(Point { x: -1, y: 0 }));
    assert!(b.is_out_of_bounds(Point { x: 0, y: -1 }));
    assert!(b.is_out_of_bounds(Point { x: 5, y: 0 }));
    assert!(b.is_out_of_bounds(Point { x: 0, y: 4 }));
    assert!(!b.is_out_of_bounds(Point { x: 4, y: 3 }));
    assert!(b.is_occupied(Point { x: 2, y: 2 }));
    assert!(b.is_occupied(Point { x: 3, y: 2 }));
    assert!(b.is_occupied(Point { x: 2, y: 1 }));
    assert!(!b.is_occupied(Point { x: 0, y: 0 }));
    assert!(!b.is_occupied(Point { x: 7, y: 0 }));
}

#[test]
fn move_onto_free_cell_moves_robot() {
    let mut b = sample_board();
    assert_eq!(b.attempt_move(UsefulInput::Down), None);
    assert_eq!(b.robot_location, Point { x: 2, y: 3 });
    assert_eq!(b.attempt_move(UsefulInput::Left), None);
    assert_eq!(b.robot_location, Point { x: 1, y: 3 });
    assert_eq!(b.message, "");
    assert!(!b.game_over);
}

#[test]
fn move_off_the_board_changes_nothing() {
    let mut b = sample_board();
    b.robot_location = Point { x: 0, y: 3 };
    assert_eq!(b.attempt_move(UsefulInput::Left), None);
    assert_eq!(b.attempt_move(UsefulInput::Down), None);
    assert_eq!(b.robot_location, Point { x: 0, y: 3 });
    assert_eq!(b.message, "");
    b.robot_location = Point { x: 4, y: 0 };
    assert_eq!(b.attempt_move(UsefulInput::Right), None);
    assert_eq!(b.attempt_move(UsefulInput::Up), None);
    assert_eq!(b.robot_location, Point { x: 4, y: 0 });
}

#[test]
fn touching_an_item_shows_its_description() {
    let mut b = sample_board();
    assert_eq!(b.attempt_move(UsefulInput::Up), None);
    assert_eq!(b.robot_location, Point { x: 2, y: 2 });
    assert_eq!(b.message, "A rock.");
    assert!(!b.game_over);
    assert_eq!(b.board_locations.len(), 2);
}

#[test]
fn touching_kitten_wins() {
    let mut b = sample_board();
    assert_eq!(b.attempt_move(UsefulInput::Right), Some(b'k'));
    assert_eq!(b.robot_location, Point { x: 2, y: 2 });
    assert_eq!(b.message, "Game won");
    assert!(b.game_over);
}

#[test]
fn handle_input_escape_ends_game() {
    let mut b = sample_board();
    assert_eq!(b.handle_input(UsefulInput::Escape), StepAction::Quit);
    assert_eq!(b.robot_location, Point { x: 2, y: 2 });
    assert_eq!(b.message, "");
}

#[test]
fn handle_input_other_is_ignored() {
    let mut b = sample_board();
    assert_eq!(b.handle_input(UsefulInput::Other), StepAction::Continue);
    assert_eq!(b.robot_location, Point { x: 2, y: 2 });
    assert!(!b.game_over);
}

#[test]
fn handle_input_finds_kitten_then_quits() {
    let mut b = sample_board();
    assert_eq!(b.handle_input(UsefulInput::Down), StepAction::Continue);
    assert_eq!(b.handle_input(UsefulInput::Up), StepAction::Continue);
    assert_eq!(b.handle_input(UsefulInput::Right), StepAction::Celebrate(b'k'));
    assert!(b.game_over);
    // Once the game is over every key ends it and nothing moves.
    assert_eq!(b.handle_input(UsefulInput::Left), StepAction::Quit);
    assert_eq!(b.robot_location, Point { x: 2, y: 2 });
    assert_eq!(b.message, "Game won");
}

#[test]
fn a_run_of_keys_keeps_items_and_robot_off_them() {
    let mut b = sample_board();
    let before = b.board_locations.clone();
    let keys = [
        UsefulInput::Up,
        UsefulInput::Left,
        UsefulInput::Up,
        UsefulInput::Up,
        UsefulInput::Right,
        UsefulInput::Right,
        UsefulInput::Other,
        UsefulInput::Down,
        UsefulInput::Down,
        UsefulInput::Left,
    ];
    let mut last = b.robot_location;
    for k in keys.iter() {
        let action = b.handle_input(*k);
        let r = b.robot_location;
        assert!((r.x - last.x).abs() + (r.y - last.y).abs() <= 1);
        assert!(!b.is_out_of_bounds(r));
        assert!(item_at(&b, r).is_none());
        assert_eq!(b.board_locations, before);
        last = r;
        if action == StepAction::Quit {
            break;
        }
    }
    // Kitten lies at (3, 2): robot reached it from above, beside it.
    assert!(b.game_over);
    assert_eq!(b.robot_location, Point { x: 3, y: 1 });
}

#[test]
fn new_location_finds_the_only_free_cell() {
    let mut b = board_with(
        2,
        2,
        Point { x: 0, y: 0 },
        vec![
            (Point { x: 1, y: 0 }, GItem::Kitten(b'k', 1)),
            (Point { x: 1, y: 1 }, GItem::NonKittenItem("x".to_string(), b'x', 1)),
        ],
    );
    for _ in 0..10 {
        assert_eq!(b.new_location(), Point { x: 0, y: 1 });
    }
}

#[test]
fn new_location_is_free_and_on_the_board() {
    let mut b = sample_board();
    for _ in 0..100 {
        let p = b.new_location();
        assert!(!b.is_out_of_bounds(p));
        assert!(!b.is_occupied(p));
    }
}

#[test]
fn non_black_colors_are_one_to_six() {
    let mut rng = rand::thread_rng();
    let mut seen = std::collections::HashSet::new();
    for _ in 0..500 {
        let c = get_rand_non_black_color(&mut rng);
        assert!((1..7).contains(&c));
        seen.insert(c);
    }
    assert!(seen.len() > 1);
}

#[test]
fn place_puts_an_item_on_a_free_cell() {
    let mut b = sample_board();
    b.place(Point { x: 0, y: 3 }, GItem::NonKittenItem("A leaf.".to_string(), b'l', 2));
    assert_eq!(b.board_locations.len(), 3);
    assert_eq!(
        item_at(&b, Point { x: 0, y: 3 }),
        Some(GItem::NonKittenItem("A leaf.".to_string(), b'l', 2))
    );
    assert_eq!(b.board_locations.get(&15), item_at(&b, Point { x: 0, y: 3 }).as_ref());
    assert_eq!(b.robot_location, Point { x: 2, y: 2 });
}

#[test]
fn robot_just_off_the_board_steps_onto_it() {
    let mut b = sample_board();
    b.robot_location = Point { x: -1, y: 3 };
    assert_eq!(b.attempt_move(UsefulInput::Right), None);
    assert_eq!(b.robot_location, Point { x: 0, y: 3 });
    b.robot_location = Point { x: -1, y: 1 };
    assert_eq!(b.handle_input(UsefulInput::Up), StepAction::Continue);
    assert_eq!(b.robot_location, Point { x: -1, y: 1 });
}

#[test]
fn new_location_on_any_board_with_a_free_cell() {
    // Items with capital glyphs and large colours, robot off the board.
    let mut b = board_with(
        2,
        1,
        Point { x: 5, y: 5 },
        vec![(Point { x: 0, y: 0 }, GItem::NonKittenItem("Z".to_string(), b'Z', 0x7fff))],
    );
    let before = b.board_locations.clone();
    for _ in 0..10 {
        assert_eq!(b.new_location(), Point { x: 1, y: 0 });
    }
    assert_eq!(b.board_locations, before);
    assert_eq!(b.robot_location, Point { x: 5, y: 5 });
}

#[test]
fn new_board_draws_descriptions_and_glyphs_without_replacement() {
    let ph = phrases(10);
    for _ in 0..20 {
        let b = Board::new(ph.clone(), (40, 20), 10);
        let mut descs: Vec<String> = b
            .board_locations
            .values()
            .filter_map(|i| match i {
                GItem::NonKittenItem(s, _, _) => Some(s.clone()),
                _ => None,
            })
            .collect();
        descs.sort();
        let mut all = ph.clone();
        all.sort();
        assert_eq!(descs, all);
        let pool = ascii_lowercase_map();
        for item in b.board_locations.values() {
            let ch = match item {
                GItem::Kitten(c, _) => *c,
                GItem::NonKittenItem(_, c, _) => *c,
            };
            let used = b
                .board_locations
                .values()
                .filter(|i| match i {
                    GItem::Kitten(c, _) => *c == ch,
                    GItem::NonKittenItem(_, c, _) => *c == ch,
                })
                .count();
            assert!(used <= pool.iter().filter(|c| **c == ch).count());
        }
    }
}
