use std::collections::HashMap;

use robotfindskitten::board::Board;
use robotfindskitten::common::{GItem, Point, HEART_CH, VERSION_STRING};
use robotfindskitten::console::{text_buffer, RED, WHITE};
use robotfindskitten::screen::{finale_frames, header_text, DrawCmd, ROBOT_PAIR};

fn board_with(w: i16, h: i16, robot: Point, items: Vec<(Point, GItem)>) -> Board {
    let mut b = Board {
        board_size: Point { x: w, y: h },
        robot_location: robot,
        board_locations: HashMap::new(),
        rng: rand::thread_rng(),
        message: String::new(),
        game_over: false,
        kitten_color: 9,
    };
    for (p, item) in items {
        let k = b.key_of(p);
        b.board_locations.insert(k, item);
    }
    b
}

#[test]
fn header_is_title_blank_line_and_rule() {
    assert_eq!(header_text(6), "robotfindskitten v0.9\n\n-----\n");
    assert_eq!(header_text(1), "robotfindskitten v0.9\n\n\n");
    assert_eq!(header_text(-3), "robotfindskitten v0.9\n\n\n");
}

#[test]
fn finale_walks_robot_to_kitten() {
    let frames = finale_frames(20, b'k');
    let texts: Vec<&str> = frames.iter().map(|(s, _)| s.as_str()).collect();
    assert_eq!(
        texts,
        vec![
            "      #      k",
            "       #    k ",
            "        #  k  ",
            "         #k   ",
            "         \u{2665}    ",
        ]
    );
    let pauses: Vec<u64> = frames.iter().map(|(_, p)| *p).collect();
    assert_eq!(pauses, vec![1, 1, 1, 1, 3]);
}

#[test]
fn finale_on_a_narrow_screen_is_not_indented() {
    let frames = finale_frames(9, b'z');
    assert_eq!(frames[0].0, "#      z");
    let frames = finale_frames(-40, b'z');
    assert_eq!(frames[3].0, "   #z   ");
    assert_eq!(frames[4].0, format!("   {}    ", HEART_CH));
}

#[test]
fn heart_in_message_is_detected() {
    let mut b = board_with(3, 3, Point { x: 0, y: 0 }, vec![]);
    assert!(!b.message_has_heart());
    b.message = "   #    ".to_string();
    assert!(!b.message_has_heart());
    b.message = format!("   {}    ", HEART_CH);
    assert!(b.message_has_heart());
}

#[test]
fn draw_list_shows_items_and_robot_below_the_header() {
    let b = board_with(
        3,
        2,
        Point { x: 1, y: 1 },
        vec![
            (Point { x: 2, y: 0 }, GItem::Kitten(b'k', 4)),
            (Point { x: 0, y: 1 }, GItem::NonKittenItem("n".to_string(), b'n', 0)),
        ],
    );
    // A screen of 4 columns and 5 rows shows the whole board.
    let cmds = b.draw_list(4, 5);
    assert_eq!(
        cmds,
        vec![
            DrawCmd { row: 3, col: 2, ch: b'k', pair: 5 },
            DrawCmd { row: 4, col: 0, ch: b'n', pair: 1 },
            DrawCmd { row: 4, col: 1, ch: b'#', pair: ROBOT_PAIR },
        ]
    );
    // A smaller screen shows only the first columns and rows.
    let cmds = b.draw_list(3, 4);
    assert_eq!(cmds, vec![]);
    let cmds = b.draw_list(2, 5);
    assert_eq!(
        cmds,
        vec![
            DrawCmd { row: 4, col: 0, ch: b'n', pair: 1 },
        ]
    );
}

#[test]
fn console_buffer_layers_title_message_rule_and_board() {
    let mut b = board_with(
        7,
        2,
        Point { x: 1, y: 1 },
        vec![(Point { x: 2, y: 0 }, GItem::Kitten(b'k', 4))],
    );
    b.message = "hi".to_string();
    // 8 columns, 5 rows: 40 cells.
    let buf = b.console_buffer(8, 5);
    assert_eq!(buf.len(), 40);
    let title: Vec<char> = VERSION_STRING.chars().collect();
    // The title runs over the first row into the second; the message
    // overwrites the start of the second row.
    assert_eq!(buf[0], (title[0] as u16, WHITE));
    assert_eq!(buf[7], (title[7] as u16, WHITE));
    assert_eq!(buf[8], ('h' as u16, WHITE));
    assert_eq!(buf[9], ('i' as u16, WHITE));
    assert_eq!(buf[10], (title[10] as u16, WHITE));
    // The rule covers the first 7 cells of the third row.
    for x in 0..7 {
        assert_eq!(buf[16 + x], ('-' as u16, WHITE));
    }
    assert_eq!(buf[23], (0, 0));
    // Kitten at board (2, 0) is cell 3 * 8 + 2; robot at (1, 1) is 4 * 8 + 1.
    assert_eq!(buf[26], (b'k' as u16, 4));
    assert_eq!(buf[33], ('#' as u16, WHITE));
    assert_eq!(buf[24], (0, 0));
    assert_eq!(buf[39], (0, 0));
}

#[test]
fn console_buffer_colours_a_won_message() {
    let mut b = board_with(3, 1, Point { x: 0, y: 0 }, vec![]);
    b.game_over = true;
    b.message = format!("# {}a", HEART_CH);
    let buf = b.console_buffer(30, 4);
    assert_eq!(buf[30], ('#' as u16, WHITE));
    assert_eq!(buf[31], (' ' as u16, WHITE));
    assert_eq!(buf[32], (HEART_CH as u32 as u16, RED));
    assert_eq!(buf[33], ('a' as u16, 9));
}

#[test]
fn text_buffer_writes_lines_row_by_row() {
    let buf = text_buffer("ab\ncd\r\ne", 4, 3);
    assert_eq!(buf.len(), 12);
    assert_eq!(buf[0], ('a' as u16, WHITE));
    assert_eq!(buf[1], ('b' as u16, WHITE));
    assert_eq!(buf[2], (0, 0));
    assert_eq!(buf[4], ('c' as u16, WHITE));
    assert_eq!(buf[5], ('d' as u16, WHITE));
    assert_eq!(buf[6], (0, 0));
    assert_eq!(buf[8], ('e' as u16, WHITE));
    assert_eq!(buf[9], (0, 0));
}

#[test]
fn text_buffer_keeps_a_lone_carriage_return() {
    let buf = text_buffer("a\rb", 4, 1);
    assert_eq!(buf, vec![('a' as u16, WHITE), ('\r' as u16, WHITE), ('b' as u16, WHITE), (0, 0)]);
}

#[test]
fn draw_list_draws_robot_over_an_item() {
    let b = board_with(
        2,
        1,
        Point { x: 1, y: 0 },
        vec![(Point { x: 1, y: 0 }, GItem::Kitten(b'k', 0x9000))],
    );
    let cmds = b.draw_list(3, 4);
    assert_eq!(
        cmds,
        vec![
            DrawCmd { row: 3, col: 1, ch: b'k', pair: (0x9000u16 as i16) + 1 },
            DrawCmd { row: 3, col: 1, ch: b'#', pair: ROBOT_PAIR },
        ]
    );
}

#[test]
fn finale_frames_become_the_board_message() {
    let mut b = board_with(3, 3, Point { x: 1, y: 1 }, vec![]);
    b.message = "Game won".to_string();
    b.game_over = true;
    let expected = finale_frames(20, b'k');
    for i in 0..5 {
        let pause = b.show_finale_frame(20, b'k', i);
        assert_eq!(b.message, expected[i].0);
        assert_eq!(pause, expected[i].1);
    }
    assert_eq!(b.message, "         \u{2665}    ");
    assert!(b.game_over);
    assert_eq!(b.robot_location, Point { x: 1, y: 1 });
}
