use robotfindskitten::common::UsefulInput;
use robotfindskitten::input::{
    input_from_curses_key, input_from_virtual_key, inputs_from_curses_keys, inputs_from_virtual_keys,
    quits_title_screen, ArrowKeys, ESCAPE_KEY,
};
use robotfindskitten::phrases::{is_phrase_line, select_phrases};

const KEYS: ArrowKeys = ArrowKeys { left: 260, up: 259, right: 261, down: 258 };

#[test]
fn curses_codes_map_to_keys() {
    assert_eq!(input_from_curses_key(ESCAPE_KEY, KEYS), UsefulInput::Escape);
    assert_eq!(input_from_curses_key(27, KEYS), UsefulInput::Escape);
    assert_eq!(input_from_curses_key(260, KEYS), UsefulInput::Left);
    assert_eq!(input_from_curses_key(259, KEYS), UsefulInput::Up);
    assert_eq!(input_from_curses_key(261, KEYS), UsefulInput::Right);
    assert_eq!(input_from_curses_key(258, KEYS), UsefulInput::Down);
    assert_eq!(input_from_curses_key(b'q' as i32, KEYS), UsefulInput::Other);
}

#[test]
fn curses_batches_map_in_order() {
    let codes = vec![258, 97, 27, 261];
    assert_eq!(
        inputs_from_curses_keys(&codes, KEYS),
        vec![UsefulInput::Down, UsefulInput::Other, UsefulInput::Escape, UsefulInput::Right]
    );
    assert_eq!(inputs_from_curses_keys(&vec![], KEYS), vec![]);
}

#[test]
fn virtual_keys_map_to_keys() {
    assert_eq!(input_from_virtual_key(0x1B), UsefulInput::Escape);
    assert_eq!(input_from_virtual_key(0x25), UsefulInput::Left);
    assert_eq!(input_from_virtual_key(0x26), UsefulInput::Up);
    assert_eq!(input_from_virtual_key(0x27), UsefulInput::Right);
    assert_eq!(input_from_virtual_key(0x28), UsefulInput::Down);
    assert_eq!(input_from_virtual_key(0x41), UsefulInput::Other);
}

#[test]
fn only_the_first_virtual_key_counts() {
    assert_eq!(inputs_from_virtual_keys(&vec![0x26, 0x28]), vec![UsefulInput::Up]);
    assert_eq!(inputs_from_virtual_keys(&vec![]), vec![]);
}

#[test]
fn title_screen_quits_only_on_escape() {
    assert!(quits_title_screen(UsefulInput::Escape));
    assert!(!quits_title_screen(UsefulInput::Up));
    assert!(!quits_title_screen(UsefulInput::Other));
}

#[test]
fn comment_lines_are_not_phrases() {
    assert!(is_phrase_line("A rock."));
    assert!(is_phrase_line(""));
    assert!(is_phrase_line(" # not a comment"));
    assert!(!is_phrase_line("# a comment"));
    assert!(!is_phrase_line("#"));
    let lines: Vec<String> =
        vec!["#header", "one", "", "#skip", "two #three"].into_iter().map(String::from).collect();
    assert_eq!(select_phrases(&lines), vec!["one".to_string(), "".to_string(), "two #three".to_string()]);
}
