//! What the screen shows: the title bar, the board, and the finale.
use vstd::prelude::*;

use crate::board::{Board, BoardState};
use crate::common::{GItem, Point, HEART_CH, VERSION_STRING};
use crate::text::{push_char, push_repeated, push_str, repeated};

verus! {

broadcast use vstd::std_specs::hash::group_hash_axioms;

/// The first three screen rows: the title, an empty line (where messages go)
/// and a rule of `max_x - 1` dashes, each ending in a newline.
pub open spec fn header_spec(max_x: i16) -> Seq<char> {
    VERSION_STRING@ + seq!['\n', '\n'] + repeated('-', max_x - 1) + seq!['\n']
}

/// The text of the first three screen rows (see `header_spec`).
pub fn header_text(max_x: i16) -> (s: String)
    requires
        max_x > i16::MIN,
    ensures
        s@ == header_spec(max_x),
{
    let mut s = String::new();
    push_str(&mut s, VERSION_STRING);
    push_char(&mut s, '\n');
    push_char(&mut s, '\n');
    push_repeated(&mut s, '-', max_x - 1);
    push_char(&mut s, '\n');
    s
}

/// How far the finale is indented on a screen `max_x` columns wide.
pub open spec fn finale_indent(max_x: i16) -> int {
    (if max_x > 0 {
        max_x / 2
    } else {
        0
    }) - 4
}

/// Frame `i` of the finale: robot (`#`) and kitten (`c`) walk towards each
/// other, then a heart appears.
pub open spec fn finale_frame(max_x: i16, c: char, i: int) -> Seq<char> {
    let p = repeated(' ', finale_indent(max_x));
    if i == 0 {
        p + seq!['#'] + repeated(' ', 6) + seq![c]
    } else if i == 1 {
        p + seq![' ', '#'] + repeated(' ', 4) + seq![c, ' ']
    } else if i == 2 {
        p + repeated(' ', 2) + seq!['#'] + repeated(' ', 2) + seq![c] + repeated(' ', 2)
    } else if i == 3 {
        p + repeated(' ', 3) + seq!['#', c] + repeated(' ', 3)
    } else {
        p + repeated(' ', 3) + seq![HEART_CH] + repeated(' ', 4)
    }
}

/// How many seconds frame `i` of the finale stays on screen.
pub open spec fn finale_pause(i: int) -> u64 {
    if i < 4 {
        1
    } else {
        3
    }
}

fn finale_frame_text(max_x: i16, c: char, i: usize) -> (s: String)
    requires
        i < 5,
    ensures
        s@ == finale_frame(max_x, c, i as int),
{
    let half: i16 = if max_x > 0 {
        max_x / 2
    } else {
        0
    };
    let mut s = String::new();
    push_repeated(&mut s, ' ', half - 4);
    if i == 0 {
        push_char(&mut s, '#');
        push_repeated(&mut s, ' ', 6);
        push_char(&mut s, c);
    } else if i == 1 {
        push_char(&mut s, ' ');
        push_char(&mut s, '#');
        push_repeated(&mut s, ' ', 4);
        push_char(&mut s, c);
        push_char(&mut s, ' ');
    } else if i == 2 {
        push_repeated(&mut s, ' ', 2);
        push_char(&mut s, '#');
        push_repeated(&mut s, ' ', 2);
        push_char(&mut s, c);
        push_repeated(&mut s, ' ', 2);
    } else if i == 3 {
        push_repeated(&mut s, ' ', 3);
        push_char(&mut s, '#');
        push_char(&mut s, c);
        push_repeated(&mut s, ' ', 3);
    } else {
        push_repeated(&mut s, ' ', 3);
        push_char(&mut s, HEART_CH);
        push_repeated(&mut s, ' ', 4);
    }
    assert(s@ =~= finale_frame(max_x, c, i as int));
    s
}

/// The finale shown when robot finds kitten (drawn with `item_ch`) on a
/// screen `max_x` columns wide: five messages, each with the number of
/// seconds it stays on screen.
pub fn finale_frames(max_x: i16, item_ch: u8) -> (frames: Vec<(String, u64)>)
    ensures
        frames.len() == 5,
        forall|i: int|
            0 <= i < 5 ==> (#[trigger] frames@[i]).0@ == finale_frame(max_x, item_ch as char, i)
                && frames@[i].1 == finale_pause(i),
{
    let c = item_ch as char;
    let mut frames: Vec<(String, u64)> = Vec::new();
    let mut i: usize = 0;
    while i < 5
        invariant
            i <= 5,
            c == item_ch as char,
            frames.len() == i,
            forall|j: int|
                0 <= j < i ==> (#[trigger] frames@[j]).0@ == finale_frame(max_x, c, j)
                    && frames@[j].1 == finale_pause(j),
        decreases 5 - i,
    {
        let pause: u64 = if i < 4 {
            1
        } else {
            3
        };
        frames.push((finale_frame_text(max_x, c, i), pause));
        i = i + 1;
    }
    frames
}

/// One glyph to draw: at screen `row` and column `col`, the byte `ch` in
/// colour pair `pair`.
#[derive(Debug, Copy, Clone, PartialEq, Eq, Structural)]
pub struct DrawCmd {
    pub row: i32,
    pub col: i32,
    pub ch: u8,
    pub pair: i16,
}

/// The colour pair robot is drawn in.
pub const ROBOT_PAIR: i16 = 17;

/// No item has the colour `0x7fff`, whose colour pair would not fit an
/// `i16`.
pub open spec fn colors_drawable(s: BoardState) -> bool {
    forall|k: u32| #[trigger] s.items.contains_key(k) ==> s.items[k].color() != 0x7fff
}

/// What is drawn for the board cell (`x`, `y`): the item there, in the colour
/// pair after its colour (read as an `i16`), then robot, if it stands there; both three rows
/// down, below the header.
pub open spec fn cell_cmds(s: BoardState, x: int, y: int) -> Seq<DrawCmd> {
    let p = Point { x: x as i16, y: y as i16 };
    let item = if s.has_item_at(p) {
        seq![
            DrawCmd {
                row: (3 + y) as i32,
                col: x as i32,
                ch: s.item_at(p).glyph(),
                pair: ((s.item_at(p).color() as i16) + 1) as i16,
            },
        ]
    } else {
        Seq::empty()
    };
    let robot = if p == s.robot {
        seq![DrawCmd { row: (3 + y) as i32, col: x as i32, ch: 0x23u8, pair: ROBOT_PAIR }]
    } else {
        Seq::empty()
    };
    item + robot
}

/// What is drawn for the first `n` cells of row `y`, left to right.
pub open spec fn row_cmds(s: BoardState, y: int, n: int) -> Seq<DrawCmd>
    decreases n,
{
    if n <= 0 {
        Seq::empty()
    } else {
        row_cmds(s, y, n - 1) + cell_cmds(s, n - 1, y)
    }
}

/// What is drawn for `w` columns of the first `h` rows of the board, top
/// to bottom.
pub open spec fn board_cmds(s: BoardState, w: int, h: int) -> Seq<DrawCmd>
    decreases h,
{
    if h <= 0 {
        Seq::empty()
    } else {
        board_cmds(s, w, h - 1) + row_cmds(s, h - 1, w)
    }
}

proof fn lemma_row_has_cell(s: BoardState, y: int, n: int, x: int)
    requires
        0 <= x < n,
    ensures
        forall|c: DrawCmd| cell_cmds(s, x, y).contains(c) ==> #[trigger] row_cmds(s, y, n).contains(c),
    decreases n,
{
    let prev = row_cmds(s, y, n - 1);
    let cur = cell_cmds(s, n - 1, y);
    assert(row_cmds(s, y, n) == prev + cur);
    if x < n - 1 {
        lemma_row_has_cell(s, y, n - 1, x);
    }
    assert forall|c: DrawCmd| cell_cmds(s, x, y).contains(c) implies #[trigger] row_cmds(
        s,
        y,
        n,
    ).contains(c) by {
        if x < n - 1 {
            assert(prev.contains(c));
            let i = choose|i: int| 0 <= i < prev.len() && #[trigger] prev[i] == c;
            assert((prev + cur)[i] == c);
        } else {
            let i = choose|i: int| 0 <= i < cur.len() && #[trigger] cur[i] == c;
            assert((prev + cur)[prev.len() + i] == c);
        }
    }
}

proof fn lemma_board_has_cell(s: BoardState, w: int, h: int, x: int, y: int)
    requires
        0 <= x < w,
        0 <= y < h,
    ensures
        forall|c: DrawCmd| cell_cmds(s, x, y).contains(c) ==> #[trigger] board_cmds(s, w, h).contains(c),
    decreases h,
{
    let prev = board_cmds(s, w, h - 1);
    let cur = row_cmds(s, h - 1, w);
    assert(board_cmds(s, w, h) == prev + cur);
    if y < h - 1 {
        lemma_board_has_cell(s, w, h - 1, x, y);
    } else {
        lemma_row_has_cell(s, y, w, x);
    }
    assert forall|c: DrawCmd| cell_cmds(s, x, y).contains(c) implies #[trigger] board_cmds(
        s,
        w,
        h,
    ).contains(c) by {
        if y < h - 1 {
            assert(prev.contains(c));
            let i = choose|i: int| 0 <= i < prev.len() && #[trigger] prev[i] == c;
            assert((prev + cur)[i] == c);
        } else {
            assert(cur.contains(c));
            let i = choose|i: int| 0 <= i < cur.len() && #[trigger] cur[i] == c;
            assert((prev + cur)[prev.len() + i] == c);
        }
    }
}

/// Every item within the drawn area is drawn three rows below the header,
/// with its own glyph, in the colour pair after its own colour, whether or not
/// it is kitten; robot, when within the area, is drawn as `#` in the robot's
/// colour pair.
pub proof fn lemma_draw_list_shows_items(s: BoardState, w: int, h: int, p: Point)
    requires
        0 <= p.x < w,
        0 <= p.y < h,
    ensures
        s.has_item_at(p) ==> board_cmds(s, w, h).contains(
            DrawCmd {
                row: (3 + p.y) as i32,
                col: p.x as i32,
                ch: s.items[s.key(p)].glyph(),
                pair: ((s.items[s.key(p)].color() as i16) + 1) as i16,
            },
        ),
        p == s.robot ==> board_cmds(s, w, h).contains(
            DrawCmd { row: (3 + p.y) as i32, col: p.x as i32, ch: 0x23u8, pair: ROBOT_PAIR },
        ),
{
    lemma_board_has_cell(s, w, h, p.x as int, p.y as int);
    let cs = cell_cmds(s, p.x as int, p.y as int);
    assert(Point { x: p.x as int as i16, y: p.y as int as i16 } == p);
    if s.has_item_at(p) {
        assert(cs[0] == DrawCmd {
            row: (3 + p.y) as i32,
            col: p.x as i32,
            ch: s.items[s.key(p)].glyph(),
            pair: ((s.items[s.key(p)].color() as i16) + 1) as i16,
        });
        assert(cs.contains(cs[0]));
    }
    if p == s.robot {
        let i = cs.len() - 1;
        assert(cs[i] == DrawCmd { row: (3 + p.y) as i32, col: p.x as i32, ch: 0x23u8, pair: ROBOT_PAIR });
        assert(cs.contains(cs[i]));
    }
}

impl Board {
    /// Shows frame `i` of the finale (see `finale_frame`) as the message of
    /// the board, on a screen `max_x` columns wide, for kitten drawn with
    /// `item_ch`; returns how many seconds the frame stays on screen.
    pub fn show_finale_frame(&mut self, max_x: i16, item_ch: u8, i: usize) -> (pause: u64)
        requires
            i < 5,
        ensures
            final(self)@ == (BoardState {
                message: finale_frame(max_x, item_ch as char, i as int),
                ..old(self)@
            }),
            pause == finale_pause(i as int),
    {
        self.message = finale_frame_text(max_x, item_ch as char, i);
        if i < 4 {
            1
        } else {
            3
        }
    }

    /// The message contains the heart, so it is drawn highlighted.
    pub fn message_has_heart(&self) -> (r: bool)
        ensures
            r == self@.message.contains(HEART_CH),
    {
        let m = self.message.as_str();
        let n = m.unicode_len();
        let mut i: usize = 0;
        while i < n
            invariant
                n == m@.len(),
                m@ == self@.message,
                i <= n,
                forall|j: int| 0 <= j < i ==> m@[j] != HEART_CH,
            decreases n - i,
        {
            if m.get_char(i) == HEART_CH {
                return true;
            }
            i = i + 1;
        }
        false
    }

    /// What to draw for the board on a screen of `max_x` columns and `max_y`
    /// rows: the cells of the first `max_x - 1` columns and `max_y - 3` rows,
    /// in the order of `board_cmds`.
    pub fn draw_list(&self, max_x: i16, max_y: i16) -> (cmds: Vec<DrawCmd>)
        requires
            colors_drawable(self@),
            max_x > i16::MIN,
            max_y >= i16::MIN + 3,
        ensures
            cmds@ == board_cmds(self@, max_x - 1, max_y - 3),
    {
        let w = max_x - 1;
        let h = max_y - 3;
        let mut cmds: Vec<DrawCmd> = Vec::new();
        let mut y: i16 = 0;
        while y < h
            invariant
                colors_drawable(self@),
                w == max_x - 1,
                h == max_y - 3,
                0 <= y,
                y <= h || y == 0,
                cmds@ == board_cmds(self@, w as int, y as int),
            decreases h - y,
        {
            let mut x: i16 = 0;
            while x < w
                invariant
                    colors_drawable(self@),
                    0 <= y < h,
                    0 <= x,
                    x <= w || x == 0,
                    cmds@ == board_cmds(self@, w as int, y as int) + row_cmds(
                        self@,
                        y as int,
                        x as int,
                    ),
                decreases w - x,
            {
                let p = Point { x, y };
                let ghost before = cmds@;
                let row = 3 + (y as i32);
                let col = x as i32;
                if !self.is_out_of_bounds(p) {
                    let k = self.key_of(p);
                    match self.board_locations.get(&k) {
                        Some(item) => {
                            let (ch, color) = match item {
                                GItem::Kitten(ch, color) => (*ch, *color),
                                GItem::NonKittenItem(_, ch, color) => (*ch, *color),
                            };
                            assert(color as i16 != 0x7fff) by (bit_vector)
                                requires
                                    color != 0x7fff,
                            ;
                            cmds.push(DrawCmd { row, col, ch, pair: (color as i16) + 1 });
                        },
                        None => {},
                    }
                }
                if p == self.robot_location {
                    cmds.push(DrawCmd { row, col, ch: 0x23u8, pair: ROBOT_PAIR });
                }
                assert(cmds@ =~= before + cell_cmds(self@, x as int, y as int));
                x = x + 1;
            }
            assert(row_cmds(self@, y as int, x as int) =~= row_cmds(self@, y as int, w as int));
            y = y + 1;
        }
        assert(board_cmds(self@, w as int, y as int) =~= board_cmds(self@, w as int, h as int));
        cmds
    }
}

} // verus!
