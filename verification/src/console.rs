//! The screen as a Windows console buffer: `max_x * max_y` cells, row after
//! row, each a character code and a colour attribute.
use vstd::prelude::*;

use crate::board::{Board, BoardState};
use crate::common::{GItem, Point, HEART_CH, VERSION_STRING};

verus! {

broadcast use vstd::std_specs::hash::group_hash_axioms;

/// White on black.
pub const WHITE: u16 = 0x0f;

/// Red on black.
pub const RED: u16 = 4;

/// The 16-bit code a console cell holds for `c`.
pub open spec fn char_code(c: char) -> u16 {
    (c as u32) as u16
}

fn code_of(c: char) -> (r: u16)
    ensures
        r == char_code(c),
{
    (c as u32) as u16
}

/// The colour of a message character: the heart is red; once the game is
/// won, every character but spaces and robot's `#` takes kitten's colour;
/// the rest is white.
pub open spec fn message_attr(c: char, game_over: bool, kitten_color: u16) -> u16 {
    if c == HEART_CH {
        RED
    } else if game_over && !(c == ' ' || c == '#') {
        kitten_color
    } else {
        WHITE
    }
}

/// The first `m` characters of the title, from cell 0 on; blank elsewhere.
pub open spec fn title_layer(i: int, m: int) -> (u16, u16) {
    if 0 <= i < m {
        (char_code(VERSION_STRING@[i]), WHITE)
    } else {
        (0, 0)
    }
}

/// The first `m` characters of the message, from the second row on, over
/// the title.
pub open spec fn message_layer(s: BoardState, w: int, i: int, m: int) -> (u16, u16) {
    if w <= i < w + m {
        let c = s.message[i - w];
        (char_code(c), message_attr(c, s.game_over, s.kitten_color))
    } else {
        title_layer(i, VERSION_STRING@.len() as int)
    }
}

/// The first `m` dashes of the rule on the third row, over the message.
pub open spec fn rule_layer(s: BoardState, w: int, i: int, m: int) -> (u16, u16) {
    if 2 * w <= i < 2 * w + m {
        (0x2d, WHITE)
    } else {
        message_layer(s, w, i, s.message.len() as int)
    }
}

/// The board cell that console cell `i` shows: board rows start at the
/// fourth screen row.
pub open spec fn screen_point(w: int, i: int) -> Point {
    Point { x: (i % w) as i16, y: (i / w - 3) as i16 }
}

/// What stands on board cell `p`, as a console cell: robot is a white `#`.
pub open spec fn board_glyph(s: BoardState, p: Point) -> (u16, u16) {
    if p == s.robot {
        (0x23, WHITE)
    } else {
        (s.item_at(p).glyph() as u16, s.item_at(p).color())
    }
}

/// Console cell `i` shows robot or an item: it lies in the first `w - 1`
/// columns and `h - 1` board rows, and robot or an item stands there.
pub open spec fn shows_board(s: BoardState, w: int, h: int, i: int) -> bool {
    &&& w > 0
    &&& 3 * w <= i
    &&& i % w < w - 1
    &&& i / w - 3 < h - 1
    &&& s.is_occupied(screen_point(w, i))
}

/// Board cell `p` comes before row `y`, column `x` in row-major order.
pub open spec fn before(p: Point, y: int, x: int) -> bool {
    p.y < y || (p.y == y && p.x < x)
}

/// The board drawn up to row `y`, column `x`, over the rule.
pub open spec fn board_layer(s: BoardState, w: int, h: int, i: int, y: int, x: int) -> (u16, u16) {
    if shows_board(s, w, h, i) && before(screen_point(w, i), y, x) {
        board_glyph(s, screen_point(w, i))
    } else {
        rule_layer(s, w, i, w - 1)
    }
}

/// Console cell `i` of the whole screen: title, message, rule and board,
/// each drawn over the ones before.
pub open spec fn console_cell(s: BoardState, w: int, h: int, i: int) -> (u16, u16) {
    board_layer(s, w, h, i, h - 1, 0)
}

/// The whole screen fits the `w * h` cells of the buffer, which the code
/// needs: the cell count fits an `i16`; the title fits; a message starts on
/// the second row and fits; the rule fits; so does every board cell drawn.
pub open spec fn console_fits(s: BoardState, w: int, h: int) -> bool {
    &&& i16::MIN <= w * h <= i16::MAX
    &&& VERSION_STRING@.len() <= w * h
    &&& s.message.len() > 0 ==> 0 <= w && w + s.message.len() <= w * h
    &&& w >= 2 ==> 3 * w - 2 < w * h
    &&& forall|p: Point|
        0 <= p.x < w - 1 && 0 <= p.y < h - 1 && #[trigger] s.is_occupied(p) ==> (3 + p.y) * w
            + p.x < w * h
}

proof fn lemma_sizes_fit(w: int, h: int)
    requires
        i16::MIN <= w <= i16::MAX,
        i16::MIN <= h <= i16::MAX,
        21 <= w * h <= i16::MAX,
    ensures
        w > i16::MIN,
        h > i16::MIN,
{
    if w == i16::MIN {
        if h >= 0 {
            assert(w * h <= 0) by (nonlinear_arith)
                requires
                    w < 0,
                    h >= 0,
            ;
        } else {
            assert(w * h >= 32768) by (nonlinear_arith)
                requires
                    w == -32768,
                    h <= -1,
            ;
        }
    }
    if h == i16::MIN {
        if w >= 0 {
            assert(w * h <= 0) by (nonlinear_arith)
                requires
                    h < 0,
                    w >= 0,
            ;
        } else {
            assert(w * h >= 32768) by (nonlinear_arith)
                requires
                    h == -32768,
                    w <= -1,
            ;
        }
    }
}

proof fn lemma_cell_of_point(w: int, p: Point)
    requires
        w > 0,
        0 <= p.x < w,
        0 <= p.y,
    ensures
        screen_point(w, (3 + p.y) * w + p.x) == p,
        (3 + p.y) * w + p.x >= 3 * w,
        ((3 + p.y) * w + p.x) % w == p.x,
        ((3 + p.y) * w + p.x) / w - 3 == p.y,
{
    let i = (3 + p.y) * w + p.x;
    vstd::arithmetic::div_mod::lemma_fundamental_div_mod_converse(i, w, 3 + p.y, p.x as int);
    assert((3 + p.y) * w >= 3 * w) by (nonlinear_arith)
        requires
            0 <= p.y,
            w > 0,
    ;
}

proof fn lemma_point_of_cell(w: int, i: int)
    requires
        w > 0,
        3 * w <= i,
    ensures
        i == (3 + (i / w - 3)) * w + i % w,
        0 <= i % w < w,
        i / w >= 3,
{
    vstd::arithmetic::div_mod::lemma_fundamental_div_mod(i, w);
    vstd::arithmetic::div_mod::lemma_mod_bound(i, w);
    assert(w * (i / w) == (i / w) * w) by (nonlinear_arith);
    if i / w < 3 {
        assert((i / w) * w <= 2 * w) by (nonlinear_arith)
            requires
                i / w < 3,
                w > 0,
        ;
    }
}

/// Where the board lands in the console buffer: board cell `p` within the
/// first `w - 1` columns and `h - 1` board rows is shown at cell
/// `(3 + p.y) * w + p.x`. An item there (robot not on it) is shown with its
/// own glyph and its own colour, whether or not it is kitten; robot is shown
/// as a white `#`.
pub proof fn lemma_console_shows_board_cell(s: BoardState, w: int, h: int, p: Point)
    requires
        0 <= p.x < w - 1,
        0 <= p.y < h - 1,
    ensures
        p == s.robot ==> console_cell(s, w, h, (3 + p.y) * w + p.x) == (0x23u16, WHITE),
        p != s.robot && s.has_item_at(p) ==> console_cell(s, w, h, (3 + p.y) * w + p.x) == (
            s.items[s.key(p)].glyph() as u16,
            s.items[s.key(p)].color(),
        ),
{
    lemma_cell_of_point(w, p);
}

impl Board {
    /// The screen as a console buffer of `max_x` columns and `max_y` rows
    /// (see `console_cell`).
    pub fn console_buffer(&self, max_x: i16, max_y: i16) -> (buf: Vec<(u16, u16)>)
        requires
            console_fits(self@, max_x as int, max_y as int),
        ensures
            buf.len() == max_x * max_y,
            forall|i: int|
                0 <= i < buf.len() ==> #[trigger] buf@[i] == console_cell(
                    self@,
                    max_x as int,
                    max_y as int,
                    i,
                ),
    {
        let ghost s = self@;
        let ghost w = max_x as int;
        let ghost h = max_y as int;
        proof {
            reveal_strlit("robotfindskitten v0.9");
            lemma_sizes_fit(w, h);
        }
        let n: i16 = max_x * max_y;
        let mut buf: Vec<(u16, u16)> = Vec::new();
        let mut k: i16 = 0;
        while k < n
            invariant
                0 <= k <= n,
                buf.len() == k,
                forall|j: int| 0 <= j < k ==> #[trigger] buf@[j] == (0u16, 0u16),
            decreases n - k,
        {
            buf.push((0, 0));
            k = k + 1;
        }
        let nu = n as usize;
        // The title.
        let title = VERSION_STRING;
        let tl = title.unicode_len();
        let mut i: usize = 0;
        while i < tl
            invariant
                nu == n == w * h,
                tl == VERSION_STRING@.len() <= n,
                title@ == VERSION_STRING@,
                i <= tl,
                buf.len() == nu,
                forall|j: int| 0 <= j < nu ==> #[trigger] buf@[j] == title_layer(j, i as int),
            decreases tl - i,
        {
            let c = code_of(title.get_char(i));
            buf.set(i, (c, WHITE));
            i = i + 1;
        }
        // The message, from the second row on.
        let msg = self.message.as_str();
        let ml = msg.unicode_len();
        let mut i: usize = 0;
        while i < ml
            invariant
                s == self@,
                nu == n == w * h,
                w == max_x,
                msg@ == s.message,
                ml == s.message.len(),
                console_fits(s, w, h),
                i <= ml,
                buf.len() == nu,
                forall|j: int| 0 <= j < nu ==> #[trigger] buf@[j] == message_layer(s, w, j, i as int),
            decreases ml - i,
        {
            let ch = msg.get_char(i);
            let attr = if ch == HEART_CH {
                RED
            } else if self.game_over && !(ch == ' ' || ch == '#') {
                self.kitten_color
            } else {
                WHITE
            };
            buf.set((max_x as usize) + i, (code_of(ch), attr));
            i = i + 1;
        }
        // The rule on the third row.
        let mut x: i16 = 0;
        while x < max_x - 1
            invariant
                s == self@,
                nu == n == w * h,
                w == max_x,
                console_fits(s, w, h),
                max_x > i16::MIN,
                0 <= x,
                x <= w - 1 || x == 0,
                buf.len() == nu,
                forall|j: int| 0 <= j < nu ==> #[trigger] buf@[j] == rule_layer(s, w, j, x as int),
            decreases max_x - 1 - x,
        {
            let y: i16 = 2;
            buf.set((y * max_x + x) as usize, (0x2d, WHITE));
            x = x + 1;
        }
        assert forall|j: int| 0 <= j < nu implies #[trigger] buf@[j] == rule_layer(
            s,
            w,
            j,
            w - 1,
        ) by {
            if w - 1 > 0 {
                assert(x == w - 1);
            }
        }
        // The board, from the fourth row on.
        assert forall|j: int| 0 <= j < nu implies #[trigger] buf@[j] == board_layer(
            s,
            w,
            h,
            j,
            0,
            0,
        ) by {
            if shows_board(s, w, h, j) {
                lemma_point_of_cell(w, j);
            }
        }
        let mut y: i16 = 0;
        while y < max_y - 1
            invariant
                s == self@,
                nu == n == w * h,
                w == max_x,
                h == max_y,
                console_fits(s, w, h),
                max_x > i16::MIN,
                max_y > i16::MIN,
                0 <= y,
                y <= h - 1 || y == 0,
                buf.len() == nu,
                forall|j: int|
                    0 <= j < nu ==> #[trigger] buf@[j] == board_layer(s, w, h, j, y as int, 0),
            decreases max_y - 1 - y,
        {
            let mut x: i16 = 0;
            while x < max_x - 1
                invariant
                    s == self@,
                    nu == n == w * h,
                    w == max_x,
                    h == max_y,
                    console_fits(s, w, h),
                    max_x > i16::MIN,
                    0 <= y < h - 1,
                    0 <= x,
                    x <= w - 1 || x == 0,
                    buf.len() == nu,
                    forall|j: int|
                        0 <= j < nu ==> #[trigger] buf@[j] == board_layer(
                            s,
                            w,
                            h,
                            j,
                            y as int,
                            x as int,
                        ),
                decreases max_x - 1 - x,
            {
                let p = Point { x, y };
                let ghost old_buf = buf@;
                let occupied = self.is_occupied(p);
                if occupied {
                    proof {
                        assert(s.is_occupied(p));
                        lemma_cell_of_point(w, p);
                    }
                    let idx = ((3 + y) * max_x + x) as usize;
                    if !self.is_out_of_bounds(p) {
                        let k = self.key_of(p);
                        match self.board_locations.get(&k) {
                            Some(GItem::Kitten(ch, color)) => {
                                buf.set(idx, (*ch as u16, *color));
                            },
                            Some(GItem::NonKittenItem(_, ch, color)) => {
                                buf.set(idx, (*ch as u16, *color));
                            },
                            None => {},
                        }
                    }
                    if p == self.robot_location {
                        buf.set(idx, (0x23, WHITE));
                    }
                    assert forall|j: int| 0 <= j < nu implies #[trigger] buf@[j] == board_layer(
                        s,
                        w,
                        h,
                        j,
                        y as int,
                        x + 1,
                    ) by {
                        if j != idx && shows_board(s, w, h, j) {
                            lemma_point_of_cell(w, j);
                            assert(screen_point(w, j) != p);
                        }
                    }
                } else {
                    assert forall|j: int| 0 <= j < nu implies #[trigger] buf@[j] == board_layer(
                        s,
                        w,
                        h,
                        j,
                        y as int,
                        x + 1,
                    ) by {
                        if shows_board(s, w, h, j) && screen_point(w, j) == p {
                            assert(s.is_occupied(p));
                        }
                    }
                }
                x = x + 1;
            }
            assert forall|j: int| 0 <= j < nu implies #[trigger] buf@[j] == board_layer(
                s,
                w,
                h,
                j,
                y + 1,
                0,
            ) by {
                if shows_board(s, w, h, j) {
                    assert(w - 1 > 0);
                    assert(x == w - 1);
                }
            }
            y = y + 1;
        }
        assert forall|j: int| 0 <= j < nu implies #[trigger] buf@[j] == console_cell(
            s,
            w,
            h,
            j,
        ) by {
            if shows_board(s, w, h, j) {
                lemma_point_of_cell(w, j);
                assert(h - 1 > 0);
                assert(y == h - 1);
            }
        }
        buf
    }
}

/// `n` blank cells (none when `n <= 0`).
pub open spec fn blank_cells(n: int) -> Seq<(u16, u16)> {
    Seq::new(if n > 0 { n as nat } else { 0 }, |i: int| (0u16, 0u16))
}

/// The console buffer of `n` cells, the line and column reached, and whether
/// every character so far landed inside the buffer, after the first `k`
/// characters of `t` are written out line by line, `w` cells to a row, in
/// white. A line ends at `\n`; a `\r` just before `\n` is dropped.
pub open spec fn text_state(t: Seq<char>, w: int, n: int, k: nat) -> (
    Seq<(u16, u16)>,
    int,
    int,
    bool,
)
    decreases k,
{
    if k == 0 {
        (blank_cells(n), 0, 0, true)
    } else {
        let (buf, line, col, fits) = text_state(t, w, n, (k - 1) as nat);
        let c = t[k - 1];
        if c == '\n' {
            (buf, line + 1, 0, fits)
        } else if c == '\r' && k < t.len() && t[k as int] == '\n' {
            (buf, line, col, fits)
        } else {
            let idx = w * line + col;
            let ok = (line == 0 || w > 0) && 0 <= idx < n;
            (
                if ok {
                    buf.update(idx, (char_code(c), WHITE))
                } else {
                    buf
                },
                line,
                col + 1,
                fits && ok,
            )
        }
    }
}

/// The text fits a screen of `w` columns and `h` rows.
pub open spec fn text_fits(t: Seq<char>, w: int, h: int) -> bool {
    &&& i16::MIN <= w * h <= i16::MAX
    &&& text_state(t, w, w * h, t.len()).3
}

/// The screen showing the text (see `text_state`).
pub open spec fn text_screen(t: Seq<char>, w: int, h: int) -> Seq<(u16, u16)> {
    text_state(t, w, w * h, t.len()).0
}

proof fn lemma_text_state_facts(t: Seq<char>, w: int, n: int, k: nat)
    requires
        k <= t.len(),
    ensures
        text_state(t, w, n, k).0.len() == blank_cells(n).len(),
        0 <= text_state(t, w, n, k).1 <= k,
        0 <= text_state(t, w, n, k).2 <= k,
        text_state(t, w, n, k).3 ==> forall|j: nat| j <= k ==> #[trigger] text_state(
            t,
            w,
            n,
            j,
        ).3,
    decreases k,
{
    if k > 0 {
        lemma_text_state_facts(t, w, n, (k - 1) as nat);
    }
}

/// A text as a console buffer of `max_x` columns and `max_y` rows (see
/// `text_state`).
pub fn text_buffer(text: &str, max_x: i16, max_y: i16) -> (buf: Vec<(u16, u16)>)
    requires
        text_fits(text@, max_x as int, max_y as int),
    ensures
        buf@ == text_screen(text@, max_x as int, max_y as int),
{
    let ghost t = text@;
    let ghost w = max_x as int;
    let ghost nn = w * max_y;
    let n: i16 = max_x * max_y;
    let mut buf: Vec<(u16, u16)> = Vec::new();
    let mut k: i16 = 0;
    while k < n
        invariant
            0 <= k,
            k <= n || k == 0,
            buf@ == blank_cells(k as int),
        decreases n - k,
    {
        buf.push((0, 0));
        assert(blank_cells(k + 1) =~= blank_cells(k as int).push((0u16, 0u16)));
        k = k + 1;
    }
    assert(buf@ =~= blank_cells(n as int));
    let len = text.unicode_len();
    proof {
        lemma_text_state_facts(t, w, nn, len as nat);
    }
    let mut line: usize = 0;
    let mut col: usize = 0;
    let mut i: usize = 0;
    while i < len
        invariant
            len == t.len(),
            t == text@,
            w == max_x,
            nn == n == max_x * max_y,
            text_state(t, w, nn, len as nat).3,
            forall|j: nat| j <= len ==> #[trigger] text_state(t, w, nn, j).3,
            i <= len,
            buf@ == text_state(t, w, nn, i as nat).0,
            line == text_state(t, w, nn, i as nat).1,
            col == text_state(t, w, nn, i as nat).2,
        decreases len - i,
    {
        proof {
            lemma_text_state_facts(t, w, nn, (i + 1) as nat);
            lemma_text_state_facts(t, w, nn, i as nat);
            assert(text_state(t, w, nn, (i + 1) as nat).3);
        }
        let c = text.get_char(i);
        if c == '\n' {
            line = line + 1;
            col = 0;
        } else if c == '\r' && i + 1 < len && text.get_char(i + 1) == '\n' {
        } else {
            let idx = if line == 0 {
                col
            } else {
                (max_x as usize) * line + col
            };
            buf.set(idx, (code_of(c), WHITE));
            col = col + 1;
        }
        i = i + 1;
    }
    buf
}

/// The number of line feeds in `s`.
pub open spec fn newline_count(s: Seq<char>) -> nat
    decreases s.len(),
{
    if s.len() == 0 {
        0
    } else {
        newline_count(s.drop_last()) + if s.last() == '\n' {
            1nat
        } else {
            0nat
        }
    }
}

/// Where the line holding position `k` of `t` starts: just after the last
/// line feed before `k`, or at 0.
pub open spec fn line_start(t: Seq<char>, k: int) -> int
    decreases k,
{
    if k <= 0 {
        0
    } else if t[k - 1] == '\n' {
        k
    } else {
        line_start(t, k - 1)
    }
}

/// The character at position `k` of `t` is shown: it is neither a line feed
/// nor a carriage return just before one.
pub open spec fn shown_char(t: Seq<char>, k: int) -> bool {
    &&& 0 <= k < t.len()
    &&& t[k] != '\n'
    &&& !(t[k] == '\r' && k + 1 < t.len() && t[k + 1] == '\n')
}

proof fn lemma_newline_count_step(t: Seq<char>, k: int)
    requires
        0 <= k < t.len(),
    ensures
        newline_count(t.take(k + 1)) == newline_count(t.take(k)) + if t[k] == '\n' {
            1nat
        } else {
            0nat
        },
{
    assert(t.take(k + 1).drop_last() =~= t.take(k));
}

/// After the first `k` characters the writer stands on line
/// `newline_count(t.take(k))`, at the column that counts the characters
/// since the line started (a carriage return held back before a line feed
/// not counted).
proof fn lemma_text_line_col(t: Seq<char>, w: int, n: int, k: nat)
    requires
        k <= t.len(),
    ensures
        text_state(t, w, n, k).1 == newline_count(t.take(k as int)),
        text_state(t, w, n, k).2 == k - line_start(t, k as int) - if k > 0 && t[k - 1] == '\r'
            && k < t.len() && t[k as int] == '\n' {
            1int
        } else {
            0int
        },
    decreases k,
{
    if k == 0 {
        assert(t.take(0) =~= Seq::<char>::empty());
    } else {
        lemma_text_line_col(t, w, n, (k - 1) as nat);
        lemma_newline_count_step(t, k - 1);
    }
}

proof fn lemma_line_start_bounds(t: Seq<char>, k: int)
    requires
        0 <= k,
    ensures
        0 <= line_start(t, k) <= k,
    decreases k,
{
    if k > 0 {
        lemma_line_start_bounds(t, k - 1);
    }
}

proof fn lemma_lines_between(t: Seq<char>, k: int, m: int)
    requires
        0 <= k <= m <= t.len(),
    ensures
        newline_count(t.take(k)) <= newline_count(t.take(m)),
        newline_count(t.take(k)) == newline_count(t.take(m)) ==> line_start(t, m) == line_start(
            t,
            k,
        ),
    decreases m - k,
{
    if k < m {
        lemma_lines_between(t, k, m - 1);
        lemma_newline_count_step(t, m - 1);
    }
}

/// Each shown character of a text that fits lands on its own line's row:
/// the character at column `x` of line `n` (lines split at line feeds, empty
/// lines counted) is at cell `n * w + x` of the buffer, provided no line is
/// as long as the screen is wide, so that no later character covers it.
pub proof fn lemma_text_char_on_its_row(t: Seq<char>, w: int, h: int, k: int)
    requires
        text_fits(t, w, h),
        w > 0,
        forall|j: int| shown_char(t, j) ==> #[trigger] line_start(t, j) > j - w,
        shown_char(t, k),
    ensures
        0 <= newline_count(t.take(k)) * w + (k - line_start(t, k)) < text_screen(t, w, h).len(),
        text_screen(t, w, h)[newline_count(t.take(k)) * w + (k - line_start(t, k))] == (
            char_code(t[k]),
            WHITE,
        ),
{
    let n = w * h;
    let len = t.len();
    let line = newline_count(t.take(k));
    let col = k - line_start(t, k);
    let cell = line * w + col;
    let v = (char_code(t[k]), WHITE);
    lemma_text_state_facts(t, w, n, len);
    lemma_text_line_col(t, w, n, k as nat);
    lemma_text_line_col(t, w, n, (k + 1) as nat);
    assert(text_state(t, w, n, (k + 1) as nat).3);
    assert(w * line == line * w) by (nonlinear_arith);
    lemma_text_state_facts(t, w, n, (k + 1) as nat);
    lemma_text_state_facts(t, w, n, k as nat);
    lemma_line_start_bounds(t, k);
    assert(line_start(t, k) > k - w);
    let (buf, l0, c0, f0) = text_state(t, w, n, k as nat);
    assert(l0 == line && c0 == col);
    assert(text_state(t, w, n, (k + 1) as nat) == (buf.update(w * l0 + c0, v), l0, c0 + 1, f0 && ((
    l0 == 0 || w > 0) && 0 <= w * l0 + c0 < n)));
    assert(text_state(t, w, n, (k + 1) as nat).0[cell] == v);
    lemma_cell_kept(t, w, h, k, len as int);
}

/// The cell written for the shown character at `k` keeps its value through
/// the first `m` characters.
proof fn lemma_cell_kept(t: Seq<char>, w: int, h: int, k: int, m: int)
    requires
        text_fits(t, w, h),
        w > 0,
        forall|j: int| shown_char(t, j) ==> #[trigger] line_start(t, j) > j - w,
        shown_char(t, k),
        k + 1 <= m <= t.len(),
        0 <= k - line_start(t, k) < w,
        text_state(t, w, w * h, (k + 1) as nat).0[newline_count(t.take(k)) * w + (k - line_start(
            t,
            k,
        ))] == (char_code(t[k]), WHITE),
        0 <= newline_count(t.take(k)) * w + (k - line_start(t, k)) < text_state(
            t,
            w,
            w * h,
            (k + 1) as nat,
        ).0.len(),
    ensures
        text_state(t, w, w * h, m as nat).0[newline_count(t.take(k)) * w + (k - line_start(
            t,
            k,
        ))] == (char_code(t[k]), WHITE),
        0 <= newline_count(t.take(k)) * w + (k - line_start(t, k)) < text_state(
            t,
            w,
            w * h,
            m as nat,
        ).0.len(),
    decreases m,
{
    let n = w * h;
    let line = newline_count(t.take(k));
    let col = k - line_start(t, k);
    let cell = line * w + col;
    if m > k + 1 {
        lemma_cell_kept(t, w, h, k, m - 1);
        let p = m - 1;
        lemma_text_state_facts(t, w, n, m as nat);
        lemma_text_state_facts(t, w, n, p as nat);
        if shown_char(t, p) {
            lemma_text_line_col(t, w, n, p as nat);
            lemma_lines_between(t, k, p);
            let lm = newline_count(t.take(p));
            let cm = p - line_start(t, p);
            assert(line_start(t, p) > p - w);
            assert(w * lm + cm != cell) by {
                if lm == line {
                    assert(line_start(t, p) == line_start(t, k));
                    assert(w * lm == line * w) by (nonlinear_arith)
                        requires
                            lm == line,
                    ;
                } else {
                    assert(w * lm >= w * (line + 1)) by (nonlinear_arith)
                        requires
                            lm >= line + 1,
                            w > 0,
                    ;
                    assert(w * (line + 1) == line * w + w) by (nonlinear_arith);
                }
            }
        }
    }
}

} // verus!
