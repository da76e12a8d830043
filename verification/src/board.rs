//! The board: where robot stands, what lies where, and how robot moves.
use std::collections::HashMap;

use vstd::prelude::*;

use crate::common::{GItem, Point, UsefulInput};

verus! {

broadcast use vstd::std_specs::hash::group_hash_axioms;

/// What the game does after a key press.
#[derive(Debug, Copy, Clone, PartialEq, Eq, Structural)]
pub enum StepAction {
    /// The game ends.
    Quit,
    /// The game goes on.
    Continue,
    /// Robot has just found kitten, drawn with this byte: show the finale.
    Celebrate(u8),
}

/// The abstract state of a board: everything but its random generator.
/// `items` maps the cell key of a position (see `cell_key`) to what lies there.
pub struct BoardState {
    pub size: Point,
    pub robot: Point,
    pub items: Map<u32, GItem>,
    pub message: Seq<char>,
    pub game_over: bool,
    pub kitten_color: u16,
}

/// The key under which the cell `p` of a board of `size` is stored: its
/// row-major index.
pub open spec fn cell_key(size: Point, p: Point) -> u32 {
    (p.y * size.x + p.x) as u32
}

/// The cell next to `p` in direction `d` (`p` itself for other keys).
pub open spec fn target(p: Point, d: UsefulInput) -> Point {
    match d {
        UsefulInput::Up => Point { x: p.x, y: (p.y - 1) as i16 },
        UsefulInput::Down => Point { x: p.x, y: (p.y + 1) as i16 },
        UsefulInput::Left => Point { x: (p.x - 1) as i16, y: p.y },
        UsefulInput::Right => Point { x: (p.x + 1) as i16, y: p.y },
        _ => p,
    }
}

/// Stepping from `p` in direction `d` stays within the range of `i16`.
pub open spec fn step_fits(p: Point, d: UsefulInput) -> bool {
    &&& d is Up ==> p.y > i16::MIN
    &&& d is Down ==> p.y < i16::MAX
    &&& d is Left ==> p.x > i16::MIN
    &&& d is Right ==> p.x < i16::MAX
}

/// A byte that an item may be drawn with: printable ASCII, not upper case.
pub open spec fn is_item_glyph(b: u8) -> bool {
    0x20 <= b <= 0x7e && !(0x41 <= b <= 0x5a)
}

/// What every item on a board satisfies: a drawable glyph, and one of the
/// fifteen colours that item placement picks from.
pub open spec fn item_ok(item: GItem) -> bool {
    is_item_glyph(item.glyph()) && item.color() < 15
}

impl BoardState {
    pub open spec fn in_bounds(self, p: Point) -> bool {
        0 <= p.x < self.size.x && 0 <= p.y < self.size.y
    }

    /// The number of cells of the board.
    pub open spec fn area(self) -> int {
        self.size.x * self.size.y
    }

    pub open spec fn key(self, p: Point) -> u32 {
        cell_key(self.size, p)
    }

    pub open spec fn has_item_at(self, p: Point) -> bool {
        self.in_bounds(p) && self.items.contains_key(self.key(p))
    }

    pub open spec fn item_at(self, p: Point) -> GItem {
        self.items[self.key(p)]
    }

    /// Robot or an item stands at `p`.
    pub open spec fn is_occupied(self, p: Point) -> bool {
        p == self.robot || self.has_item_at(p)
    }

    /// The board has a positive size, robot stands on it on a free cell, and
    /// every item lies on a cell of the board and is drawable.
    pub open spec fn layout_ok(self) -> bool {
        &&& 0 < self.size.x
        &&& 0 < self.size.y
        &&& self.in_bounds(self.robot)
        &&& forall|k: u32| #[trigger] self.items.contains_key(k) ==> k < self.area()
        &&& !self.items.contains_key(self.key(self.robot))
        &&& forall|k: u32| #[trigger] self.items.contains_key(k) ==> item_ok(self.items[k])
    }

    /// Exactly one item is kitten, and its colour is `kitten_color`.
    pub open spec fn has_one_kitten(self) -> bool {
        &&& exists|k: u32| #[trigger] self.items.contains_key(k) && self.items[k].is_kitten()
        &&& forall|k1: u32, k2: u32|
            #![trigger self.items[k1], self.items[k2]]
            self.items.contains_key(k1) && self.items[k1].is_kitten() && self.items.contains_key(
                k2,
            ) && self.items[k2].is_kitten() ==> k1 == k2
        &&& forall|k: u32|
            #[trigger] self.items.contains_key(k) && self.items[k].is_kitten()
                ==> self.items[k].color() == self.kitten_color
    }

    /// A board as the game keeps it.
    pub open spec fn wf(self) -> bool {
        self.layout_ok() && self.has_one_kitten()
    }

    /// Robot stands next to kitten.
    pub open spec fn beside_kitten(self) -> bool {
        exists|d: UsefulInput|
            d.is_direction() && #[trigger] self.has_item_at(target(self.robot, d)) && self.item_at(
                target(self.robot, d),
            ).is_kitten()
    }

    /// The board after robot tries to step in direction `d`: off the board
    /// nothing changes; onto kitten the game is won; onto another item robot
    /// stays and reads its description; onto a free cell robot steps there.
    pub open spec fn moved(self, d: UsefulInput) -> BoardState {
        let t = target(self.robot, d);
        if !self.in_bounds(t) {
            self
        } else if self.items.contains_key(self.key(t)) {
            match self.items[self.key(t)] {
                GItem::Kitten(_, _) => BoardState {
                    message: "Game won"@,
                    game_over: true,
                    ..self
                },
                GItem::NonKittenItem(s, _, _) => BoardState { message: s@, ..self },
            }
        } else {
            BoardState { robot: t, ..self }
        }
    }

    /// The byte kitten is drawn with, when the step in direction `d` reaches
    /// kitten.
    pub open spec fn kitten_found(self, d: UsefulInput) -> Option<u8> {
        let t = target(self.robot, d);
        if self.has_item_at(t) && self.item_at(t).is_kitten() {
            Some(self.item_at(t).glyph())
        } else {
            None
        }
    }

    /// The board and the action after the key `inp`: once the game is over
    /// every key ends it; Escape ends it; other keys are ignored; arrow keys
    /// move robot, and finding kitten asks for the finale.
    pub open spec fn after_input(self, inp: UsefulInput) -> (BoardState, StepAction) {
        if self.game_over {
            (self, StepAction::Quit)
        } else if inp is Escape {
            (self, StepAction::Quit)
        } else if inp is Other {
            (self, StepAction::Continue)
        } else {
            (
                self.moved(inp),
                match self.kitten_found(inp) {
                    Some(ch) => StepAction::Celebrate(ch),
                    None => StepAction::Continue,
                },
            )
        }
    }

    /// The board after a run of key presses, up to the one that ends the game.
    pub open spec fn play(self, inputs: Seq<UsefulInput>) -> BoardState
        decreases inputs.len(),
    {
        if inputs.len() == 0 {
            self
        } else {
            let (next, action) = self.after_input(inputs[0]);
            if action is Quit {
                next
            } else {
                next.play(inputs.drop_first())
            }
        }
    }
}

/// The keys of the cells of a board lie in `0..area`, and fit in a `u32`.
pub proof fn lemma_key_in_range(size: Point, p: Point)
    requires
        0 <= p.x < size.x,
        0 <= p.y < size.y,
    ensures
        0 <= p.y * size.x + p.x < size.x * size.y,
        size.x * size.y <= 32767 * 32767,
        cell_key(size, p) == p.y * size.x + p.x,
{
    let x = p.x as int;
    let y = p.y as int;
    let w = size.x as int;
    let h = size.y as int;
    assert(0 <= y * w + x < w * h && w * h <= 32767 * 32767) by (nonlinear_arith)
        requires
            0 <= x < w,
            0 <= y < h,
            w <= 32767,
            h <= 32767,
    ;
}

/// Two cells of a board with the same key are the same cell.
pub proof fn lemma_key_injective(size: Point, p: Point, q: Point)
    requires
        0 <= p.x < size.x,
        0 <= p.y < size.y,
        0 <= q.x < size.x,
        0 <= q.y < size.y,
        cell_key(size, p) == cell_key(size, q),
    ensures
        p == q,
{
    lemma_key_in_range(size, p);
    lemma_key_in_range(size, q);
    let w = size.x as int;
    let (x1, y1, x2, y2) = (p.x as int, p.y as int, q.x as int, q.y as int);
    assert(y1 == y2 && x1 == x2) by (nonlinear_arith)
        requires
            0 <= x1 < w,
            0 <= x2 < w,
            y1 * w + x1 == y2 * w + x2,
    {
        if y1 < y2 {
            assert(y1 * w + w <= y2 * w);
        } else if y2 < y1 {
            assert(y2 * w + w <= y1 * w);
        }
    }
}

/// The game board. `board_locations` maps the key of each cell (see
/// `cell_key`) to what lies there.
pub struct Board {
    pub board_size: Point,
    pub robot_location: Point,
    pub board_locations: HashMap<u32, GItem>,
    pub rng: rand::ThreadRng,
    pub message: String,
    pub game_over: bool,
    pub kitten_color: u16,
}

impl View for Board {
    type V = BoardState;

    open spec fn view(&self) -> BoardState {
        BoardState {
            size: self.board_size,
            robot: self.robot_location,
            items: self.board_locations@,
            message: self.message@,
            game_over: self.game_over,
            kitten_color: self.kitten_color,
        }
    }
}

impl Board {
    pub open spec fn wf(&self) -> bool {
        self@.wf()
    }

    /// `p` lies off the board.
    pub fn is_out_of_bounds(&self, p: Point) -> (r: bool)
        ensures
            r == !self@.in_bounds(p),
    {
        p.x < 0 || p.y < 0 || p.x >= self.board_size.x || p.y >= self.board_size.y
    }

    /// The key of the cell `p`.
    pub fn key_of(&self, p: Point) -> (k: u32)
        requires
            self@.in_bounds(p),
        ensures
            k == self@.key(p),
            k < self@.area(),
    {
        proof {
            lemma_key_in_range(self.board_size, p);
        }
        (p.y as u32) * (self.board_size.x as u32) + (p.x as u32)
    }

    /// Robot or an item stands at `p`.
    pub fn is_occupied(&self, p: Point) -> (r: bool)
        ensures
            r == self@.is_occupied(p),
    {
        if p == self.robot_location {
            return true;
        }
        if self.is_out_of_bounds(p) {
            return false;
        }
        let k = self.key_of(p);
        self.board_locations.contains_key(&k)
    }

    /// Robot tries to step in direction `d` (see `BoardState::moved`);
    /// returns the byte kitten is drawn with when robot has just found it.
    pub fn attempt_move(&mut self, d: UsefulInput) -> (found: Option<u8>)
        requires
            step_fits(old(self)@.robot, d),
            d.is_direction(),
        ensures
            final(self)@ == old(self)@.moved(d),
            found == old(self)@.kitten_found(d),
            old(self).wf() ==> final(self).wf(),
    {
        proof {
            if self.wf() {
                lemma_moved_wf(self@, d);
            }
        }
        let mut t = self.robot_location;
        match d {
            UsefulInput::Up => t.y = t.y - 1,
            UsefulInput::Down => t.y = t.y + 1,
            UsefulInput::Left => t.x = t.x - 1,
            UsefulInput::Right => t.x = t.x + 1,
            _ => {},
        }
        assert(t == target(self.robot_location, d));
        if self.is_out_of_bounds(t) {
            return None;
        }
        let k = self.key_of(t);
        match self.board_locations.get(&k) {
            Some(GItem::Kitten(ch, _)) => {
                let ch = *ch;
                self.message = "Game won".to_string();
                self.game_over = true;
                Some(ch)
            },
            Some(GItem::NonKittenItem(s, _, _)) => {
                self.message = s.clone();
                None
            },
            None => {
                self.robot_location = t;
                None
            },
        }
    }

    /// Handles one key press (see `BoardState::after_input`).
    pub fn handle_input(&mut self, inp: UsefulInput) -> (action: StepAction)
        requires
            !old(self)@.game_over ==> step_fits(old(self)@.robot, inp),
        ensures
            (final(self)@, action) == old(self)@.after_input(inp),
            old(self)@.in_bounds(old(self)@.robot) ==> final(self)@.in_bounds(final(self)@.robot),
            old(self).wf() ==> final(self).wf(),
    {
        if self.game_over {
            return StepAction::Quit;
        }
        match inp {
            UsefulInput::Escape => StepAction::Quit,
            UsefulInput::Other => StepAction::Continue,
            _ => match self.attempt_move(inp) {
                Some(ch) => StepAction::Celebrate(ch),
                None => StepAction::Continue,
            },
        }
    }
}

/// Every step keeps a board well formed.
pub proof fn lemma_moved_wf(s: BoardState, d: UsefulInput)
    requires
        s.wf(),
        d.is_direction(),
    ensures
        s.moved(d).wf(),
{
    let m = s.moved(d);
    assert(m.has_one_kitten()) by {
        let k = choose|k: u32| #[trigger] s.items.contains_key(k) && s.items[k].is_kitten();
        assert(m.items.contains_key(k) && m.items[k].is_kitten());
    }
}

/// The set of the first `n` keys.
pub open spec fn first_keys(n: int) -> Set<u32> {
    Set::new(|k: u32| k < n)
}

/// There are `n` keys below `n`.
pub proof fn lemma_first_keys_len(n: int)
    requires
        0 <= n <= 0x1_0000_0000,
    ensures
        first_keys(n).finite(),
        first_keys(n).len() == n,
    decreases n,
{
    if n == 0 {
        assert(first_keys(n) =~= Set::empty());
    } else {
        lemma_first_keys_len(n - 1);
        assert(first_keys(n) =~= first_keys(n - 1).insert((n - 1) as u32));
    }
}

/// If each of the first `n` keys is in `taken` or is `extra`, then `taken`
/// has at least `n - 1` elements.
pub proof fn lemma_keys_pigeonhole(taken: Set<u32>, extra: u32, n: int)
    requires
        taken.finite(),
        0 <= n <= 0x1_0000_0000,
        forall|k: u32| k < n ==> #[trigger] taken.contains(k) || k == extra,
    ensures
        n <= taken.len() + 1,
{
    lemma_first_keys_len(n);
    let all = taken.insert(extra);
    assert(first_keys(n).subset_of(all));
    vstd::set_lib::lemma_len_subset(first_keys(n), all);
}

impl BoardState {
    /// Some cell of the board is free.
    pub open spec fn has_free_cell(self) -> bool {
        exists|p: Point| self.in_bounds(p) && !#[trigger] self.is_occupied(p)
    }
}

/// A board whose items lie on its cells and which has more cells than items
/// plus robot has a free cell.
pub proof fn lemma_free_cell_exists(s: BoardState)
    requires
        0 < s.size.x,
        0 < s.size.y,
        s.items.dom().finite(),
        forall|k: u32| #[trigger] s.items.contains_key(k) ==> k < s.area(),
        s.items.len() + 1 < s.area(),
    ensures
        s.has_free_cell(),
{
    let w = s.size.x as int;
    let h = s.size.y as int;
    assert(w * h <= 32767 * 32767) by (nonlinear_arith)
        requires
            0 < w <= 32767,
            0 < h <= 32767,
    ;
    if !s.has_free_cell() {
        assert forall|k: u32| k < s.area() implies #[trigger] s.items.dom().contains(k) || k
            == s.key(s.robot) by {
            vstd::arithmetic::div_mod::lemma_fundamental_div_mod(k as int, w);
            vstd::arithmetic::div_mod::lemma_mod_bound(k as int, w);
            let q = k as int / w;
            let r = k as int % w;
            assert(0 <= q < h) by (nonlinear_arith)
                requires
                    k as int == w * q + r,
                    0 <= r < w,
                    0 <= k < w * h,
                    w > 0,
            ;
            let p = Point { x: r as i16, y: q as i16 };
            assert(s.in_bounds(p));
            assert(q * w == w * q) by (nonlinear_arith);
            assert(s.key(p) == k);
            assert(s.is_occupied(p));
        }
        lemma_keys_pigeonhole(s.items.dom(), s.key(s.robot), s.area());
    }
}

impl Board {
    /// The first free cell in row-major order, when one exists.
    fn first_free_cell(&self) -> (p: Point)
        requires
            self@.has_free_cell(),
        ensures
            self@.in_bounds(p),
            !self@.is_occupied(p),
    {
        let ghost s = self@;
        let w = self.board_size.x;
        let h = self.board_size.y;
        let mut y: i16 = 0;
        while y < h
            invariant
                s == self@,
                w == s.size.x,
                h == s.size.y,
                0 <= y,
                y <= h || y == 0,
                forall|q: Point|
                    s.in_bounds(q) && q.y < y ==> #[trigger] s.is_occupied(q),
            decreases h - y,
        {
            let mut x: i16 = 0;
            while x < w
                invariant
                    s == self@,
                    w == s.size.x,
                    h == s.size.y,
                    0 <= y < h,
                    0 <= x,
                    x <= w || x == 0,
                    forall|q: Point|
                        s.in_bounds(q) && (q.y < y || (q.y == y && q.x < x))
                            ==> #[trigger] s.is_occupied(q),
                decreases w - x,
            {
                let p = Point { x, y };
                if !self.is_occupied(p) {
                    return p;
                }
                x = x + 1;
            }
            y = y + 1;
        }
        proof {
            let q = choose|q: Point| s.in_bounds(q) && !#[trigger] s.is_occupied(q);
            assert(s.is_occupied(q));
        }
        Point { x: 0, y: 0 }
    }

    /// A random free cell of the board: cells are drawn until a free one
    /// turns up. (After `u64::MAX` fruitless draws the first free cell is
    /// taken.)
    pub fn new_location(&mut self) -> (p: Point)
        requires
            0 < old(self)@.size.x,
            0 < old(self)@.size.y,
            old(self)@.has_free_cell(),
        ensures
            final(self)@ == old(self)@,
            final(self)@.in_bounds(p),
            !final(self)@.is_occupied(p),
    {
        let ghost s = self@;
        let mut attempts: u64 = 0;
        while attempts < u64::MAX
            invariant
                self@ == s,
                s == old(self)@,
                0 < s.size.x,
                0 < s.size.y,
                s.has_free_cell(),
            decreases u64::MAX - attempts,
        {
            let x = crate::rng::gen_range_i16(&mut self.rng, 0, self.board_size.x);
            let y = crate::rng::gen_range_i16(&mut self.rng, 0, self.board_size.y);
            let p = Point { x, y };
            if !self.is_occupied(p) {
                return p;
            }
            attempts = attempts + 1;
        }
        self.first_free_cell()
    }
}

/// The lower-case form of an ASCII byte.
pub open spec fn ascii_lowercase(b: u8) -> u8 {
    if 0x41 <= b <= 0x5a {
        (b + 32) as u8
    } else {
        b
    }
}

/// The bytes items are drawn with: the printable ASCII characters, from
/// space to tilde, upper-case letters replaced by lower-case ones.
pub open spec fn item_glyphs() -> Seq<u8> {
    Seq::new(95, |i: int| ascii_lowercase((i + 32) as u8))
}

/// The bytes items are drawn with (see `item_glyphs`).
pub fn ascii_lowercase_map() -> (v: Vec<u8>)
    ensures
        v@ == item_glyphs(),
{
    let mut v: Vec<u8> = Vec::new();
    let mut b: u8 = 0x20;
    while b < 0x7f
        invariant
            0x20 <= b <= 0x7f,
            v@ == item_glyphs().take(b - 0x20),
        decreases 0x7f - b,
    {
        let c = if 0x41 <= b && b <= 0x5a {
            b + 32
        } else {
            b
        };
        v.push(c);
        assert(item_glyphs().take(b + 1 - 0x20) =~= item_glyphs().take(b - 0x20).push(c));
        b = b + 1;
    }
    assert(item_glyphs().take(95) =~= item_glyphs());
    v
}

/// `drawn` and `idx` show that the values `val(k)` of the keys `k` in
/// `keys` are drawn from `pool` without replacement: each key has its own
/// position in `drawn`, which holds its value, and `drawn` is part of `pool`
/// as a multiset.
pub open spec fn drawing_witness<T>(
    keys: Set<u32>,
    val: spec_fn(u32) -> T,
    pool: Seq<T>,
    drawn: Seq<T>,
    idx: Map<u32, int>,
) -> bool {
    &&& drawn.to_multiset().subset_of(pool.to_multiset())
    &&& forall|k: u32|
        #[trigger] keys.contains(k) ==> idx.contains_key(k) && 0 <= idx[k] < drawn.len()
            && drawn[idx[k]] == val(k)
    &&& forall|k1: u32, k2: u32|
        #![trigger keys.contains(k1), keys.contains(k2)]
        keys.contains(k1) && keys.contains(k2) && k1 != k2 ==> idx[k1] != idx[k2]
}

/// The values `val(k)` of the keys in `keys` are drawn from `pool` without
/// replacement: as a multiset they are part of `pool`'s.
pub open spec fn drawn_from<T>(keys: Set<u32>, val: spec_fn(u32) -> T, pool: Seq<T>) -> bool {
    exists|drawn: Seq<T>, idx: Map<u32, int>| drawing_witness(keys, val, pool, drawn, idx)
}

/// The keys of the items that are not kitten.
pub open spec fn non_kitten_keys(items: Map<u32, GItem>) -> Set<u32> {
    Set::new(|k: u32| items.contains_key(k) && items[k] is NonKittenItem)
}

impl Board {
    /// Puts `item` on the free cell `p`.
    pub fn place(&mut self, p: Point, item: GItem)
        requires
            old(self)@.in_bounds(p),
            !old(self)@.is_occupied(p),
        ensures
            final(self)@ == (BoardState {
                items: old(self)@.items.insert(old(self)@.key(p), item),
                ..old(self)@
            }),
            final(self)@.items.len() == old(self)@.items.len() + 1,
            old(self)@.layout_ok() && item_ok(item) ==> final(self)@.layout_ok(),
    {
        let k = self.key_of(p);
        proof {
            if self@.in_bounds(self@.robot) {
                lemma_key_in_range(self@.size, self@.robot);
                if k == self@.key(self@.robot) {
                    lemma_key_injective(self@.size, p, self@.robot);
                }
            }
        }
        self.board_locations.insert(k, item);
    }

    /// A new board for a screen of `output_size` columns and rows: the board
    /// leaves out the last column and the three header rows. Robot, then
    /// `number_of_nkis` items that are not kitten, then kitten, are placed on
    /// random free cells (robot is placed while the top-left cell still
    /// counts as taken, so it never starts there). The items' descriptions
    /// are taken from the end of a shuffled copy of `phrases`, their glyphs
    /// from the end of a shuffled copy of `item_glyphs`, and their colours at
    /// random from `0..15`.
    pub fn new(phrases: Vec<String>, output_size: (i16, i16), number_of_nkis: u32) -> (b: Board)
        requires
            output_size.0 >= 2,
            output_size.1 >= 4,
            number_of_nkis <= phrases.len(),
            number_of_nkis < 95,
            number_of_nkis + 2 <= (output_size.0 - 1) * (output_size.1 - 3),
        ensures
            b.wf(),
            b@.size == (Point { x: (output_size.0 - 1) as i16, y: (output_size.1 - 3) as i16 }),
            b@.items.len() == number_of_nkis + 1,
            b@.robot != (Point { x: 0, y: 0 }),
            !b@.game_over,
            b@.message == Seq::<char>::empty(),
            forall|k: u32|
                #[trigger] b@.items.contains_key(k) ==> item_glyphs().contains(
                    b@.items[k].glyph(),
                ),
            forall|k: u32|
                #[trigger] b@.items.contains_key(k) && b@.items[k] is NonKittenItem
                    ==> phrases@.contains(b@.items[k]->NonKittenItem_0),
            drawn_from(
                non_kitten_keys(b@.items),
                |k: u32| b@.items[k]->NonKittenItem_0,
                phrases@,
            ),
            drawn_from(b@.items.dom(), |k: u32| b@.items[k].glyph(), item_glyphs()),
    {
        let ghost original = phrases@;
        let mut phrases = phrases;
        let (x, y) = output_size;
        let mut b = Board {
            board_size: Point { x: x - 1, y: y - 3 },
            board_locations: HashMap::new(),
            rng: crate::rng::new_rng(),
            message: String::new(),
            robot_location: Point { x: 0, y: 0 },
            game_over: false,
            kitten_color: 0,
        };
        assert(b@.items.len() == 0);
        proof {
            lemma_free_cell_exists(b@);
        }
        let new_location = b.new_location();
        b.robot_location = new_location;
        let mut ascii_lower = ascii_lowercase_map();
        let ghost unshuffled_glyphs = ascii_lower@;
        let ghost unshuffled_phrases = phrases@;
        crate::rng::shuffle(&mut b.rng, &mut ascii_lower);
        crate::rng::shuffle(&mut b.rng, &mut phrases);
        proof {
            broadcast use vstd::seq_lib::group_to_multiset_ensures;

            assert(ascii_lower@.len() == ascii_lower@.to_multiset().len());
            assert(unshuffled_glyphs.len() == unshuffled_glyphs.to_multiset().len());
            assert(phrases@.len() == phrases@.to_multiset().len());
            assert(unshuffled_phrases.len() == unshuffled_phrases.to_multiset().len());

            assert forall|i: int| 0 <= i < ascii_lower@.len() implies item_glyphs().contains(
                #[trigger] ascii_lower@[i],
            ) by {
                let e = ascii_lower@[i];
                assert(ascii_lower@.contains(e));
                assert(ascii_lower@.to_multiset().count(e) > 0);
                assert(unshuffled_glyphs.to_multiset().count(e) > 0);
            }
            assert forall|i: int| 0 <= i < phrases@.len() implies original.contains(
                #[trigger] phrases@[i],
            ) by {
                let e = phrases@[i];
                assert(phrases@.contains(e));
                assert(phrases@.to_multiset().count(e) > 0);
                assert(unshuffled_phrases.to_multiset().count(e) > 0);
            }
        }
        let ghost mut dp: Seq<String> = Seq::empty();
        let ghost mut ip: Map<u32, int> = Map::empty();
        let ghost mut dg: Seq<u8> = Seq::empty();
        let ghost mut ig: Map<u32, int> = Map::empty();
        proof {
            broadcast use vstd::seq_lib::group_to_multiset_ensures;

            assert(dp.to_multiset() =~= vstd::multiset::Multiset::empty());
            assert(dg.to_multiset() =~= vstd::multiset::Multiset::empty());
            assert(dp.to_multiset().add(phrases@.to_multiset()) =~= original.to_multiset());
            assert(dg.to_multiset().add(ascii_lower@.to_multiset()) =~= item_glyphs().to_multiset());
        }
        let mut placed: u32 = 0;
        while placed < number_of_nkis
            invariant
                b@.layout_ok(),
                b@.size == (Point { x: (x - 1) as i16, y: (y - 3) as i16 }),
                b@.items.len() == placed,
                b@.robot != (Point { x: 0, y: 0 }),
                !b@.game_over,
                b@.message == Seq::<char>::empty(),
                placed <= number_of_nkis < 95,
                number_of_nkis + 2 <= b@.area(),
                phrases.len() == original.len() - placed,
                ascii_lower.len() == 95 - placed,
                number_of_nkis <= original.len(),
                forall|i: int|
                    0 <= i < ascii_lower@.len() ==> item_glyphs().contains(#[trigger] ascii_lower@[i]),
                forall|i: int| 0 <= i < phrases@.len() ==> original.contains(#[trigger] phrases@[i]),
                forall|k: u32| #[trigger] b@.items.contains_key(k) ==> !b@.items[k].is_kitten(),
                forall|k: u32|
                    #[trigger] b@.items.contains_key(k) ==> item_glyphs().contains(
                        b@.items[k].glyph(),
                    ),
                forall|k: u32|
                    #[trigger] b@.items.contains_key(k) && b@.items[k] is NonKittenItem
                        ==> original.contains(b@.items[k]->NonKittenItem_0),
                dp.to_multiset().add(phrases@.to_multiset()) == original.to_multiset(),
                dg.to_multiset().add(ascii_lower@.to_multiset()) == item_glyphs().to_multiset(),
                forall|k: u32|
                    #[trigger] b@.items.contains_key(k) ==> ip.contains_key(k) && 0 <= ip[k]
                        < dp.len() && dp[ip[k]] == b@.items[k]->NonKittenItem_0 && ig.contains_key(
                        k,
                    ) && 0 <= ig[k] < dg.len() && dg[ig[k]] == b@.items[k].glyph(),
                forall|k1: u32, k2: u32|
                    #![trigger b@.items.contains_key(k1), b@.items.contains_key(k2)]
                    b@.items.contains_key(k1) && b@.items.contains_key(k2) && k1 != k2 ==> ip[k1]
                        != ip[k2] && ig[k1] != ig[k2],
            decreases number_of_nkis - placed,
        {
            proof {
                lemma_free_cell_exists(b@);
            }
            let new_location = b.new_location();
            let color = crate::rng::gen_range_i16(&mut b.rng, 0, 0xf) as u16;
            let ghost before_phrases = phrases@;
            let ghost before_glyphs = ascii_lower@;
            let phrase = phrases.pop().unwrap();
            let ch = ascii_lower.pop().unwrap();
            let ghost kn = b@.key(new_location);
            proof {
                broadcast use vstd::seq_lib::group_to_multiset_ensures;

                assert(before_phrases =~= phrases@.push(phrase));
                assert(before_glyphs =~= ascii_lower@.push(ch));
                assert(dp.push(phrase).to_multiset().add(phrases@.to_multiset())
                    =~= dp.to_multiset().add(before_phrases.to_multiset()));
                assert(dg.push(ch).to_multiset().add(ascii_lower@.to_multiset())
                    =~= dg.to_multiset().add(before_glyphs.to_multiset()));
                ip = ip.insert(kn, dp.len() as int);
                dp = dp.push(phrase);
                ig = ig.insert(kn, dg.len() as int);
                dg = dg.push(ch);
            }
            b.place(new_location, GItem::NonKittenItem(phrase, ch, color));
            placed = placed + 1;
        }
        proof {
            lemma_free_cell_exists(b@);
        }
        let new_location = b.new_location();
        let color = crate::rng::gen_range_i16(&mut b.rng, 0, 0xf) as u16;
        b.kitten_color = color;
        let ghost before_glyphs = ascii_lower@;
        let ghost nki_items = b@.items;
        let ch = ascii_lower.pop().unwrap();
        let ghost kn = b@.key(new_location);
        proof {
            broadcast use vstd::seq_lib::group_to_multiset_ensures;

            assert(before_glyphs =~= ascii_lower@.push(ch));
            assert(dg.push(ch).to_multiset().add(ascii_lower@.to_multiset())
                =~= dg.to_multiset().add(before_glyphs.to_multiset()));
            ig = ig.insert(kn, dg.len() as int);
            dg = dg.push(ch);
        }
        b.place(new_location, GItem::Kitten(ch, color));
        assert(b@.items.contains_key(b@.key(new_location)) && b@.items[b@.key(
            new_location,
        )].is_kitten());
        proof {
            assert(dp.to_multiset().subset_of(original.to_multiset()));
            assert(dg.to_multiset().subset_of(item_glyphs().to_multiset()));
            assert(non_kitten_keys(b@.items) =~= nki_items.dom());
            assert(drawing_witness(
                non_kitten_keys(b@.items),
                |k: u32| b@.items[k]->NonKittenItem_0,
                original,
                dp,
                ip,
            ));
            assert(drawing_witness(b@.items.dom(), |k: u32| b@.items[k].glyph(), item_glyphs(), dg, ig));
        }
        b
    }
}

} // verus!
