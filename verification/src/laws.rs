//! What holds of every game: over single key presses and over whole runs.
use vstd::prelude::*;

use crate::board::{lemma_moved_wf, target, BoardState, StepAction};
use crate::common::UsefulInput;

verus! {

/// Escape ends the game and leaves the board as it is.
pub proof fn lemma_escape_ends_game(s: BoardState)
    ensures
        s.after_input(UsefulInput::Escape) == (s, StepAction::Quit),
{
}

/// Once the game is over, every key ends it and changes nothing.
pub proof fn lemma_game_over_is_final(s: BoardState, inp: UsefulInput)
    requires
        s.game_over,
    ensures
        s.after_input(inp) == (s, StepAction::Quit),
{
}

/// Keys other than the arrows and Escape change nothing and the game goes
/// on.
pub proof fn lemma_other_keys_ignored(s: BoardState)
    requires
        !s.game_over,
    ensures
        s.after_input(UsefulInput::Other) == (s, StepAction::Continue),
{
}

/// A step moves robot by at most one cell, onto a free cell of the board.
pub proof fn lemma_step_moves_one_cell(s: BoardState, d: UsefulInput)
    requires
        s.wf(),
        d.is_direction(),
    ensures
        ({
            let r = s.moved(d).robot;
            let dx = r.x - s.robot.x;
            let dy = r.y - s.robot.y;
            &&& -1 <= dx <= 1
            &&& -1 <= dy <= 1
            &&& dx == 0 || dy == 0
            &&& s.in_bounds(r)
            &&& !s.has_item_at(r)
        }),
{
}

/// Robot learns what an item is only by touching it: stepping onto an item
/// that is not kitten leaves robot where it was and shows the item's
/// description, and the game goes on.
pub proof fn lemma_touching_item_reveals_it(s: BoardState, d: UsefulInput)
    requires
        s.wf(),
        d.is_direction(),
        s.has_item_at(target(s.robot, d)),
        s.item_at(target(s.robot, d)) is NonKittenItem,
    ensures
        s.moved(d).robot == s.robot,
        s.moved(d).message == s.item_at(target(s.robot, d))->NonKittenItem_0@,
        s.moved(d).game_over == s.game_over,
        s.kitten_found(d) is None,
{
}

/// The game ends when robot finds kitten: a step wins the game exactly when
/// it reaches kitten, and then robot stays where it was.
pub proof fn lemma_game_won_exactly_at_kitten(s: BoardState, d: UsefulInput)
    requires
        s.wf(),
        !s.game_over,
        d.is_direction(),
    ensures
        s.moved(d).game_over <==> s.kitten_found(d) is Some,
        s.moved(d).game_over ==> s.moved(d).robot == s.robot && s.moved(d).beside_kitten(),
{
    if s.moved(d).game_over {
        assert(s.moved(d).has_item_at(target(s.moved(d).robot, d)));
    }
}

/// Every run of key presses keeps the board well formed: robot stays on the
/// board and never shares a cell with an item, and there is one kitten.
pub proof fn lemma_play_keeps_wf(s: BoardState, inputs: Seq<UsefulInput>)
    requires
        s.wf(),
    ensures
        s.play(inputs).wf(),
    decreases inputs.len(),
{
    if inputs.len() > 0 {
        let inp = inputs[0];
        if !s.game_over && inp.is_direction() {
            lemma_moved_wf(s, inp);
        }
        let (next, action) = s.after_input(inp);
        if !(action is Quit) {
            lemma_play_keeps_wf(next, inputs.drop_first());
        }
    }
}

/// No key press moves, adds or removes an item: the items, the size of the
/// board and kitten's colour are those it started with.
pub proof fn lemma_play_keeps_items(s: BoardState, inputs: Seq<UsefulInput>)
    ensures
        s.play(inputs).items == s.items,
        s.play(inputs).size == s.size,
        s.play(inputs).kitten_color == s.kitten_color,
    decreases inputs.len(),
{
    if inputs.len() > 0 {
        let (next, action) = s.after_input(inputs[0]);
        if !(action is Quit) {
            lemma_play_keeps_items(next, inputs.drop_first());
        }
    }
}

/// A game is only ever won beside kitten: if robot stood beside kitten
/// whenever the game was over, that stays so through any run of key presses.
pub proof fn lemma_play_wins_beside_kitten(s: BoardState, inputs: Seq<UsefulInput>)
    requires
        s.wf(),
        s.game_over ==> s.beside_kitten(),
    ensures
        s.play(inputs).game_over ==> s.play(inputs).beside_kitten(),
    decreases inputs.len(),
{
    if inputs.len() > 0 {
        let inp = inputs[0];
        if !s.game_over && inp.is_direction() {
            lemma_moved_wf(s, inp);
            lemma_game_won_exactly_at_kitten(s, inp);
        }
        let (next, action) = s.after_input(inp);
        if !(action is Quit) {
            lemma_play_wins_beside_kitten(next, inputs.drop_first());
        }
    }
}

/// When a step wins the game, the byte handed to the finale is kitten's own
/// glyph: the glyph of the one kitten item on the board. A step that does not
/// reach kitten hands over nothing.
pub proof fn lemma_found_byte_is_kittens_glyph(s: BoardState, d: UsefulInput)
    requires
        s.wf(),
        !s.game_over,
        d.is_direction(),
    ensures
        s.kitten_found(d) is Some <==> s.moved(d).game_over,
        forall|k: u32|
            #[trigger] s.items.contains_key(k) && s.items[k].is_kitten() && s.kitten_found(d) is Some
                ==> s.kitten_found(d) == Some(s.items[k].glyph()),
        s.kitten_found(d) is Some ==> s.items.contains_key(s.key(target(s.robot, d)))
            && s.kitten_found(d) == Some(s.items[s.key(target(s.robot, d))].glyph()),
{
    let t = target(s.robot, d);
    if s.kitten_found(d) is Some {
        assert(s.items.contains_key(s.key(t)) && s.items[s.key(t)].is_kitten());
    }
}

} // verus!
