//! From the terminal's key codes to the keys the game reacts to.
use vstd::prelude::*;

use crate::common::UsefulInput;

verus! {

/// The key code of Escape.
pub const ESCAPE_KEY: i32 = 0x1B;

/// The curses key codes of the four arrow keys, as the curses library of the
/// terminal defines them.
#[derive(Debug, Copy, Clone, PartialEq, Eq, Structural)]
pub struct ArrowKeys {
    pub left: i32,
    pub up: i32,
    pub right: i32,
    pub down: i32,
}

/// The key a curses key code stands for: Escape, then the arrows in the
/// order left, up, right, down, are tried in turn; anything else is `Other`.
pub open spec fn curses_input(code: i32, keys: ArrowKeys) -> UsefulInput {
    if code == ESCAPE_KEY {
        UsefulInput::Escape
    } else if code == keys.left {
        UsefulInput::Left
    } else if code == keys.up {
        UsefulInput::Up
    } else if code == keys.right {
        UsefulInput::Right
    } else if code == keys.down {
        UsefulInput::Down
    } else {
        UsefulInput::Other
    }
}

/// The key a curses key code stands for (see `curses_input`).
pub fn input_from_curses_key(code: i32, keys: ArrowKeys) -> (inp: UsefulInput)
    ensures
        inp == curses_input(code, keys),
{
    if code == ESCAPE_KEY {
        UsefulInput::Escape
    } else if code == keys.left {
        UsefulInput::Left
    } else if code == keys.up {
        UsefulInput::Up
    } else if code == keys.right {
        UsefulInput::Right
    } else if code == keys.down {
        UsefulInput::Down
    } else {
        UsefulInput::Other
    }
}

/// The keys that a batch of curses key codes stands for, in order.
pub fn inputs_from_curses_keys(codes: &Vec<i32>, keys: ArrowKeys) -> (inputs: Vec<UsefulInput>)
    ensures
        inputs.len() == codes.len(),
        forall|i: int|
            0 <= i < codes.len() ==> #[trigger] inputs@[i] == curses_input(codes@[i], keys),
{
    let mut inputs: Vec<UsefulInput> = Vec::new();
    let mut i: usize = 0;
    while i < codes.len()
        invariant
            i <= codes.len(),
            inputs.len() == i,
            forall|j: int| 0 <= j < i ==> #[trigger] inputs@[j] == curses_input(codes@[j], keys),
        decreases codes.len() - i,
    {
        inputs.push(input_from_curses_key(codes[i], keys));
        i = i + 1;
    }
    inputs
}

/// The key a Windows virtual-key code stands for: Escape (0x1B), the arrows
/// left (0x25), up (0x26), right (0x27), down (0x28); anything else is
/// `Other`.
pub open spec fn virtual_key_input(code: u16) -> UsefulInput {
    if code == 0x1B {
        UsefulInput::Escape
    } else if code == 0x25 {
        UsefulInput::Left
    } else if code == 0x26 {
        UsefulInput::Up
    } else if code == 0x27 {
        UsefulInput::Right
    } else if code == 0x28 {
        UsefulInput::Down
    } else {
        UsefulInput::Other
    }
}

/// The key a Windows virtual-key code stands for (see `virtual_key_input`).
pub fn input_from_virtual_key(code: u16) -> (inp: UsefulInput)
    ensures
        inp == virtual_key_input(code),
{
    match code {
        0x1B => UsefulInput::Escape,
        0x25 => UsefulInput::Left,
        0x26 => UsefulInput::Up,
        0x27 => UsefulInput::Right,
        0x28 => UsefulInput::Down,
        _ => UsefulInput::Other,
    }
}

/// The keys read from a batch of Windows key events, given the virtual-key
/// codes of its key-press events in order: only the first counts.
pub fn inputs_from_virtual_keys(codes: &Vec<u16>) -> (inputs: Vec<UsefulInput>)
    ensures
        codes.len() == 0 ==> inputs@ == Seq::<UsefulInput>::empty(),
        codes.len() > 0 ==> inputs@ == seq![virtual_key_input(codes@[0])],
{
    let mut inputs: Vec<UsefulInput> = Vec::new();
    if codes.len() == 0 {
        return inputs;
    }
    inputs.push(input_from_virtual_key(codes[0]));
    inputs
}

/// On the title screen, Escape leaves the game and any other key starts it.
pub fn quits_title_screen(inp: UsefulInput) -> (quit: bool)
    ensures
        quit == (inp is Escape),
{
    match inp {
        UsefulInput::Escape => true,
        _ => false,
    }
}

} // verus!
