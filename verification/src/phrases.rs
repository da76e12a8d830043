//! The descriptions of the items that are not kitten, read from the lines of
//! an item file: lines that start with `#` are comments.
use vstd::prelude::*;

verus! {

/// A line of an item file is a description unless it starts with `#`.
pub open spec fn is_phrase(line: Seq<char>) -> bool {
    !(line.len() > 0 && line[0] == '#')
}

/// The descriptions among `lines`, in their order.
pub open spec fn phrases_of(lines: Seq<String>) -> Seq<String>
    decreases lines.len(),
{
    if lines.len() == 0 {
        Seq::empty()
    } else {
        let rest = phrases_of(lines.drop_last());
        if is_phrase(lines.last()@) {
            rest.push(lines.last())
        } else {
            rest
        }
    }
}

/// The line is a description (see `is_phrase`).
pub fn is_phrase_line(line: &str) -> (r: bool)
    ensures
        r == is_phrase(line@),
{
    line.unicode_len() == 0 || line.get_char(0) != '#'
}

/// The descriptions among the lines of an item file (see `phrases_of`).
pub fn select_phrases(lines: &Vec<String>) -> (phrases: Vec<String>)
    ensures
        phrases@ == phrases_of(lines@),
{
    let mut phrases: Vec<String> = Vec::new();
    let mut i: usize = 0;
    while i < lines.len()
        invariant
            i <= lines.len(),
            phrases@ == phrases_of(lines@.take(i as int)),
        decreases lines.len() - i,
    {
        assert(lines@.take(i + 1).drop_last() =~= lines@.take(i as int));
        if is_phrase_line(lines[i].as_str()) {
            phrases.push(lines[i].clone());
        }
        i = i + 1;
    }
    assert(lines@.take(lines.len() as int) =~= lines@);
    phrases
}

} // verus!
