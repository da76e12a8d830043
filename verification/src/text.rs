//! Building and reading strings character by character.
use vstd::prelude::*;

verus! {

/// Calls `String::push`, which std documents as appending the character
/// to the end of the string.
#[verifier::external_body]
pub fn push_char(s: &mut String, c: char)
    ensures
        final(s)@ == old(s)@.push(c),
{
    s.push(c)
}

/// `n` copies of `c`.
pub open spec fn repeated(c: char, n: int) -> Seq<char> {
    Seq::new(if n > 0 { n as nat } else { 0 }, |i: int| c)
}

/// Appends `n` copies of `c` (none when `n <= 0`).
pub fn push_repeated(s: &mut String, c: char, n: i16)
    ensures
        final(s)@ == old(s)@ + repeated(c, n as int),
{
    let mut i: i16 = 0;
    while i < n
        invariant
            0 <= i,
            i <= n || i == 0,
            s@ == old(s)@ + repeated(c, i as int),
        decreases n - i,
    {
        push_char(s, c);
        assert(repeated(c, i + 1) =~= repeated(c, i as int).push(c));
        i = i + 1;
    }
    assert(repeated(c, n as int) =~= repeated(c, i as int));
}

/// Appends the characters of `t`.
pub fn push_str(s: &mut String, t: &str)
    ensures
        final(s)@ == old(s)@ + t@,
{
    let n = t.unicode_len();
    let mut i: usize = 0;
    while i < n
        invariant
            n == t@.len(),
            i <= n,
            s@ == old(s)@ + t@.take(i as int),
        decreases n - i,
    {
        let c = t.get_char(i);
        push_char(s, c);
        assert(t@.take(i + 1) =~= t@.take(i as int).push(c));
        i = i + 1;
    }
    assert(t@.take(n as int) =~= t@);
}

} // verus!
