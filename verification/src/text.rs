//! Character sequences: joining, and moving between `String` and `Vec<char>`.

use vstd::prelude::*;

verus! {

/// `String::push` appends one character to the end of the string and leaves
/// the characters before it as they were.
pub assume_specification[ String::push ](text: &mut String, ch: char)
    ensures
        final(text)@ == old(text)@.push(ch),
;

/// `parts` written one after another with `separator` between neighbours.
pub open spec fn joined(parts: Seq<Seq<char>>, separator: Seq<char>) -> Seq<char>
    decreases parts.len(),
{
    if parts.len() == 0 {
        Seq::empty()
    } else if parts.len() == 1 {
        parts[0]
    } else {
        joined(parts.drop_last(), separator) + separator + parts.last()
    }
}

/// Joining can be unfolded at the front as well as at the back.
pub proof fn lemma_joined_front(parts: Seq<Seq<char>>, separator: Seq<char>)
    requires
        parts.len() >= 2,
    ensures
        joined(parts, separator) == parts[0] + separator + joined(parts.skip(1), separator),
    decreases parts.len(),
{
    let tail = parts.skip(1);
    let front = parts.drop_last();
    assert(joined(parts, separator) == joined(front, separator) + separator + parts.last());
    assert(tail.last() == parts.last());
    if parts.len() == 2 {
        assert(joined(front, separator) == parts[0]);
        assert(joined(tail, separator) == parts.last());
    } else {
        lemma_joined_front(front, separator);
        assert(front.skip(1) == tail.drop_last());
        assert(joined(tail, separator) == joined(tail.drop_last(), separator) + separator
            + tail.last());
        assert(joined(parts, separator) == (parts[0] + separator + joined(
            tail.drop_last(),
            separator,
        )) + separator + parts.last());
        assert(joined(parts, separator) == parts[0] + separator + (joined(
            tail.drop_last(),
            separator,
        ) + separator + parts.last()));
    }
}

/// The characters of `text`, one element each.
pub fn chars_of(text: &str) -> (chars: Vec<char>)
    ensures
        chars@ == text@,
{
    broadcast use vstd::string::group_string_axioms;

    let mut chars: Vec<char> = Vec::new();
    for c in it: text.chars()
        invariant
            it.seq() == text@,
            chars@ == it.seq().take(it.index() as int),
    {
        chars.push(c);
    }
    chars
}

/// A string made of `chars[from..to]`.
pub fn string_of(chars: &Vec<char>, from: usize, to: usize) -> (text: String)
    requires
        from <= to <= chars.len(),
    ensures
        text@ == chars@.subrange(from as int, to as int),
{
    let mut text = String::new();
    let mut i: usize = from;
    while i < to
        invariant
            from <= i <= to <= chars.len(),
            text@ == chars@.subrange(from as int, i as int),
        decreases to - i,
    {
        text.push(chars[i]);
        i += 1;
    }
    text
}

} // verus!
