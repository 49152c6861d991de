use vstd::prelude::*;

verus! {

/// The number of newline bytes in `s`.
pub open spec fn newlines(s: Seq<u8>) -> nat
    decreases s.len(),
{
    if s.len() == 0 {
        0
    } else {
        newlines(s.drop_last()) + if s.last() == 10u8 { 1nat } else { 0nat }
    }
}

/// The number of lines of a text: its newline-terminated lines, plus a last
/// line that lacks the terminator when the text does not end in one.
pub open spec fn line_count(s: Seq<u8>) -> nat {
    newlines(s) + if s.len() > 0 && s.last() != 10u8 { 1nat } else { 0nat }
}

/// Counts the lines of a file's content, as line-buffered reading sees them.
pub fn count_lines(content: &[u8]) -> (r: usize)
    ensures
        r == line_count(content@),
{
    let n = content.len();
    let mut count: usize = 0;
    let mut i: usize = 0;
    while i < n
        invariant
            n == content@.len(),
            0 <= i <= n,
            count == newlines(content@.subrange(0, i as int)),
            count <= i,
            i > 0 && content@[i - 1] != 10u8 ==> count < i,
        decreases n - i,
    {
        assert(content@.subrange(0, i + 1).drop_last() == content@.subrange(0, i as int));
        if content[i] == 10u8 {
            count += 1;
        }
        i += 1;
    }
    assert(content@.subrange(0, n as int) == content@);
    if n > 0 && content[n - 1] != 10u8 {
        count += 1;
    }
    count
}

} // verus!
