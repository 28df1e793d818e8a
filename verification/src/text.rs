//! Texts as sequences of characters: the pieces between separators, and lines.
//!
//! Everything is stated over `Seq<char>`. The executable functions work on
//! slices of `char` and are proved against those statements.

use vstd::prelude::*;
use vstd::std_specs::iter::IteratorSpec;

verus! {

/// Taken from the documentation of `String::push` in std, not proved here:
/// afterwards the string holds the characters that it held before, followed
/// by `ch`.
pub assume_specification[ String::push ](s: &mut String, ch: char)
    ensures
        final(s)@ == old(s)@.push(ch),
;

/// The views of a vector of character vectors, piece by piece.
pub open spec fn views(pieces: Seq<Vec<char>>) -> Seq<Seq<char>> {
    pieces.map_values(|p: Vec<char>| p@)
}

/// Whether `c` does not occur in `s`.
pub open spec fn free_of(s: Seq<char>, c: char) -> bool {
    forall|i: int| 0 <= i < s.len() ==> s[i] != c
}

/// The pieces of `s` that lie between the occurrences of `sep`, in order.
///
/// There is always one piece more than there are separators: a sequence
/// without separator is its own single piece, and a separator at either end
/// has an empty piece beside it.
pub open spec fn split(s: Seq<char>, sep: char) -> Seq<Seq<char>>
    decreases s.len(),
{
    if s.len() == 0 {
        seq![Seq::empty()]
    } else {
        let before = split(s.drop_last(), sep);
        if s.last() == sep {
            before.push(Seq::empty())
        } else {
            before.update(before.len() - 1, before.last().push(s.last()))
        }
    }
}

/// `pieces` put back together with one `sep` between neighbours.
pub open spec fn join(pieces: Seq<Seq<char>>, sep: char) -> Seq<char>
    decreases pieces.len(),
{
    if pieces.len() == 0 {
        Seq::empty()
    } else if pieces.len() == 1 {
        pieces[0]
    } else {
        join(pieces.drop_last(), sep).push(sep) + pieces.last()
    }
}

/// Whether a text is a run of whole lines: empty, or ended by a line feed.
pub open spec fn ends_lines(text: Seq<char>) -> bool {
    text.len() == 0 || text.last() == '\n'
}

/// A line without the carriage return that may end it.
pub open spec fn strip_cr(line: Seq<char>) -> Seq<char> {
    if line.len() > 0 && line.last() == '\r' {
        line.drop_last()
    } else {
        line
    }
}

/// Every line of `ended` without its carriage return.
pub open spec fn stripped(ended: Seq<Seq<char>>) -> Seq<Seq<char>> {
    ended.map_values(|line: Seq<char>| strip_cr(line))
}

/// The lines of a text.
///
/// A line ends at a line feed; a carriage return directly before that line
/// feed belongs to the line ending. What follows the last line feed is a line
/// as it stands, unless it is empty.
pub open spec fn lines(text: Seq<char>) -> Seq<Seq<char>> {
    let pieces = split(text, '\n');
    let ended = stripped(pieces.drop_last());
    if pieces.last().len() == 0 {
        ended
    } else {
        ended.push(pieces.last())
    }
}

/// `split` never comes back empty.
pub proof fn lemma_split_nonempty(s: Seq<char>, sep: char)
    ensures
        split(s, sep).len() >= 1,
    decreases s.len(),
{
    if s.len() > 0 {
        lemma_split_nonempty(s.drop_last(), sep);
    }
}

/// A sequence without separator is its own single piece.
pub proof fn lemma_split_plain(s: Seq<char>, sep: char)
    requires
        free_of(s, sep),
    ensures
        split(s, sep) == seq![s],
    decreases s.len(),
{
    if s.len() == 0 {
        assert(s == Seq::<char>::empty());
    } else {
        lemma_split_plain(s.drop_last(), sep);
        assert(s.drop_last().push(s.last()) == s);
        assert(seq![s.drop_last()].update(0, s) == seq![s]);
    }
}

/// Cutting at a separator cuts the pieces apart: those of what stands before
/// it are followed by those of what stands behind it.
pub proof fn lemma_split_concat(x: Seq<char>, y: Seq<char>, sep: char)
    ensures
        split(x.push(sep) + y, sep) == split(x, sep) + split(y, sep),
    decreases y.len(),
{
    let whole = x.push(sep) + y;
    if y.len() == 0 {
        assert(whole.drop_last() == x);
        assert(split(x, sep) + seq![Seq::<char>::empty()] == split(x, sep).push(Seq::empty()));
    } else {
        let a = split(x, sep);
        let b = split(y.drop_last(), sep);
        lemma_split_concat(x, y.drop_last(), sep);
        lemma_split_nonempty(y.drop_last(), sep);
        assert(whole.drop_last() == x.push(sep) + y.drop_last());
        if y.last() == sep {
            assert((a + b).push(Seq::empty()) == a + b.push(Seq::empty()));
        } else {
            assert((a + b).update((a + b).len() - 1, (a + b).last().push(y.last())) == a
                + b.update(b.len() - 1, b.last().push(y.last())));
        }
    }
}

/// No piece holds the separator.
pub proof fn theorem_pieces_free_of_separator(s: Seq<char>, sep: char)
    ensures
        forall|i: int| 0 <= i < split(s, sep).len() ==> free_of(#[trigger] split(s, sep)[i], sep),
    decreases s.len(),
{
    if s.len() > 0 {
        theorem_pieces_free_of_separator(s.drop_last(), sep);
        lemma_split_nonempty(s.drop_last(), sep);
    }
}

/// The pieces, joined again, are what was cut.
pub proof fn theorem_join_inverts_split(s: Seq<char>, sep: char)
    ensures
        join(split(s, sep), sep) == s,
    decreases s.len(),
{
    if s.len() > 0 {
        let before = split(s.drop_last(), sep);
        let after = split(s, sep);
        theorem_join_inverts_split(s.drop_last(), sep);
        lemma_split_nonempty(s.drop_last(), sep);
        if s.last() == sep {
            assert(after.drop_last() == before);
            assert(s.drop_last().push(sep) + Seq::<char>::empty() == s);
        } else if before.len() == 1 {
            assert(s.drop_last().push(s.last()) == s);
        } else {
            assert(after.drop_last() == before.drop_last());
            let head = join(before.drop_last(), sep).push(sep);
            assert(head + before.last().push(s.last()) == (head + before.last()).push(s.last()));
            assert(s.drop_last().push(s.last()) == s);
        }
    }
}

/// Pieces without separator, joined and cut again, come back as they were.
pub proof fn theorem_split_inverts_join(pieces: Seq<Seq<char>>, sep: char)
    requires
        pieces.len() >= 1,
        forall|i: int| 0 <= i < pieces.len() ==> free_of(#[trigger] pieces[i], sep),
    ensures
        split(join(pieces, sep), sep) == pieces,
    decreases pieces.len(),
{
    if pieces.len() == 1 {
        lemma_split_plain(pieces[0], sep);
        assert(seq![pieces[0]] == pieces);
    } else {
        theorem_split_inverts_join(pieces.drop_last(), sep);
        lemma_split_plain(pieces.last(), sep);
        lemma_split_concat(join(pieces.drop_last(), sep), pieces.last(), sep);
        assert(pieces.drop_last() + seq![pieces.last()] == pieces);
    }
}

/// Behind a run of whole lines, the lines of what follows come after its own.
pub proof fn lemma_lines_concat(x: Seq<char>, y: Seq<char>)
    requires
        ends_lines(x),
    ensures
        lines(x + y) == lines(x) + lines(y),
{
    if x.len() == 0 {
        assert(x + y == y);
        assert(stripped(split(x, '\n').drop_last()) == Seq::<Seq<char>>::empty());
        assert(lines(x) + lines(y) == lines(y));
    } else {
        let a = split(x.drop_last(), '\n');
        let b = split(y, '\n');
        lemma_split_concat(x.drop_last(), y, '\n');
        lemma_split_nonempty(x.drop_last(), '\n');
        lemma_split_nonempty(y, '\n');
        assert(x.drop_last().push('\n') == x);
        assert(split(x, '\n') == a.push(Seq::empty()));
        assert(a.push(Seq::<char>::empty()).drop_last() == a);
        assert((a + b).drop_last() == a + b.drop_last());
        assert(stripped(a + b.drop_last()) == stripped(a) + stripped(b.drop_last()));
        assert(stripped(a) + stripped(b.drop_last()).push(b.last()) == (stripped(a) + stripped(
            b.drop_last(),
        )).push(b.last()));
    }
}

/// One line and its line feed make one line, without the carriage return
/// that may stand before the line feed.
pub proof fn lemma_lines_single(line: Seq<char>)
    requires
        free_of(line, '\n'),
    ensures
        lines(line.push('\n')) == seq![strip_cr(line)],
{
    lemma_split_plain(line, '\n');
    assert(line.push('\n').drop_last() == line);
    assert(seq![line].push(Seq::<char>::empty()).drop_last() == seq![line]);
    assert(stripped(seq![line]) == seq![strip_cr(line)]);
}

/// The line feed at the end of a text may be left out: without it the text
/// has the same lines, unless that leaves a carriage return at its end.
pub proof fn theorem_last_line_feed_optional(text: Seq<char>)
    requires
        text.len() > 0,
        text.last() != '\n',
        text.last() != '\r',
    ensures
        lines(text.push('\n')) == lines(text),
{
    let pieces = split(text, '\n');
    lemma_split_nonempty(text.drop_last(), '\n');
    assert(text.push('\n').drop_last() == text);
    assert(pieces.push(Seq::<char>::empty()).drop_last() == pieces);
    assert(pieces.last().last() == text.last());
    assert(stripped(pieces) == stripped(pieces.drop_last()).push(pieces.last()));
}

/// The characters of `s`, one by one.
pub fn chars_of(s: &str) -> (chars: Vec<char>)
    ensures
        chars@ == s@,
{
    let mut chars: Vec<char> = Vec::new();
    for c in it: s.chars()
        invariant
            chars@ == s@.take(it.index() as int),
            it.seq() == s@,
    {
        chars.push(c);
    }
    chars
}

/// A string that holds exactly `chars`.
pub fn string_of(chars: &[char]) -> (s: String)
    ensures
        s@ == chars@,
{
    let mut s = String::new();
    let mut i: usize = 0;
    while i < chars.len()
        invariant
            i <= chars.len(),
            s@ == chars@.take(i as int),
        decreases chars.len() - i,
    {
        s.push(chars[i]);
        i += 1;
    }
    s
}

/// Cuts `s` at every `sep`.
pub fn split_chars(s: &[char], sep: char) -> (pieces: Vec<Vec<char>>)
    ensures
        views(pieces@) == split(s@, sep),
{
    let mut pieces: Vec<Vec<char>> = Vec::new();
    let mut current: Vec<char> = Vec::new();
    let mut i: usize = 0;
    while i < s.len()
        invariant
            i <= s.len(),
            views(pieces@).push(current@) == split(s@.take(i as int), sep),
        decreases s.len() - i,
    {
        let c = s[i];
        proof {
            assert(s@.take(i + 1).drop_last() == s@.take(i as int));
        }
        if c == sep {
            pieces.push(current);
            current = Vec::new();
        } else {
            current.push(c);
        }
        i += 1;
    }
    pieces.push(current);
    proof {
        assert(s@.take(s.len() as int) == s@);
    }
    pieces
}

/// Cuts a text into its lines.
pub fn split_lines(text: &[char]) -> (found: Vec<Vec<char>>)
    ensures
        views(found@) == lines(text@),
{
    let mut found: Vec<Vec<char>> = Vec::new();
    let mut current: Vec<char> = Vec::new();
    let mut i: usize = 0;
    while i < text.len()
        invariant
            i <= text.len(),
            views(found@) == stripped(split(text@.take(i as int), '\n').drop_last()),
            current@ == split(text@.take(i as int), '\n').last(),
        decreases text.len() - i,
    {
        let c = text[i];
        proof {
            assert(text@.take(i + 1).drop_last() == text@.take(i as int));
            lemma_split_nonempty(text@.take(i as int), '\n');
        }
        let ghost before = split(text@.take(i as int), '\n');
        let ghost after = split(text@.take(i + 1), '\n');
        if c == '\n' {
            let n = current.len();
            if n > 0 && current[n - 1] == '\r' {
                current.pop();
            }
            proof {
                assert(after.drop_last() == before);
                assert(stripped(before) == stripped(before.drop_last()).push(current@));
                assert(views(found@.push(current)) == views(found@).push(current@));
            }
            found.push(current);
            current = Vec::new();
        } else {
            current.push(c);
            proof {
                assert(after.drop_last() == before.drop_last());
            }
        }
        i += 1;
    }
    proof {
        assert(text@.take(text.len() as int) == text@);
    }
    if current.len() > 0 {
        proof {
            assert(views(found@.push(current)) == views(found@).push(current@));
        }
        found.push(current);
    }
    found
}

} // verus!
