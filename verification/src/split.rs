//! Cutting text into pieces: fields between commas, lines between line
//! breaks.

use vstd::prelude::*;
use crate::text::decimal;
use crate::text::is_digit;
use crate::text::lemma_decimal_digits;

verus! {

/// Whether `c` does not occur in `s`.
pub open spec fn free_of(s: Seq<char>, c: char) -> bool {
    forall|i: int| 0 <= i < s.len() ==> #[trigger] s[i] != c
}

/// The position of the first `c` in `s`, or the length of `s` if `c` does
/// not occur in it.
pub open spec fn first_of(s: Seq<char>, c: char) -> int
    decreases s.len(),
{
    if s.len() == 0 || s[0] == c {
        0
    } else {
        1 + first_of(s.drop_first(), c)
    }
}

/// The pieces of `s` between the occurrences of `c`, in order. A text
/// without `c` is its own single piece; `n` occurrences give `n + 1` pieces,
/// some possibly empty.
pub open spec fn split_at_each(s: Seq<char>, c: char) -> Seq<Seq<char>>
    decreases s.len(),
{
    let i = first_of(s, c);
    if 0 <= i < s.len() {
        seq![s.take(i)] + split_at_each(s.skip(i + 1), c)
    } else {
        seq![s]
    }
}

/// Whether `s` holds no comma.
pub open spec fn comma_free(s: Seq<char>) -> bool {
    free_of(s, ',')
}

/// The pieces of `s` between its commas.
pub open spec fn split_fields(s: Seq<char>) -> Seq<Seq<char>> {
    split_at_each(s, ',')
}

/// Whether `s` holds no line break.
pub open spec fn break_free(s: Seq<char>) -> bool {
    free_of(s, '\n')
}

/// Whether `s` ends with a carriage return.
pub open spec fn ends_with_return(s: Seq<char>) -> bool {
    s.len() > 0 && s.last() == '\r'
}

/// `s` without the carriage return at its end, if it has one there.
pub open spec fn without_return(s: Seq<char>) -> Seq<char> {
    if ends_with_return(s) {
        s.drop_last()
    } else {
        s
    }
}

/// The lines of `s`. Every line break ends a line, and one carriage return
/// right before the line break is taken off with it. What follows the last
/// line break is a line too, as it stands, unless it is empty.
pub open spec fn split_lines(s: Seq<char>) -> Seq<Seq<char>>
    decreases s.len(),
{
    let i = first_of(s, '\n');
    if s.len() == 0 {
        Seq::empty()
    } else if 0 <= i < s.len() {
        seq![without_return(s.take(i))] + split_lines(s.skip(i + 1))
    } else {
        seq![s]
    }
}

/// The text in which every one of `lines` is followed by a line break.
pub open spec fn join_lines(lines: Seq<Seq<char>>) -> Seq<char>
    decreases lines.len(),
{
    if lines.len() == 0 {
        Seq::empty()
    } else {
        join_lines(lines.drop_last()) + lines.last() + seq!['\n']
    }
}

/// The first occurrence lies within the text, and nothing before it is an
/// occurrence.
pub proof fn lemma_first_of_bounds(s: Seq<char>, c: char)
    ensures
        0 <= first_of(s, c) <= s.len(),
        free_of(s.take(first_of(s, c)), c),
        first_of(s, c) < s.len() ==> s[first_of(s, c)] == c,
    decreases s.len(),
{
    if s.len() == 0 || s[0] == c {
    } else {
        let rest = s.drop_first();
        lemma_first_of_bounds(rest, c);
        let k = first_of(rest, c);
        assert forall|i: int| 0 <= i < k + 1 implies #[trigger] s.take(k + 1)[i] != c by {
            if i > 0 {
                assert(s.take(k + 1)[i] == rest.take(k)[i - 1]);
            }
        }
    }
}

/// In a text free of `c` that is followed by `c`, the first `c` stands right
/// behind the text.
pub proof fn lemma_first_of_after(head: Seq<char>, c: char, tail: Seq<char>)
    requires
        free_of(head, c),
    ensures
        first_of(head + seq![c] + tail, c) == head.len(),
    decreases head.len(),
{
    let s = head + seq![c] + tail;
    if head.len() > 0 {
        assert(s.drop_first() =~= head.drop_first() + seq![c] + tail);
        assert(free_of(head.drop_first(), c));
        lemma_first_of_after(head.drop_first(), c, tail);
    }
}

/// In a text free of `c` there is no first `c`.
pub proof fn lemma_first_of_absent(s: Seq<char>, c: char)
    requires
        free_of(s, c),
    ensures
        first_of(s, c) == s.len(),
    decreases s.len(),
{
    if s.len() > 0 {
        assert(free_of(s.drop_first(), c));
        lemma_first_of_absent(s.drop_first(), c);
    }
}

/// Splitting a text free of `c`, then `c`, then a rest gives the text as
/// first piece, followed by the pieces of the rest.
pub proof fn lemma_split_step(head: Seq<char>, c: char, tail: Seq<char>)
    requires
        free_of(head, c),
    ensures
        split_at_each(head + seq![c] + tail, c) == seq![head] + split_at_each(tail, c),
{
    let s = head + seq![c] + tail;
    lemma_first_of_after(head, c, tail);
    assert(s.take(head.len() as int) =~= head);
    assert(s.skip(head.len() as int + 1) =~= tail);
}

/// A text free of `c` splits into itself alone.
pub proof fn lemma_split_single(s: Seq<char>, c: char)
    requires
        free_of(s, c),
    ensures
        split_at_each(s, c) == seq![s],
{
    lemma_first_of_absent(s, c);
}

/// No piece of a text split at `c` holds `c`.
pub proof fn lemma_split_pieces_free(s: Seq<char>, c: char)
    ensures
        forall|k: int|
            0 <= k < split_at_each(s, c).len() ==> free_of(#[trigger] split_at_each(s, c)[k], c),
    decreases s.len(),
{
    let i = first_of(s, c);
    lemma_first_of_bounds(s, c);
    if 0 <= i < s.len() {
        lemma_split_pieces_free(s.skip(i + 1), c);
        assert forall|k: int| 0 <= k < split_at_each(s, c).len() implies free_of(
            #[trigger] split_at_each(s, c)[k],
            c,
        ) by {
            if k > 0 {
                assert(split_at_each(s, c)[k] == split_at_each(s.skip(i + 1), c)[k - 1]);
            }
        }
    } else {
        assert(s.take(i) =~= s);
    }
}

/// A decimal numeral holds neither comma nor line break, and does not end
/// with a carriage return.
pub proof fn lemma_decimal_plain(n: nat)
    ensures
        comma_free(decimal(n)),
        break_free(decimal(n)),
        !ends_with_return(decimal(n)),
{
    lemma_decimal_digits(n);
    assert forall|i: int| 0 <= i < decimal(n).len() implies is_digit(#[trigger] decimal(n)[i]) by {}
}

/// The lines of a line free of line breaks, then a line break, then a rest
/// are the line, without the carriage return at its end, and the lines of
/// the rest.
pub proof fn lemma_split_lines_step(head: Seq<char>, tail: Seq<char>)
    requires
        break_free(head),
    ensures
        split_lines(head + seq!['\n'] + tail) == seq![without_return(head)] + split_lines(tail),
{
    let s = head + seq!['\n'] + tail;
    lemma_first_of_after(head, '\n', tail);
    assert(s.take(head.len() as int) =~= head);
    assert(s.skip(head.len() as int + 1) =~= tail);
}

/// A text free of line breaks is its own single line, unless it is empty.
pub proof fn lemma_split_lines_last(s: Seq<char>)
    requires
        break_free(s),
    ensures
        split_lines(s) == if s.len() == 0 {
            Seq::<Seq<char>>::empty()
        } else {
            seq![s]
        },
{
    lemma_first_of_absent(s, '\n');
}

/// Joining a first line and more lines puts the first line and its line
/// break in front of the others joined.
pub proof fn lemma_join_lines_front(first: Seq<char>, more: Seq<Seq<char>>)
    ensures
        join_lines(seq![first] + more) == first + seq!['\n'] + join_lines(more),
    decreases more.len(),
{
    let all = seq![first] + more;
    if more.len() == 0 {
        assert(join_lines(all.drop_last()) =~= Seq::<char>::empty());
    } else {
        lemma_join_lines_front(first, more.drop_last());
        assert(all.drop_last() =~= seq![first] + more.drop_last());
    }
}

/// Joining lines and splitting the text again gives the lines back, if none
/// of them holds a line break or ends with a carriage return.
pub proof fn lemma_split_joined_lines(lines: Seq<Seq<char>>)
    requires
        forall|k: int|
            0 <= k < lines.len() ==> break_free(#[trigger] lines[k]) && !ends_with_return(lines[k]),
    ensures
        split_lines(join_lines(lines)) == lines,
    decreases lines.len(),
{
    if lines.len() > 0 {
        let first = lines[0];
        let more = lines.drop_first();
        assert(lines =~= seq![first] + more);
        lemma_join_lines_front(first, more);
        lemma_split_lines_step(first, join_lines(more));
        assert forall|k: int| 0 <= k < more.len() implies break_free(#[trigger] more[k])
            && !ends_with_return(more[k]) by {
            assert(more[k] == lines[k + 1]);
        }
        lemma_split_joined_lines(more);
    }
}

/// Cuts `line` at every comma and returns the pieces in order.
pub fn split_commas(line: &str) -> (fields: Vec<String>)
    ensures
        fields.deep_view() == split_fields(line@),
{
    let mut fields: Vec<String> = Vec::new();
    let mut piece = String::new();
    assert(piece@ + line@.skip(0) =~= line@);
    for c in it: line.chars()
        invariant
            it.seq() == line@,
            comma_free(piece@),
            split_fields(line@) == fields.deep_view() + split_fields(
                piece@ + line@.skip(it.index() as int),
            ),
    {
        let ghost i = it.index() as int;
        let ghost rest = line@.skip(i + 1);
        if c == ',' {
            proof {
                assert(piece@ + line@.skip(i) =~= piece@ + seq![','] + rest);
                lemma_split_step(piece@, ',', rest);
            }
            fields.push(piece);
            piece = String::new();
        } else {
            let ghost before = piece@;
            piece.push(c);
            assert(piece@ + rest =~= before + line@.skip(i));
        }
    }
    proof {
        lemma_split_single(piece@, ',');
    }
    fields.push(piece);
    fields
}

/// What has been read of the current line: the characters kept so far and,
/// if `held` is set, one carriage return that is not yet known to stay.
pub open spec fn line_so_far(kept: Seq<char>, held: bool) -> Seq<char> {
    if held {
        kept.push('\r')
    } else {
        kept
    }
}

/// Cuts `text` into its lines.
pub fn lines_of(text: &str) -> (lines: Vec<String>)
    ensures
        lines.deep_view() == split_lines(text@),
{
    let mut lines: Vec<String> = Vec::new();
    let mut piece = String::new();
    let mut held: bool = false;
    assert(piece@ + text@.skip(0) =~= text@);
    for c in it: text.chars()
        invariant
            it.seq() == text@,
            break_free(piece@),
            !held ==> !ends_with_return(piece@),
            split_lines(text@) == lines.deep_view() + split_lines(
                line_so_far(piece@, held) + text@.skip(it.index() as int),
            ),
    {
        let ghost i = it.index() as int;
        let ghost rest = text@.skip(i + 1);
        let ghost so_far = line_so_far(piece@, held);
        if c == '\n' {
            proof {
                assert(so_far + text@.skip(i) =~= so_far + seq!['\n'] + rest);
                lemma_split_lines_step(so_far, rest);
                assert(without_return(so_far) =~= piece@);
            }
            lines.push(piece);
            piece = String::new();
            held = false;
        } else if c == '\r' {
            if held {
                piece.push('\r');
            }
            held = true;
            assert(line_so_far(piece@, held) + rest =~= so_far + text@.skip(i));
        } else {
            if held {
                piece.push('\r');
                held = false;
            }
            piece.push(c);
            assert(line_so_far(piece@, held) + rest =~= so_far + text@.skip(i));
        }
    }
    if held {
        piece.push('\r');
    }
    proof {
        lemma_split_lines_last(piece@);
    }
    if !piece.as_str().is_empty() {
        lines.push(piece);
    }
    lines
}

/// Writes every one of `lines` followed by a line break.
pub fn text_of_lines(lines: &Vec<String>) -> (text: String)
    ensures
        text@ == join_lines(lines.deep_view()),
{
    let mut text = String::new();
    let mut i: usize = 0;
    while i < lines.len()
        invariant
            i <= lines.len(),
            text@ == join_lines(lines.deep_view().take(i as int)),
        decreases lines.len() - i,
    {
        text.append(lines[i].as_str());
        text.push('\n');
        i += 1;
        assert(lines.deep_view().take(i as int).drop_last() =~= lines.deep_view().take(i - 1));
    }
    assert(lines.deep_view().take(i as int) =~= lines.deep_view());
    text
}

} // verus!
