//! Reading a text back: its pieces between separators, and its lines.

use crate::layout::text_of;
use vstd::prelude::*;

verus! {

/// Whether `sep` does not occur in `text`.
pub open spec fn free_of(text: Seq<char>, sep: char) -> bool {
    forall|i: int| 0 <= i < text.len() ==> #[trigger] text[i] != sep
}

/// Whether no line holds a line feed.
pub open spec fn feed_free(lines: Seq<Seq<char>>) -> bool {
    forall|k: int| 0 <= k < lines.len() ==> free_of(#[trigger] lines[k], '\n')
}

/// The place of the first `sep` in `text`, or the length of `text` if there
/// is none.
pub open spec fn first_at(text: Seq<char>, sep: char) -> int
    decreases text.len(),
{
    if text.len() == 0 || text[0] == sep {
        0
    } else {
        1 + first_at(text.drop_first(), sep)
    }
}

/// The pieces of `text` between the occurrences of `sep`: one more than
/// there are occurrences, empty pieces included.
pub open spec fn split(text: Seq<char>, sep: char) -> Seq<Seq<char>>
    decreases text.len(),
{
    let cut = first_at(text, sep);
    if cut < 0 || cut >= text.len() {
        seq![text]
    } else {
        seq![text.subrange(0, cut)] + split(text.subrange(cut + 1, text.len() as int), sep)
    }
}

/// The lines of a text: its pieces between line feeds, without the empty
/// piece after a final line feed.
pub open spec fn lines_of(text: Seq<char>) -> Seq<Seq<char>> {
    let pieces = split(text, '\n');
    if pieces.last().len() == 0 {
        pieces.drop_last()
    } else {
        pieces
    }
}

/// `first_at` is the least place of `sep`.
pub proof fn lemma_first_at(text: Seq<char>, sep: char)
    ensures
        0 <= first_at(text, sep) <= text.len(),
        first_at(text, sep) < text.len() ==> text[first_at(text, sep)] == sep,
        forall|i: int| 0 <= i < first_at(text, sep) ==> #[trigger] text[i] != sep,
    decreases text.len(),
{
    if text.len() != 0 && text[0] != sep {
        let rest = text.drop_first();
        lemma_first_at(rest, sep);
        assert forall|i: int| 0 <= i < first_at(text, sep) implies #[trigger] text[i] != sep by {
            if i > 0 {
                assert(text[i] == rest[i - 1]);
            }
        }
    }
}

/// The least place of `sep` is `first_at`.
pub proof fn lemma_first_at_is(text: Seq<char>, sep: char, place: int)
    requires
        0 <= place <= text.len(),
        place < text.len() ==> text[place] == sep,
        forall|i: int| 0 <= i < place ==> #[trigger] text[i] != sep,
    ensures
        first_at(text, sep) == place,
{
    lemma_first_at(text, sep);
    let found = first_at(text, sep);
    if found < place {
        assert(text[found] != sep);
    } else if place < found {
        assert(text[place] != sep);
    }
}

/// A text always has at least one piece.
pub proof fn lemma_split_nonempty(text: Seq<char>, sep: char)
    ensures
        split(text, sep).len() >= 1,
{
}

/// A text without separator is its own single piece.
pub proof fn lemma_split_plain(text: Seq<char>, sep: char)
    requires
        free_of(text, sep),
    ensures
        split(text, sep) == seq![text],
{
    lemma_first_at_is(text, sep, text.len() as int);
}

/// Text without separator, added at the end, lengthens the last piece.
pub proof fn lemma_split_extend(text: Seq<char>, more: Seq<char>, sep: char)
    requires
        free_of(more, sep),
    ensures
        split(text + more, sep) == split(text, sep).drop_last().push(
            split(text, sep).last() + more,
        ),
    decreases text.len(),
{
    lemma_first_at(text, sep);
    let cut = first_at(text, sep);
    let whole = text + more;
    if cut >= text.len() {
        assert(free_of(whole, sep)) by {
            assert forall|i: int| 0 <= i < whole.len() implies #[trigger] whole[i] != sep by {
                if i < text.len() {
                    assert(whole[i] == text[i]);
                } else {
                    assert(whole[i] == more[i - text.len()]);
                }
            }
        }
        lemma_split_plain(whole, sep);
        assert(seq![text].drop_last().push(seq![text].last() + more) =~= seq![whole]);
    } else {
        assert(whole[cut] == text[cut]);
        assert forall|i: int| 0 <= i < cut implies #[trigger] whole[i] != sep by {
            assert(whole[i] == text[i]);
        }
        lemma_first_at_is(whole, sep, cut);
        let tail = text.subrange(cut + 1, text.len() as int);
        lemma_split_extend(tail, more, sep);
        lemma_split_nonempty(tail, sep);
        assert(whole.subrange(0, cut) =~= text.subrange(0, cut));
        assert(whole.subrange(cut + 1, whole.len() as int) =~= tail + more);
        let head = seq![text.subrange(0, cut)];
        let pieces = split(tail, sep);
        assert(split(text, sep) == head + pieces);
        assert(split(whole, sep) == head + split(tail + more, sep));
        assert((head + pieces).drop_last() =~= head + pieces.drop_last());
        assert((head + pieces).last() == pieces.last());
        assert(head + pieces.drop_last().push(pieces.last() + more) =~= (head
            + pieces.drop_last()).push(pieces.last() + more));
    }
}

/// A separator added at the end opens a new, empty piece.
pub proof fn lemma_split_push(text: Seq<char>, sep: char)
    ensures
        split(text.push(sep), sep) == split(text, sep).push(Seq::empty()),
    decreases text.len(),
{
    lemma_first_at(text, sep);
    let cut = first_at(text, sep);
    let whole = text.push(sep);
    assert forall|i: int| 0 <= i < cut implies #[trigger] whole[i] != sep by {
        assert(whole[i] == text[i]);
    }
    if cut >= text.len() {
        lemma_first_at_is(whole, sep, cut);
        assert(whole.subrange(0, cut) =~= text);
        assert(whole.subrange(cut + 1, whole.len() as int) =~= Seq::<char>::empty());
        lemma_split_plain(Seq::<char>::empty(), sep);
        assert(split(whole, sep) == seq![text] + seq![Seq::<char>::empty()]);
        assert(seq![text] + seq![Seq::<char>::empty()] =~= seq![text].push(Seq::empty()));
    } else {
        assert(whole[cut] == text[cut]);
        lemma_first_at_is(whole, sep, cut);
        let tail = text.subrange(cut + 1, text.len() as int);
        lemma_split_push(tail, sep);
        assert(whole.subrange(0, cut) =~= text.subrange(0, cut));
        assert(whole.subrange(cut + 1, whole.len() as int) =~= tail.push(sep));
        let head = seq![text.subrange(0, cut)];
        assert(split(whole, sep) == head + split(tail.push(sep), sep));
        assert(head + split(tail, sep).push(Seq::empty()) =~= (head + split(tail, sep)).push(
            Seq::empty(),
        ));
    }
}

/// The pieces of a text made of lines are those lines, and one empty piece
/// after the final line feed.
pub proof fn lemma_split_text_of(lines: Seq<Seq<char>>)
    requires
        feed_free(lines),
    ensures
        split(text_of(lines), '\n') == lines.push(Seq::empty()),
    decreases lines.len(),
{
    if lines.len() == 0 {
        lemma_split_plain(Seq::<char>::empty(), '\n');
        assert(seq![Seq::<char>::empty()] =~= lines.push(Seq::empty()));
    } else {
        let before = lines.drop_last();
        let line = lines.last();
        assert(feed_free(before)) by {
            assert forall|k: int| 0 <= k < before.len() implies free_of(
                #[trigger] before[k],
                '\n',
            ) by {
                assert(before[k] == lines[k]);
            }
        }
        lemma_split_text_of(before);
        lemma_split_extend(text_of(before), line, '\n');
        lemma_split_push(text_of(before) + line, '\n');
        assert(text_of(lines) =~= (text_of(before) + line).push('\n'));
        assert(before.push(Seq::<char>::empty()).drop_last() =~= before);
        assert(Seq::<char>::empty() + line =~= line);
        assert(before.push(line) =~= lines);
    }
}

/// A text made of lines reads back as those lines.
pub proof fn lemma_lines_of_text(lines: Seq<Seq<char>>)
    requires
        feed_free(lines),
    ensures
        lines_of(text_of(lines)) == lines,
{
    lemma_split_text_of(lines);
    assert(lines.push(Seq::<char>::empty()).drop_last() =~= lines);
}

/// A text made of lines and a last line that is not ended reads back as
/// those lines and the last one.
pub proof fn lemma_lines_of_open_text(lines: Seq<Seq<char>>, last: Seq<char>)
    requires
        feed_free(lines),
        free_of(last, '\n'),
        last.len() > 0,
    ensures
        lines_of(text_of(lines) + last) == lines.push(last),
{
    lemma_split_text_of(lines);
    lemma_split_extend(text_of(lines), last, '\n');
    assert(lines.push(Seq::<char>::empty()).drop_last() =~= lines);
    assert(Seq::<char>::empty() + last =~= last);
}

} // verus!
