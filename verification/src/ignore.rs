//! The list of what version control leaves out, as far as one entry of it
//! goes: putting the entry on the list and taking it off. Every other line
//! of the list stays as it was written.

use vstd::prelude::*;
use crate::text::{
    append_chars, find_char, first_index, from_chars, is_blank, lemma_first_index,
    lemma_first_index_at, lemma_first_index_none, lemma_first_index_shift, optional_text,
    same_chars, slice_chars, to_chars, trim_chars, trimmed, trimmed_end, trimmed_start,
};

verus! {

/// The lines of `text` from position `from` on, each with the line feed
/// that ends it; the last line may lack one.
pub open spec fn pieces_from(text: Seq<char>, from: int) -> Seq<Seq<char>>
    decreases text.len() - from,
{
    if from < 0 || from >= text.len() {
        Seq::empty()
    } else {
        let feed = first_index(text, '\n', from);
        if feed >= text.len() {
            seq![text.subrange(from, text.len() as int)]
        } else {
            proof {
                lemma_first_index(text, '\n', from);
            }
            seq![text.subrange(from, feed + 1)] + pieces_from(text, feed + 1)
        }
    }
}

/// The lines of `text`, each with the line feed that ends it.
pub open spec fn pieces_of(text: Seq<char>) -> Seq<Seq<char>> {
    pieces_from(text, 0)
}

/// The pieces, one after the other.
pub open spec fn joined(pieces: Seq<Seq<char>>) -> Seq<char>
    decreases pieces.len(),
{
    if pieces.len() == 0 {
        Seq::empty()
    } else {
        joined(pieces.drop_last()) + pieces.last()
    }
}

/// Whether a line stands for `entry`: it is the entry once the white space
/// around it, its line ending included, is taken off.
pub open spec fn names_entry(piece: Seq<char>, entry: Seq<char>) -> bool {
    trimmed(piece) == entry
}

/// Whether one of the lines stands for `entry`.
pub open spec fn holds_entry(pieces: Seq<Seq<char>>, entry: Seq<char>) -> bool {
    exists|k: int| 0 <= k < pieces.len() && names_entry(#[trigger] pieces[k], entry)
}

/// The lines that do not stand for `entry`, in order and as written.
pub open spec fn without_entry(pieces: Seq<Seq<char>>, entry: Seq<char>) -> Seq<Seq<char>>
    decreases pieces.len(),
{
    if pieces.len() == 0 {
        Seq::empty()
    } else if names_entry(pieces.last(), entry) {
        without_entry(pieces.drop_last(), entry)
    } else {
        without_entry(pieces.drop_last(), entry).push(pieces.last())
    }
}

/// `text` with `entry` on a new last line: a line feed is put in first
/// where the text does not end in one.
pub open spec fn with_entry(text: Seq<char>, entry: Seq<char>) -> Seq<char> {
    if text.len() == 0 || text.last() == '\n' {
        text + entry + seq!['\n']
    } else {
        text + seq!['\n'] + entry + seq!['\n']
    }
}

/// What to write to the list, if anything. To put `entry` on the list:
/// nothing where a line stands for it already; else the present text, with
/// the entry on a new last line. To take it off: the present text without
/// the lines that stand for it, every other line as written; a list that
/// does not exist is left alone.
pub open spec fn ignore_spec(entry: Seq<char>, listed: bool, existing: Option<Seq<char>>) -> Option<
    Seq<char>,
> {
    if listed {
        let text = match existing {
            Some(present) => present,
            None => Seq::empty(),
        };
        if holds_entry(pieces_of(text), entry) {
            None
        } else {
            Some(with_entry(text, entry))
        }
    } else {
        match existing {
            Some(text) => Some(joined(without_entry(pieces_of(text), entry))),
            None => None,
        }
    }
}

/// An entry that can stand on a line of its own: not empty, without a line
/// feed, and without white space at either end.
pub open spec fn is_entry(entry: Seq<char>) -> bool {
    &&& entry.len() > 0
    &&& !is_blank(entry[0])
    &&& !is_blank(entry.last())
    &&& forall|i: int| 0 <= i < entry.len() ==> entry[i] != '\n'
}

/// The views of a list of lines.
pub open spec fn lines_view(lines: Seq<Vec<char>>) -> Seq<Seq<char>> {
    lines.map_values(|l: Vec<char>| l@)
}

/// Splits `text` into its lines, each with the line feed that ends it.
pub fn split_pieces(text: &Vec<char>) -> (pieces: Vec<Vec<char>>)
    ensures
        lines_view(pieces@) == pieces_of(text@),
{
    let mut pieces: Vec<Vec<char>> = Vec::new();
    let mut from: usize = 0;
    while from < text.len()
        invariant
            from <= text.len(),
            lines_view(pieces@) + pieces_from(text@, from as int) == pieces_from(text@, 0),
        decreases text.len() - from,
    {
        let ghost done = lines_view(pieces@);
        let ghost todo = pieces_from(text@, from as int);
        let feed = find_char(text, '\n', from);
        let end: usize = if feed >= text.len() {
            text.len()
        } else {
            feed + 1
        };
        let piece = slice_chars(text, from, end);
        pieces.push(piece);
        assert(lines_view(pieces@) =~= done.push(piece@));
        assert(lines_view(pieces@) + pieces_from(text@, end as int) =~= done + todo);
        from = end;
    }
    assert(lines_view(pieces@) + Seq::<Seq<char>>::empty() =~= lines_view(pieces@));
    pieces
}

/// What to write to the list so that `entry` is on it (`listed`) or off it,
/// given the list's present text; `None` where nothing is to be written.
pub fn update(entry: &str, listed: bool, existing: Option<&str>) -> (text: Option<String>)
    ensures
        match text {
            Some(new) => ignore_spec(entry@, listed, optional_text(existing)) == Some(new@),
            None => ignore_spec(entry@, listed, optional_text(existing)) is None,
        },
{
    let wanted = to_chars(entry);
    let present = match existing {
        Some(text) => to_chars(text),
        None => Vec::new(),
    };
    if !listed && existing.is_none() {
        return None;
    }
    let pieces = split_pieces(&present);
    let ghost all = lines_view(pieces@);
    let mut out: Vec<char> = Vec::new();
    let mut found = false;
    let mut i: usize = 0;
    assert(all.take(0) =~= Seq::<Seq<char>>::empty());
    while i < pieces.len()
        invariant
            i <= pieces.len(),
            all == lines_view(pieces@),
            wanted@ == entry@,
            found == holds_entry(all.take(i as int), entry@),
            out@ == joined(without_entry(all.take(i as int), entry@)),
        decreases pieces.len() - i,
    {
        let ghost before = all.take(i as int);
        let ghost next = all.take(i + 1);
        assert(next.drop_last() =~= before);
        assert(next.last() == pieces@[i as int]@);
        let bare = trim_chars(&pieces[i]);
        let hit = same_chars(&bare, &wanted);
        proof {
            if holds_entry(before, entry@) {
                let k = choose|k: int| 0 <= k < before.len() && names_entry(
                    #[trigger] before[k],
                    entry@,
                );
                assert(next[k] == before[k]);
            }
            if hit {
                assert(names_entry(next[i as int], entry@));
            } else {
                let kept = without_entry(before, entry@);
                assert(!names_entry(next.last(), entry@));
                assert(kept.push(next.last()).drop_last() =~= kept);
            }
            if holds_entry(next, entry@) && !hit {
                let k = choose|k: int| 0 <= k < next.len() && names_entry(
                    #[trigger] next[k],
                    entry@,
                );
                assert(k < i);
                assert(before[k] == next[k]);
            }
        }
        if hit {
            found = true;
        } else {
            append_chars(&mut out, &pieces[i]);
        }
        i += 1;
    }
    assert(all.take(pieces@.len() as int) =~= all);
    if !listed {
        return Some(from_chars(&out));
    }
    if found {
        return None;
    }
    let mut added: Vec<char> = Vec::new();
    append_chars(&mut added, &present);
    if present.len() > 0 && present[present.len() - 1] != '\n' {
        added.push('\n');
    }
    append_chars(&mut added, &wanted);
    added.push('\n');
    assert(added@ =~= with_entry(present@, entry@));
    Some(from_chars(&added))
}

/// A text that a line can follow: it is empty or ends in a line feed.
spec fn is_closed(text: Seq<char>) -> bool {
    text.len() == 0 || text.last() == '\n'
}

/// A line as `pieces_of` gives it: not empty, with no line feed but at its
/// end.
spec fn is_piece(piece: Seq<char>) -> bool {
    &&& piece.len() > 0
    &&& forall|i: int| 0 <= i < piece.len() - 1 ==> piece[i] != '\n'
}

/// Every line is one as `pieces_of` gives it.
spec fn all_pieces(pieces: Seq<Seq<char>>) -> bool {
    forall|k: int| 0 <= k < pieces.len() ==> is_piece(#[trigger] pieces[k])
}

/// Every line ends in a line feed.
spec fn all_closed(pieces: Seq<Seq<char>>) -> bool {
    forall|k: int| 0 <= k < pieces.len() ==> (#[trigger] pieces[k]).len() > 0 && pieces[k].last()
        == '\n'
}

/// The lines of some text: each one a line, and all but the last ending in
/// a line feed.
spec fn is_text(pieces: Seq<Seq<char>>) -> bool {
    &&& all_pieces(pieces)
    &&& pieces.len() > 0 ==> all_closed(pieces.drop_last())
}

proof fn lemma_pieces_shift(head: Seq<char>, tail: Seq<char>, from: int)
    requires
        0 <= from <= tail.len(),
    ensures
        pieces_from(head + tail, head.len() + from) == pieces_from(tail, from),
    decreases tail.len() - from,
{
    let whole = head + tail;
    if from < tail.len() {
        lemma_first_index_shift(head, tail, '\n', from);
        lemma_first_index(tail, '\n', from);
        let feed = first_index(tail, '\n', from);
        if feed < tail.len() {
            lemma_pieces_shift(head, tail, feed + 1);
            assert(whole.subrange(head.len() + from, head.len() + feed + 1) =~= tail.subrange(
                from,
                feed + 1,
            ));
        } else {
            assert(whole.subrange(head.len() + from, whole.len() as int) =~= tail.subrange(
                from,
                tail.len() as int,
            ));
        }
    }
}

proof fn lemma_pieces_concat(head: Seq<char>, tail: Seq<char>, from: int)
    requires
        is_closed(head),
        0 <= from <= head.len(),
    ensures
        pieces_from(head + tail, from) == pieces_from(head, from) + pieces_of(tail),
    decreases head.len() - from,
{
    let whole = head + tail;
    if from == head.len() {
        lemma_pieces_shift(head, tail, 0);
        assert(pieces_from(head, from) + pieces_of(tail) =~= pieces_of(tail));
    } else {
        let feed = first_index(head, '\n', from);
        lemma_first_index(head, '\n', from);
        if feed >= head.len() {
            assert(head[head.len() - 1] != '\n');
        }
        assert forall|k: int| from <= k < feed implies whole[k] != '\n' by {
            assert(whole[k] == head[k]);
        }
        assert(whole[feed] == head[feed]);
        lemma_first_index_at(whole, '\n', from, feed);
        lemma_pieces_concat(head, tail, feed + 1);
        assert(whole.subrange(from, feed + 1) =~= head.subrange(from, feed + 1));
        assert(pieces_from(whole, from) =~= pieces_from(head, from) + pieces_of(tail));
    }
}

proof fn lemma_one_piece(piece: Seq<char>)
    requires
        is_piece(piece),
    ensures
        pieces_of(piece) == seq![piece],
{
    let end = piece.len() as int;
    assert(piece.subrange(0, end) =~= piece);
    if piece.last() == '\n' {
        lemma_first_index_at(piece, '\n', 0, end - 1);
        assert(pieces_from(piece, end) =~= Seq::<Seq<char>>::empty());
        assert(pieces_of(piece) =~= seq![piece]);
    } else {
        lemma_first_index_none(piece, '\n', 0);
    }
}

proof fn lemma_entry_line(entry: Seq<char>)
    requires
        is_entry(entry),
    ensures
        is_piece(entry + seq!['\n']),
        names_entry(entry + seq!['\n'], entry),
{
    let line = entry + seq!['\n'];
    assert(line[0] == entry[0]);
    assert(is_blank('\n'));
    assert(line.drop_last() =~= entry);
    assert(trimmed_start(line) == line);
    assert(trimmed_end(entry) == entry);
    assert(trimmed_end(line) == trimmed_end(line.drop_last()));
    assert forall|i: int| 0 <= i < line.len() - 1 implies line[i] != '\n' by {
        assert(line[i] == entry[i]);
    }
}

/// Putting an entry on the list is idempotent: once the list was written
/// with the entry on it, putting the entry on it again writes nothing.
pub proof fn lemma_listing_settles(entry: Seq<char>, existing: Option<Seq<char>>)
    requires
        is_entry(entry),
        ignore_spec(entry, true, existing) is Some,
    ensures
        ignore_spec(entry, true, ignore_spec(entry, true, existing)) is None,
{
    let text = match existing {
        Some(present) => present,
        None => Seq::empty(),
    };
    let head = if is_closed(text) {
        text
    } else {
        text + seq!['\n']
    };
    let line = entry + seq!['\n'];
    assert(with_entry(text, entry) =~= head + line);
    lemma_pieces_concat(head, line, 0);
    lemma_entry_line(entry);
    lemma_one_piece(line);
    let all = pieces_of(head + line);
    let at = pieces_of(head).len() as int;
    assert(all[at] == line);
    assert(names_entry(all[at], entry));
}

/// Putting an entry on the list keeps what was there: the new text begins
/// with the present one.
pub proof fn lemma_listing_keeps(entry: Seq<char>, text: Seq<char>)
    ensures
        with_entry(text, entry).len() >= text.len(),
        with_entry(text, entry).subrange(0, text.len() as int) == text,
{
    assert(with_entry(text, entry).subrange(0, text.len() as int) =~= text);
}

proof fn lemma_pieces_are_text(text: Seq<char>, from: int)
    requires
        0 <= from <= text.len(),
    ensures
        is_text(pieces_from(text, from)),
    decreases text.len() - from,
{
    let all = pieces_from(text, from);
    if from < text.len() {
        let feed = first_index(text, '\n', from);
        lemma_first_index(text, '\n', from);
        if feed >= text.len() {
            let tail = text.subrange(from, text.len() as int);
            assert forall|i: int| 0 <= i < tail.len() - 1 implies tail[i] != '\n' by {
                assert(tail[i] == text[from + i]);
            }
            assert(all.drop_last() =~= Seq::<Seq<char>>::empty());
        } else {
            let piece = text.subrange(from, feed + 1);
            let rest = pieces_from(text, feed + 1);
            lemma_pieces_are_text(text, feed + 1);
            assert forall|i: int| 0 <= i < piece.len() - 1 implies piece[i] != '\n' by {
                assert(piece[i] == text[from + i]);
            }
            assert(piece.last() == text[feed]);
            assert forall|k: int| 0 <= k < all.len() implies is_piece(#[trigger] all[k]) by {
                if k > 0 {
                    assert(all[k] == rest[k - 1]);
                }
            }
            let front = all.drop_last();
            assert forall|k: int| 0 <= k < front.len() implies (#[trigger] front[k]).len() > 0
                && front[k].last() == '\n' by {
                if k > 0 {
                    assert(front[k] == rest.drop_last()[k - 1]);
                }
            }
        }
    }
}

proof fn lemma_without_closed(pieces: Seq<Seq<char>>, entry: Seq<char>)
    requires
        all_pieces(pieces),
    ensures
        all_pieces(without_entry(pieces, entry)),
        all_closed(pieces) ==> all_closed(without_entry(pieces, entry)),
        forall|k: int|
            0 <= k < without_entry(pieces, entry).len() ==> !names_entry(
                #[trigger] without_entry(pieces, entry)[k],
                entry,
            ),
    decreases pieces.len(),
{
    if pieces.len() > 0 {
        let front = pieces.drop_last();
        assert forall|k: int| 0 <= k < front.len() implies is_piece(#[trigger] front[k]) by {
            assert(front[k] == pieces[k]);
        }
        if all_closed(pieces) {
            assert forall|k: int| 0 <= k < front.len() implies (#[trigger] front[k]).len() > 0
                && front[k].last() == '\n' by {
                assert(front[k] == pieces[k]);
            }
        }
        lemma_without_closed(front, entry);
        let kept = without_entry(pieces, entry);
        let before = without_entry(front, entry);
        assert(pieces.last() == pieces[pieces.len() - 1]);
        assert forall|k: int| 0 <= k < kept.len() implies is_piece(#[trigger] kept[k])
            && !names_entry(kept[k], entry) && (all_closed(pieces) ==> kept[k].len() > 0
            && kept[k].last() == '\n') by {
            if k < before.len() {
                assert(kept[k] == before[k]);
            }
        }
    }
}

proof fn lemma_without_is_text(pieces: Seq<Seq<char>>, entry: Seq<char>)
    requires
        is_text(pieces),
    ensures
        is_text(without_entry(pieces, entry)),
        forall|k: int|
            0 <= k < without_entry(pieces, entry).len() ==> !names_entry(
                #[trigger] without_entry(pieces, entry)[k],
                entry,
            ),
{
    lemma_without_closed(pieces, entry);
    if pieces.len() > 0 {
        let front = pieces.drop_last();
        assert forall|k: int| 0 <= k < front.len() implies is_piece(#[trigger] front[k]) by {
            assert(front[k] == pieces[k]);
        }
        lemma_without_closed(front, entry);
        let kept = without_entry(pieces, entry);
        if !names_entry(pieces.last(), entry) {
            assert(kept.drop_last() =~= without_entry(front, entry));
        } else if kept.len() > 0 {
            let shorter = kept.drop_last();
            assert forall|k: int| 0 <= k < shorter.len() implies (#[trigger] shorter[k]).len() > 0
                && shorter[k].last() == '\n' by {
                assert(shorter[k] == kept[k]);
            }
        }
    }
}

proof fn lemma_joined_closed(pieces: Seq<Seq<char>>)
    requires
        all_closed(pieces),
    ensures
        is_closed(joined(pieces)),
    decreases pieces.len(),
{
    if pieces.len() > 0 {
        assert(pieces.last() == pieces[pieces.len() - 1]);
        assert(joined(pieces).last() == pieces.last().last());
    }
}

proof fn lemma_pieces_of_joined(pieces: Seq<Seq<char>>)
    requires
        is_text(pieces),
    ensures
        pieces_of(joined(pieces)) == pieces,
    decreases pieces.len(),
{
    if pieces.len() == 0 {
        assert(pieces_of(joined(pieces)) =~= pieces);
    } else {
        let front = pieces.drop_last();
        let last = pieces.last();
        assert(last == pieces[pieces.len() - 1]);
        assert forall|k: int| 0 <= k < front.len() implies is_piece(#[trigger] front[k]) by {
            assert(front[k] == pieces[k]);
        }
        if front.len() > 0 {
            let shorter = front.drop_last();
            assert forall|k: int| 0 <= k < shorter.len() implies (#[trigger] shorter[k]).len() > 0
                && shorter[k].last() == '\n' by {
                assert(shorter[k] == front[k]);
            }
        }
        lemma_pieces_of_joined(front);
        lemma_joined_closed(front);
        lemma_pieces_concat(joined(front), last, 0);
        lemma_one_piece(last);
        assert(front + seq![last] =~= pieces);
    }
}

proof fn lemma_without_nothing(pieces: Seq<Seq<char>>, entry: Seq<char>)
    requires
        forall|k: int| 0 <= k < pieces.len() ==> !names_entry(#[trigger] pieces[k], entry),
    ensures
        without_entry(pieces, entry) == pieces,
    decreases pieces.len(),
{
    if pieces.len() > 0 {
        let front = pieces.drop_last();
        assert forall|k: int| 0 <= k < front.len() implies !names_entry(
            #[trigger] front[k],
            entry,
        ) by {
            assert(front[k] == pieces[k]);
        }
        lemma_without_nothing(front, entry);
        assert(pieces.last() == pieces[pieces.len() - 1]);
        assert(front.push(pieces.last()) =~= pieces);
    } else {
        assert(without_entry(pieces, entry) =~= pieces);
    }
}

proof fn lemma_joined_front(first: Seq<char>, rest: Seq<Seq<char>>)
    ensures
        joined(seq![first] + rest) == first + joined(rest),
    decreases rest.len(),
{
    let all = seq![first] + rest;
    if rest.len() == 0 {
        assert(all.drop_last() =~= Seq::<Seq<char>>::empty());
        assert(joined(all.drop_last()) =~= Seq::<char>::empty());
        assert(joined(all) =~= first + joined(rest));
    } else {
        lemma_joined_front(first, rest.drop_last());
        assert(all.drop_last() =~= seq![first] + rest.drop_last());
        assert(all.last() == rest.last());
        assert(joined(all) =~= first + joined(rest));
    }
}

proof fn lemma_pieces_lossless(text: Seq<char>, from: int)
    requires
        0 <= from <= text.len(),
    ensures
        joined(pieces_from(text, from)) == text.subrange(from, text.len() as int),
    decreases text.len() - from,
{
    let end = text.len() as int;
    if from < end {
        let feed = first_index(text, '\n', from);
        lemma_first_index(text, '\n', from);
        if feed >= end {
            lemma_joined_front(text.subrange(from, end), Seq::empty());
            assert(seq![text.subrange(from, end)] + Seq::<Seq<char>>::empty() =~= seq![
                text.subrange(from, end),
            ]);
            assert(joined(Seq::<Seq<char>>::empty()) =~= Seq::<char>::empty());
            assert(joined(pieces_from(text, from)) =~= text.subrange(from, end));
        } else {
            lemma_pieces_lossless(text, feed + 1);
            lemma_joined_front(text.subrange(from, feed + 1), pieces_from(text, feed + 1));
            assert(text.subrange(from, feed + 1) + text.subrange(feed + 1, end) =~= text.subrange(
                from,
                end,
            ));
        }
    } else {
        assert(joined(pieces_from(text, from)) =~= text.subrange(from, end));
    }
}

/// Taking an entry off a list that does not hold it leaves the list as it
/// is.
pub proof fn lemma_unlisting_absent(entry: Seq<char>, text: Seq<char>)
    requires
        !holds_entry(pieces_of(text), entry),
    ensures
        ignore_spec(entry, false, Some(text)) == Some(text),
{
    let all = pieces_of(text);
    assert forall|k: int| 0 <= k < all.len() implies !names_entry(#[trigger] all[k], entry) by {}
    lemma_without_nothing(all, entry);
    lemma_pieces_lossless(text, 0);
    assert(text.subrange(0, text.len() as int) =~= text);
}

/// Taking an entry off the list is idempotent: the text that is written
/// holds no line that stands for the entry, and taking the entry off again
/// writes the same text.
pub proof fn lemma_unlisting_settles(entry: Seq<char>, text: Seq<char>)
    ensures
        !holds_entry(pieces_of(ignore_spec(entry, false, Some(text))->0), entry),
        ignore_spec(entry, false, ignore_spec(entry, false, Some(text))) == ignore_spec(
            entry,
            false,
            Some(text),
        ),
{
    let kept = without_entry(pieces_of(text), entry);
    lemma_pieces_are_text(text, 0);
    lemma_without_is_text(pieces_of(text), entry);
    lemma_pieces_of_joined(kept);
    lemma_without_nothing(kept, entry);
}

/// Taking an entry off the list takes off its lines only: every line that
/// is written was a line of the list, as written, and every line of the
/// list that does not stand for the entry is written.
pub proof fn lemma_unlisting_keeps(entry: Seq<char>, text: Seq<char>)
    ensures
        pieces_of(ignore_spec(entry, false, Some(text))->0) == without_entry(pieces_of(text), entry),
{
    lemma_pieces_are_text(text, 0);
    lemma_without_is_text(pieces_of(text), entry);
    lemma_pieces_of_joined(without_entry(pieces_of(text), entry));
}

} // verus!
