//! What the pieces, the words and the order of texts are.

use vstd::prelude::*;

verus! {

use crate::text;

/// `pieces`, one behind the other, with `sep` between them.
pub open spec fn joined(pieces: Seq<Seq<char>>, sep: char) -> Seq<char>
    decreases pieces.len(),
{
    if pieces.len() == 0 {
        Seq::empty()
    } else if pieces.len() == 1 {
        pieces[0]
    } else {
        joined(pieces.drop_last(), sep) + seq![sep] + pieces.last()
    }
}

/// The pieces of a text hold no separator, and joined by separators they are the text.
pub proof fn pieces_make_up_the_text(s: Seq<char>, sep: char)
    ensures
        text::split(s, sep).len() > 0,
        joined(text::split(s, sep), sep) == s,
        forall|i: int, j: int|
            0 <= i < text::split(s, sep).len() && 0 <= j < text::split(s, sep)[i].len()
                ==> #[trigger] text::split(s, sep)[i][j] != sep,
    decreases s.len(),
{
    let pieces = text::split(s, sep);
    if s.len() == 0 {
        assert(pieces[0] =~= s);
    } else {
        let short = s.drop_last();
        let before = text::split(short, sep);
        pieces_make_up_the_text(short, sep);
        assert(s =~= short.push(s.last()));
        if s.last() == sep {
            assert(pieces.drop_last() =~= before);
            assert(joined(pieces, sep) =~= joined(before, sep) + seq![sep] + Seq::empty());
            assert(joined(pieces, sep) =~= s);
        } else {
            assert(pieces.drop_last() =~= before.drop_last());
            if before.len() == 1 {
                assert(joined(pieces, sep) =~= s);
            } else {
                let start = joined(before.drop_last(), sep) + seq![sep];
                assert(joined(pieces, sep) =~= (start + before.last()).push(s.last()));
                assert(joined(pieces, sep) =~= s);
            }
        }
        assert forall|i: int, j: int|
            0 <= i < pieces.len() && 0 <= j < pieces[i].len() implies #[trigger] pieces[i][j]
            != sep by {
            if i < before.len() - 1 || s.last() == sep && i < before.len() {
                assert(pieces[i] == before[i]);
            } else if s.last() != sep && j < before.last().len() {
                assert(pieces[i][j] == before[before.len() - 1][j]);
            }
        }
    }
}

/// Pieces without separators that make up a text are its pieces.
pub proof fn a_text_has_but_one_list_of_pieces(pieces: Seq<Seq<char>>, sep: char)
    requires
        pieces.len() > 0,
        forall|i: int, j: int|
            0 <= i < pieces.len() && 0 <= j < pieces[i].len() ==> #[trigger] pieces[i][j] != sep,
    ensures
        text::split(joined(pieces, sep), sep) == pieces,
    decreases pieces.len(),
{
    let last = pieces.last();
    assert forall|j: int| 0 <= j < last.len() implies #[trigger] last[j] != sep by {
        assert(pieces[pieces.len() - 1][j] != sep);
    }
    text::lemma_split_without_separator(last, sep);
    if pieces.len() == 1 {
        assert(pieces =~= seq![last]);
    } else {
        let short = pieces.drop_last();
        assert forall|i: int, j: int|
            0 <= i < short.len() && 0 <= j < short[i].len() implies #[trigger] short[i][j]
            != sep by {
            assert(pieces[i][j] != sep);
        }
        a_text_has_but_one_list_of_pieces(short, sep);
        assert(joined(pieces, sep) =~= joined(short, sep).push(sep) + last);
        text::lemma_split_joined(joined(short, sep), last, sep);
        assert(pieces =~= short + seq![last]);
    }
}

/// A text is white space, the text without the white space at its start, and that begins with
/// no white space.
pub proof fn the_start_is_trimmed(s: Seq<char>)
    ensures
        exists|pad: Seq<char>| #[trigger] is_blank(pad) && s == pad + text::trim_start(s),
        text::trim_start(s).len() > 0 ==> !text::is_white(text::trim_start(s)[0]),
    decreases s.len(),
{
    if s.len() > 0 && text::is_white(s[0]) {
        the_start_is_trimmed(s.drop_first());
        let pad = choose|pad: Seq<char>| #[trigger]
            is_blank(pad) && s.drop_first() == pad + text::trim_start(s.drop_first());
        let more = seq![s[0]] + pad;
        assert(is_blank(more));
        assert(s =~= seq![s[0]] + s.drop_first());
        assert(s =~= more + text::trim_start(s));
    } else {
        assert(is_blank(Seq::empty()));
        assert(s =~= Seq::empty() + text::trim_start(s));
    }
}

/// A text is the text without the white space at its end, which ends with no white space, and
/// white space.
pub proof fn the_end_is_trimmed(s: Seq<char>)
    ensures
        exists|pad: Seq<char>| #[trigger] is_blank(pad) && s == text::trim_end(s) + pad,
        text::trim_end(s).len() > 0 ==> !text::is_white(text::trim_end(s).last()),
    decreases s.len(),
{
    if s.len() > 0 && text::is_white(s.last()) {
        the_end_is_trimmed(s.drop_last());
        let pad = choose|pad: Seq<char>| #[trigger]
            is_blank(pad) && s.drop_last() == text::trim_end(s.drop_last()) + pad;
        let more = pad.push(s.last());
        assert(is_blank(more));
        assert(s =~= s.drop_last().push(s.last()));
        assert(s =~= text::trim_end(s) + more);
    } else {
        assert(is_blank(Seq::empty()));
        assert(s =~= text::trim_end(s) + Seq::empty());
    }
}

/// Whether `s` holds nothing but white space.
pub open spec fn is_blank(s: Seq<char>) -> bool {
    forall|i: int| 0 <= i < s.len() ==> text::is_white(#[trigger] s[i])
}

/// What stands between white space and white space, without any at its own ends, is what is left
/// when both ends are trimmed.
pub proof fn what_stands_between_white_space_is_left(
    before: Seq<char>,
    s: Seq<char>,
    behind: Seq<char>,
)
    requires
        forall|i: int| 0 <= i < before.len() ==> text::is_white(#[trigger] before[i]),
        forall|i: int| 0 <= i < behind.len() ==> text::is_white(#[trigger] behind[i]),
        s.len() > 0 ==> !text::is_white(s[0]) && !text::is_white(s.last()),
    ensures
        text::trim(before + s + behind) == s,
{
    if s.len() == 0 {
        let all = before + s + behind;
        assert forall|i: int| 0 <= i < all.len() implies text::is_white(#[trigger] all[i]) by {
            if i < before.len() {
                assert(all[i] == before[i]);
            } else {
                assert(all[i] == behind[i - before.len()]);
            }
        }
        lemma_blank_start(all, Seq::empty());
        assert(all + Seq::empty() =~= all);
        assert(text::trim(all) =~= s);
    } else {
        assert(before + s + behind =~= before + (s + behind));
        lemma_blank_start(before, s + behind);
        lemma_blank_end(s, behind);
    }
}

/// White space at the start of a text does not matter to what is left when its start is trimmed.
pub proof fn lemma_blank_start(pad: Seq<char>, s: Seq<char>)
    requires
        forall|i: int| 0 <= i < pad.len() ==> text::is_white(#[trigger] pad[i]),
        s.len() > 0 ==> !text::is_white(s[0]),
    ensures
        text::trim_start(pad + s) == s,
    decreases pad.len(),
{
    if pad.len() == 0 {
        assert(pad + s =~= s);
    } else {
        assert(text::is_white(pad[0]));
        assert((pad + s).drop_first() =~= pad.drop_first() + s);
        lemma_blank_start(pad.drop_first(), s);
    }
}

/// White space at the end of a text does not matter to what is left when its end is trimmed.
pub proof fn lemma_blank_end(s: Seq<char>, pad: Seq<char>)
    requires
        forall|i: int| 0 <= i < pad.len() ==> text::is_white(#[trigger] pad[i]),
        s.len() > 0 ==> !text::is_white(s.last()),
    ensures
        text::trim_end(s + pad) == s,
    decreases pad.len(),
{
    if pad.len() == 0 {
        assert(s + pad =~= s);
    } else {
        assert(text::is_white(pad[pad.len() - 1]));
        assert((s + pad).drop_last() =~= s + pad.drop_last());
        lemma_blank_end(s, pad.drop_last());
    }
}

/// The first word of a text stands behind white space; it holds no white space, and what follows
/// it, if anything, begins with white space.
pub proof fn the_first_word_comes_first(gap: Seq<char>, word: Seq<char>, rest: Seq<char>)
    requires
        forall|i: int| 0 <= i < gap.len() ==> text::is_white(#[trigger] gap[i]),
        forall|i: int| 0 <= i < word.len() ==> !text::is_white(#[trigger] word[i]),
        word.len() > 0,
        rest.len() > 0 ==> text::is_white(rest[0]),
    ensures
        text::first_word(gap + word + rest) == word,
{
    assert(gap + word + rest =~= gap + (word + rest));
    assert(!text::is_white(word[0]));
    lemma_blank_start(gap, word + rest);
    text::lemma_word_before_white(word, rest);
}

/// White space has no first word.
pub proof fn white_space_has_no_words(s: Seq<char>)
    requires
        forall|i: int| 0 <= i < s.len() ==> text::is_white(#[trigger] s[i]),
    ensures
        text::first_word(s).len() == 0,
{
    lemma_blank_start(s, Seq::empty());
    assert(s + Seq::empty() =~= s);
}

/// A text occurs in another just where that is some text, the one, and some text behind it.
pub proof fn a_text_occurs_where_it_stands(s: Seq<char>, part: Seq<char>)
    ensures
        text::contains_text(s, part) <==> exists|before: Seq<char>, behind: Seq<char>|
            s == #[trigger] (before + part + behind),
{
    if text::contains_text(s, part) {
        let i = choose|i: int|
            0 <= i <= s.len() - part.len() && #[trigger] s.skip(i).take(part.len() as int) == part;
        let before = s.take(i);
        let behind = s.skip(i + part.len());
        assert(s =~= before + s.skip(i).take(part.len() as int) + behind);
        assert(s == before + part + behind);
    }
    assert forall|before: Seq<char>, behind: Seq<char>|
        s == #[trigger] (before + part + behind) implies text::contains_text(s, part) by {
        assert(s.skip(before.len() as int).take(part.len() as int) =~= part);
    }
}

/// Of two texts that begin alike the one comes first that ends there, or else the one that goes on
/// with the smaller character.
pub proof fn texts_are_ordered_by_their_first_difference(
    start: Seq<char>,
    a: Seq<char>,
    b: Seq<char>,
)
    requires
        a.len() > 0 && b.len() > 0 ==> a[0] != b[0],
    ensures
        text::text_before(start + a, start + b) <==> b.len() > 0 && (a.len() == 0 || a[0] < b[0]),
    decreases start.len(),
{
    if start.len() == 0 {
        assert(start + a =~= a);
        assert(start + b =~= b);
    } else {
        let less = start.drop_first();
        texts_are_ordered_by_their_first_difference(less, a, b);
        assert((start + a).drop_first() =~= less + a);
        assert((start + b).drop_first() =~= less + b);
    }
}

/// In an ascending list each text comes before all behind it, so that none is there twice.
pub proof fn an_ascending_list_holds_nothing_twice(names: Seq<Seq<char>>, i: int, j: int)
    requires
        text::ascending(names),
        0 <= i < j < names.len(),
    ensures
        text::text_before(names[i], names[j]),
        names[i] != names[j],
{
    assert(text::text_before(names[i], names[j]));
    text::lemma_text_order_total(names[i], names[j]);
}

} // verus!
