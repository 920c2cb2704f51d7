//! Text as sequences of characters: white space, words, pieces and order.

use vstd::prelude::*;

verus! {

/// Whether `c` has the Unicode property `White_Space`.
pub open spec fn is_white(c: char) -> bool {
    ||| '\u{9}' <= c <= '\u{d}'
    ||| c == '\u{20}'
    ||| c == '\u{85}'
    ||| c == '\u{a0}'
    ||| c == '\u{1680}'
    ||| '\u{2000}' <= c <= '\u{200a}'
    ||| c == '\u{2028}'
    ||| c == '\u{2029}'
    ||| c == '\u{202f}'
    ||| c == '\u{205f}'
    ||| c == '\u{3000}'
}

/// `s` without the white space at its start.
pub open spec fn trim_start(s: Seq<char>) -> Seq<char>
    decreases s.len(),
{
    if s.len() > 0 && is_white(s[0]) {
        trim_start(s.drop_first())
    } else {
        s
    }
}

/// `s` without the white space at its end.
pub open spec fn trim_end(s: Seq<char>) -> Seq<char>
    decreases s.len(),
{
    if s.len() > 0 && is_white(s.last()) {
        trim_end(s.drop_last())
    } else {
        s
    }
}

/// `s` without the white space at either end.
pub open spec fn trim(s: Seq<char>) -> Seq<char> {
    trim_end(trim_start(s))
}

/// The longest start of `s` that holds no white space.
pub open spec fn leading_word(s: Seq<char>) -> Seq<char>
    decreases s.len(),
{
    if s.len() == 0 || is_white(s[0]) {
        Seq::empty()
    } else {
        seq![s[0]] + leading_word(s.drop_first())
    }
}

/// The first word of `s`: empty where `s` holds nothing but white space.
pub open spec fn first_word(s: Seq<char>) -> Seq<char> {
    leading_word(trim_start(s))
}

/// The pieces of `s` between the occurrences of `sep`; there is always at least one.
pub open spec fn split(s: Seq<char>, sep: char) -> Seq<Seq<char>>
    decreases s.len(),
{
    if s.len() == 0 {
        seq![Seq::empty()]
    } else {
        let before = split(s.drop_last(), sep);
        if s.last() == sep {
            before.push(Seq::empty())
        } else {
            before.drop_last().push(before.last().push(s.last()))
        }
    }
}

/// Whether `part` occurs somewhere in `s`.
pub open spec fn contains_text(s: Seq<char>, part: Seq<char>) -> bool {
    exists|i: int|
        0 <= i <= s.len() - part.len() && #[trigger] s.skip(i).take(part.len() as int) == part
}

/// Order by the first character that differs; a text comes before its continuations.
pub open spec fn text_before(a: Seq<char>, b: Seq<char>) -> bool
    decreases a.len(),
{
    if b.len() == 0 {
        false
    } else if a.len() == 0 {
        true
    } else if a[0] == b[0] {
        text_before(a.drop_first(), b.drop_first())
    } else {
        a[0] < b[0]
    }
}

/// Whether each of `names` comes before those behind it, so that none occurs twice.
pub open spec fn ascending(names: Seq<Seq<char>>) -> bool {
    forall|i: int, j: int| 0 <= i < j < names.len() ==> #[trigger] text_before(names[i], names[j])
}

/// Of two different texts one comes before the other, and none comes before itself.
pub proof fn lemma_text_order_total(a: Seq<char>, b: Seq<char>)
    ensures
        text_before(a, b) || text_before(b, a) || a == b,
        !(text_before(a, b) && text_before(b, a)),
        a == b ==> !text_before(a, b),
    decreases a.len(),
{
    if a.len() > 0 && b.len() > 0 && a[0] == b[0] {
        lemma_text_order_total(a.drop_first(), b.drop_first());
        if a.drop_first() == b.drop_first() {
            assert(a =~= seq![a[0]] + a.drop_first());
            assert(b =~= seq![b[0]] + b.drop_first());
        }
    } else if a.len() == 0 && b.len() == 0 {
        assert(a =~= b);
    }
}

/// The order of texts is transitive.
pub proof fn lemma_text_order_transitive(a: Seq<char>, b: Seq<char>, c: Seq<char>)
    requires
        text_before(a, b),
        text_before(b, c),
    ensures
        text_before(a, c),
    decreases a.len(),
{
    if a.len() > 0 && a[0] == b[0] && b[0] == c[0] {
        lemma_text_order_transitive(a.drop_first(), b.drop_first(), c.drop_first());
    }
}

/// Ascending lists with the same members are the same list.
pub proof fn ascending_lists_are_settled_by_their_members(a: Seq<Seq<char>>, b: Seq<Seq<char>>)
    requires
        ascending(a),
        ascending(b),
        a.to_set() == b.to_set(),
    ensures
        a == b,
    decreases a.len(),
{
    if a.len() == 0 {
        if b.len() > 0 {
            assert(b.to_set().contains(b[0]));
            assert(a.contains(b[0]));
        }
        assert(a =~= b);
    } else if b.len() == 0 {
        assert(a.to_set().contains(a[0]));
        assert(b.contains(a[0]));
    } else {
        let x = a.last();
        let y = b.last();
        assert(a.to_set().contains(a[a.len() - 1]));
        assert(b.to_set().contains(b[b.len() - 1]));
        let i = choose|i: int| 0 <= i < b.len() && b[i] == x;
        let j = choose|j: int| 0 <= j < a.len() && a[j] == y;
        lemma_text_order_total(x, y);
        if x != y {
            assert(text_before(b[i], b[b.len() - 1]));
            assert(text_before(a[j], a[a.len() - 1]));
        }
        let short_a = a.drop_last();
        let short_b = b.drop_last();
        assert forall|k: Seq<char>| short_a.to_set().contains(k) == short_b.to_set().contains(k) by {
            lemma_text_order_total(k, x);
            if short_a.contains(k) {
                let m = choose|m: int| 0 <= m < short_a.len() && short_a[m] == k;
                assert(text_before(a[m], a[a.len() - 1]));
                assert(a.to_set().contains(a[m]));
                let n = choose|n: int| 0 <= n < b.len() && b[n] == k;
                assert(short_b[n] == k);
            }
            if short_b.contains(k) {
                let m = choose|m: int| 0 <= m < short_b.len() && short_b[m] == k;
                assert(text_before(b[m], b[b.len() - 1]));
                assert(b.to_set().contains(b[m]));
                let n = choose|n: int| 0 <= n < a.len() && a[n] == k;
                assert(short_a[n] == k);
            }
        }
        assert forall|m: int, n: int| 0 <= m < n < short_a.len() implies #[trigger] text_before(
            short_a[m],
            short_a[n],
        ) by {
            assert(text_before(a[m], a[n]));
        }
        assert forall|m: int, n: int| 0 <= m < n < short_b.len() implies #[trigger] text_before(
            short_b[m],
            short_b[n],
        ) by {
            assert(text_before(b[m], b[n]));
        }
        assert(short_a.to_set() =~= short_b.to_set());
        ascending_lists_are_settled_by_their_members(short_a, short_b);
        assert(a =~= short_a.push(x));
        assert(b =~= short_b.push(y));
    }
}

/// How the pieces of a text change as it grows by one character.
pub proof fn lemma_split_grows(s: Seq<char>, from: int, i: int, sep: char)
    requires
        0 <= from <= i < s.len(),
    ensures
        split(s.subrange(from, i + 1), sep) == if s[i] == sep {
            split(s.subrange(from, i), sep).push(Seq::empty())
        } else {
            split(s.subrange(from, i), sep).drop_last().push(
                split(s.subrange(from, i), sep).last().push(s[i]),
            )
        },
{
    assert(s.subrange(from, i + 1).drop_last() =~= s.subrange(from, i));
}

/// The pieces of two texts with a separator between them.
pub proof fn lemma_split_joined(a: Seq<char>, b: Seq<char>, sep: char)
    ensures
        split(a.push(sep) + b, sep) == split(a, sep) + split(b, sep),
        split(b, sep).len() > 0,
    decreases b.len(),
{
    let whole = a.push(sep) + b;
    if b.len() == 0 {
        assert(whole =~= a.push(sep));
        assert(whole.drop_last() =~= a);
        assert(split(whole, sep) =~= split(a, sep) + split(b, sep));
    } else {
        lemma_split_joined(a, b.drop_last(), sep);
        assert(whole.drop_last() =~= a.push(sep) + b.drop_last());
        assert(whole.last() == b.last());
        assert(split(whole, sep) =~= split(a, sep) + split(b, sep));
    }
}

/// A word holds no white space.
pub proof fn lemma_leading_word_has_no_white(s: Seq<char>)
    ensures
        forall|i: int| 0 <= i < leading_word(s).len() ==> !is_white(#[trigger] leading_word(s)[i]),
    decreases s.len(),
{
    if s.len() > 0 && !is_white(s[0]) {
        let rest = leading_word(s.drop_first());
        lemma_leading_word_has_no_white(s.drop_first());
        assert forall|i: int| 0 <= i < leading_word(s).len() implies !is_white(
            #[trigger] leading_word(s)[i],
        ) by {
            if i > 0 {
                assert(leading_word(s)[i] == rest[i - 1]);
            }
        }
    }
}

/// A stretch of a text occurs in it.
pub proof fn lemma_stretch_occurs(s: Seq<char>, from: int, to: int)
    requires
        0 <= from <= to <= s.len(),
    ensures
        contains_text(s, s.subrange(from, to)),
{
    let part = s.subrange(from, to);
    assert(s.skip(from).take(part.len() as int) =~= part);
}

/// What occurs in a part of a text occurs in the text.
pub proof fn lemma_occurrence_transitive(s: Seq<char>, part: Seq<char>, piece: Seq<char>)
    requires
        contains_text(s, part),
        contains_text(part, piece),
    ensures
        contains_text(s, piece),
{
    let i = choose|i: int|
        0 <= i <= s.len() - part.len() && #[trigger] s.skip(i).take(part.len() as int) == part;
    let j = choose|j: int|
        0 <= j <= part.len() - piece.len() && #[trigger] part.skip(j).take(piece.len() as int)
            == piece;
    assert(s.skip(i + j).take(piece.len() as int) =~= s.skip(i).take(part.len() as int).skip(
        j,
    ).take(piece.len() as int));
}

/// What is left of a text without the white space at its ends occurs in it.
pub proof fn lemma_trimmed_occurs(s: Seq<char>)
    ensures
        contains_text(s, trim_start(s)),
        contains_text(s, trim_end(s)),
    decreases s.len(),
{
    lemma_stretch_occurs(s, 0, s.len() as int);
    assert(s.subrange(0, s.len() as int) =~= s);
    if s.len() > 0 {
        lemma_stretch_occurs(s, 1, s.len() as int);
        lemma_stretch_occurs(s, 0, s.len() - 1);
        lemma_trimmed_occurs(s.drop_first());
        lemma_trimmed_occurs(s.drop_last());
        assert(s.drop_first() =~= s.subrange(1, s.len() as int));
        assert(s.drop_last() =~= s.subrange(0, s.len() - 1));
        lemma_occurrence_transitive(s, s.drop_first(), trim_start(s.drop_first()));
        lemma_occurrence_transitive(s, s.drop_last(), trim_end(s.drop_last()));
    }
}

/// The leading word of a text is its start.
pub proof fn lemma_leading_word_leads(s: Seq<char>)
    ensures
        leading_word(s).is_prefix_of(s),
    decreases s.len(),
{
    if s.len() > 0 && !is_white(s[0]) {
        lemma_leading_word_leads(s.drop_first());
        let rest = leading_word(s.drop_first());
        assert(forall|i: int| 0 <= i < rest.len() ==> rest[i] == s.drop_first()[i]);
        assert(leading_word(s) =~= s.subrange(0, leading_word(s).len() as int));
    } else {
        assert(leading_word(s) =~= s.subrange(0, 0));
    }
}

/// The first word of a text occurs in it.
pub proof fn lemma_first_word_occurs(s: Seq<char>)
    ensures
        contains_text(s, first_word(s)),
{
    let trimmed = trim_start(s);
    lemma_trimmed_occurs(s);
    lemma_leading_word_leads(trimmed);
    lemma_stretch_occurs(trimmed, 0, first_word(s).len() as int);
    lemma_occurrence_transitive(s, trimmed, first_word(s));
}

/// The leading word of a word with white space behind it is the word.
pub proof fn lemma_word_before_white(word: Seq<char>, rest: Seq<char>)
    requires
        forall|i: int| 0 <= i < word.len() ==> !is_white(#[trigger] word[i]),
        rest.len() > 0 ==> is_white(rest[0]),
    ensures
        leading_word(word + rest) == word,
    decreases word.len(),
{
    if word.len() == 0 {
        assert(word + rest =~= rest);
        assert(leading_word(word + rest) =~= word);
    } else {
        lemma_word_before_white(word.drop_first(), rest);
        assert((word + rest).drop_first() =~= word.drop_first() + rest);
        assert(leading_word(word + rest) =~= word);
    }
}

/// Each piece between separators is a stretch of the text, and the last one is its end.
pub proof fn lemma_pieces_occur(s: Seq<char>, sep: char)
    ensures
        split(s, sep).len() > 0,
        forall|i: int|
            0 <= i < split(s, sep).len() ==> contains_text(s, #[trigger] split(s, sep)[i]),
        split(s, sep).last().is_suffix_of(s),
    decreases s.len(),
{
    if s.len() == 0 {
        lemma_stretch_occurs(s, 0, 0);
        assert(s.subrange(0, 0) =~= s);
        assert(split(s, sep)[0] =~= s);
    } else {
        let short = s.drop_last();
        let before = split(short, sep);
        lemma_pieces_occur(short, sep);
        lemma_stretch_occurs(s, 0, s.len() - 1);
        assert(short =~= s.subrange(0, s.len() - 1));
        let last = split(s, sep).last();
        assert(last =~= s.subrange(s.len() - last.len(), s.len() as int));
        lemma_stretch_occurs(s, s.len() - last.len(), s.len() as int);
        assert forall|i: int| 0 <= i < split(s, sep).len() implies contains_text(
            s,
            #[trigger] split(s, sep)[i],
        ) by {
            if i < split(s, sep).len() - 1 {
                assert(split(s, sep)[i] == before[i]);
                lemma_occurrence_transitive(s, short, before[i]);
            }
        }
    }
}

/// A text without a separator is one piece.
pub proof fn lemma_split_without_separator(s: Seq<char>, sep: char)
    requires
        forall|i: int| 0 <= i < s.len() ==> #[trigger] s[i] != sep,
    ensures
        split(s, sep) == seq![s],
    decreases s.len(),
{
    if s.len() == 0 {
        assert(split(s, sep)[0] =~= s);
    } else {
        lemma_split_without_separator(s.drop_last(), sep);
        assert(s.last() == s[s.len() - 1]);
        assert(s.drop_last().push(s.last()) =~= s);
        assert(split(s, sep) =~= seq![s]);
    }
}

/// The characters of `s`, in order.
pub fn characters(s: &str) -> (r: Vec<char>)
    ensures
        r@ == s@,
{
    let mut r: Vec<char> = Vec::new();
    for c in it: s.chars()
        invariant
            r@ == s@.take(it.index() as int),
            it.seq() == s@,
    {
        r.push(c);
    }
    r
}

/// Whether `c` is white space.
pub fn white(c: char) -> (r: bool)
    ensures
        r == is_white(c),
{
    ('\u{9}' <= c && c <= '\u{d}') || c == '\u{20}' || c == '\u{85}' || c == '\u{a0}' || c
        == '\u{1680}' || ('\u{2000}' <= c && c <= '\u{200a}') || c == '\u{2028}' || c
        == '\u{2029}' || c == '\u{202f}' || c == '\u{205f}' || c == '\u{3000}'
}

/// Where the text at `from..to` begins once the white space at its start is left out.
pub fn skip_white(chars: &Vec<char>, from: usize, to: usize) -> (r: usize)
    requires
        from <= to <= chars@.len(),
    ensures
        from <= r <= to,
        chars@.subrange(r as int, to as int) == trim_start(chars@.subrange(from as int, to as int)),
{
    let mut i: usize = from;
    while i < to && white(chars[i])
        invariant
            from <= i <= to <= chars@.len(),
            trim_start(chars@.subrange(i as int, to as int)) == trim_start(
                chars@.subrange(from as int, to as int),
            ),
        decreases to - i,
    {
        assert(chars@.subrange(i as int, to as int).drop_first() =~= chars@.subrange(
            i + 1,
            to as int,
        ));
        i = i + 1;
    }
    i
}

/// Where the text at `from..to` ends once the white space at its end is left out.
pub fn skip_white_back(chars: &Vec<char>, from: usize, to: usize) -> (r: usize)
    requires
        from <= to <= chars@.len(),
    ensures
        from <= r <= to,
        chars@.subrange(from as int, r as int) == trim_end(chars@.subrange(from as int, to as int)),
{
    let mut i: usize = to;
    while from < i && white(chars[i - 1])
        invariant
            from <= i <= to <= chars@.len(),
            trim_end(chars@.subrange(from as int, i as int)) == trim_end(
                chars@.subrange(from as int, to as int),
            ),
        decreases i,
    {
        assert(chars@.subrange(from as int, i as int).drop_last() =~= chars@.subrange(
            from as int,
            i - 1,
        ));
        i = i - 1;
    }
    i
}

/// Where the word that starts at `from` ends.
pub fn word_end(chars: &Vec<char>, from: usize, to: usize) -> (r: usize)
    requires
        from <= to <= chars@.len(),
    ensures
        from <= r <= to,
        chars@.subrange(from as int, r as int) == leading_word(
            chars@.subrange(from as int, to as int),
        ),
{
    let mut i: usize = from;
    while i < to && !white(chars[i])
        invariant
            from <= i <= to <= chars@.len(),
            leading_word(chars@.subrange(from as int, to as int)) == chars@.subrange(
                from as int,
                i as int,
            ) + leading_word(chars@.subrange(i as int, to as int)),
        decreases to - i,
    {
        assert(chars@.subrange(i as int, to as int).drop_first() =~= chars@.subrange(
            i + 1,
            to as int,
        ));
        assert(chars@.subrange(from as int, i + 1) =~= chars@.subrange(from as int, i as int)
            + seq![chars@[i as int]]);
        assert(leading_word(chars@.subrange(i as int, to as int)) == seq![chars@[i as int]]
            + leading_word(chars@.subrange(i + 1, to as int)));
        i = i + 1;
    }
    assert(leading_word(chars@.subrange(i as int, to as int)) =~= Seq::empty());
    i
}

/// Whether the text at `from..to` starts with `prefix`.
pub fn begins_with(chars: &Vec<char>, from: usize, to: usize, prefix: &Vec<char>) -> (r: bool)
    requires
        from <= to <= chars@.len(),
    ensures
        r == prefix@.is_prefix_of(chars@.subrange(from as int, to as int)),
{
    if to - from < prefix.len() {
        return false;
    }
    let ghost s = chars@.subrange(from as int, to as int);
    let mut i: usize = 0;
    while i < prefix.len()
        invariant
            i <= prefix@.len() <= to - from,
            from <= to <= chars@.len(),
            s == chars@.subrange(from as int, to as int),
            forall|j: int| 0 <= j < i ==> prefix@[j] == s[j],
        decreases prefix@.len() - i,
    {
        assert(s[i as int] == chars@[from + i]);
        if chars[from + i] != prefix[i] {
            assert(s.subrange(0, prefix@.len() as int)[i as int] != prefix@[i as int]);
            return false;
        }
        i = i + 1;
    }
    assert(prefix@ =~= s.subrange(0, prefix@.len() as int));
    true
}

/// Whether `part` occurs somewhere in `s`.
pub fn contains(s: &str, part: &str) -> (r: bool)
    ensures
        r == contains_text(s@, part@),
{
    let chars = characters(s);
    let wanted = characters(part);
    if chars.len() < wanted.len() {
        return false;
    }
    let last: usize = chars.len() - wanted.len();
    let mut i: usize = 0;
    while i <= last
        invariant
            chars@ == s@,
            wanted@ == part@,
            last == chars@.len() - wanted@.len(),
            i <= last + 1,
            forall|j: int| 0 <= j < i ==> #[trigger] s@.skip(j).take(part@.len() as int) != part@,
        decreases last + 1 - i,
    {
        let here = begins_with(&chars, i, chars.len(), &wanted);
        assert(chars@.subrange(i as int, chars@.len() as int) =~= s@.skip(i as int));
        assert(s@.skip(i as int).take(part@.len() as int) =~= s@.skip(i as int).subrange(
            0,
            part@.len() as int,
        ));
        if here {
            return true;
        }
        if i == last {
            return false;
        }
        i = i + 1;
    }
    false
}

/// Whether `a` comes before `b` in the order of texts.
pub fn comes_before(a: &str, b: &str) -> (r: bool)
    ensures
        r == text_before(a@, b@),
{
    let left = characters(a);
    let right = characters(b);
    let mut i: usize = 0;
    assert(a@.skip(0) =~= a@);
    assert(b@.skip(0) =~= b@);
    while i < left.len() && i < right.len()
        invariant
            left@ == a@,
            right@ == b@,
            i <= left@.len(),
            i <= right@.len(),
            text_before(a@, b@) == text_before(a@.skip(i as int), b@.skip(i as int)),
        decreases left@.len() - i,
    {
        assert(a@.skip(i as int).drop_first() =~= a@.skip(i + 1));
        assert(b@.skip(i as int).drop_first() =~= b@.skip(i + 1));
        if left[i] != right[i] {
            return left[i] < right[i];
        }
        i = i + 1;
    }
    i < right.len()
}

} // verus!
