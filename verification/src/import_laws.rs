//! What every line of a script imports.

use vstd::prelude::*;

verus! {

use crate::imports;
use crate::text;
use crate::text_laws;

/// What stands between two commas of a line of `import`: white space, a word, and what follows the
/// word. Where there is no word, there is nothing but white space.
pub ghost struct Listed {
    pub gap: Seq<char>,
    pub word: Seq<char>,
    pub rest: Seq<char>,
}

/// The text of what stands between two commas.
pub open spec fn listed_text(item: Listed) -> Seq<char> {
    item.gap + item.word + item.rest
}

/// Whether `item` can stand between two commas of a line.
pub open spec fn can_be_listed(item: Listed) -> bool {
    &&& forall|i: int|
        0 <= i < item.gap.len() ==> text::is_white(#[trigger] item.gap[i]) && item.gap[i] != '\n'
    &&& forall|i: int|
        0 <= i < item.word.len() ==> !text::is_white(#[trigger] item.word[i]) && item.word[i] != ','
    &&& forall|i: int|
        0 <= i < item.rest.len() ==> #[trigger] item.rest[i] != ',' && item.rest[i] != '\n'
    &&& item.rest.len() > 0 ==> item.word.len() > 0 && text::is_white(item.rest[0])
}

/// The texts of `items`.
pub open spec fn listed_texts(items: Seq<Listed>) -> Seq<Seq<char>> {
    Seq::new(items.len(), |i: int| listed_text(items[i]))
}

/// The words of `items`, in their order.
pub open spec fn words_of(items: Seq<Listed>) -> Seq<Seq<char>>
    decreases items.len(),
{
    if items.len() == 0 {
        Seq::empty()
    } else if items.last().word.len() == 0 {
        words_of(items.drop_last())
    } else {
        words_of(items.drop_last()).push(items.last().word)
    }
}

/// A line of `import`, indented or not, imports the words that it lists between its commas, in
/// their order, whatever stands behind each word, and passes over what holds no word.
pub proof fn a_line_of_import_imports_what_it_lists(pad: Seq<char>, items: Seq<Listed>)
    requires
        forall|i: int|
            0 <= i < pad.len() ==> text::is_white(#[trigger] pad[i]) && pad[i] != '\n',
        items.len() > 0,
        forall|i: int| 0 <= i < items.len() ==> can_be_listed(#[trigger] items[i]),
    ensures
        imports::script_names(
            pad + "import "@ + text_laws::joined(listed_texts(items), ','),
        ) == words_of(items),
{
    let texts = listed_texts(items);
    let list = text_laws::joined(texts, ',');
    reveal_strlit("import ");
    reveal_strlit("from ");
    reveal_strlit("import");
    assert("import "@.len() == 7 && "from "@.len() == 5 && "import"@.len() == 6);
    assert forall|i: int, j: int|
        0 <= i < texts.len() && 0 <= j < texts[i].len() implies #[trigger] texts[i][j] != ','
        && texts[i][j] != '\n' by {
        lemma_listed_characters(items[i], j);
    }
    lemma_joined_has_no_newline(texts);
    text_laws::a_text_has_but_one_list_of_pieces(texts, ',');
    lemma_first_words_of_items(items);
    let whole = pad + "import "@ + list;
    lemma_one_line(pad, "import "@, list);
    assert(whole =~= pad + ("import "@ + list));
    text_laws::lemma_blank_start(pad, "import "@ + list);
    if text_laws::is_blank(list) {
        assert("import "@ + list =~= "import"@ + (seq![' '] + list));
        let behind = seq![' '] + list;
        assert forall|i: int| 0 <= i < behind.len() implies text::is_white(
            #[trigger] behind[i],
        ) by {
            if i > 0 {
                assert(behind[i] == list[i - 1]);
            }
        }
        text_laws::lemma_blank_end("import"@, behind);
        assert(text::trim(whole) == "import"@);
        assert("import"@[0] != "from "@[0]);
        assert("import"@.subrange(0, 5)[0] != "from "@[0]);
        assert(imports::line_names(whole) =~= Seq::empty());
        assert forall|i: int| 0 <= i < list.len() implies #[trigger] list[i] != ',' by {
            assert(text::is_white(list[i]));
        }
        text::lemma_split_without_separator(list, ',');
        text_laws::white_space_has_no_words(list);
        assert(seq![list].drop_last() =~= Seq::empty());
        assert(imports::first_words(seq![list].drop_last()) =~= Seq::empty());
        assert(words_of(items) =~= Seq::empty());
    } else {
        let kept = text::trim_end(list);
        text_laws::the_end_is_trimmed(list);
        let tail = choose|tail: Seq<char>| #[trigger]
            text_laws::is_blank(tail) && list == kept + tail;
        if kept.len() == 0 {
            assert(list =~= tail);
        }
        assert("import "@ + list =~= ("import "@ + kept) + tail);
        text_laws::lemma_blank_end("import "@ + kept, tail);
        let code = "import "@ + kept;
        assert(text::trim(whole) == code);
        assert("import "@ =~= code.subrange(0, 7));
        assert(code.skip(7) =~= kept);
        lemma_white_ends_do_not_matter(kept, tail);
    }
}

/// A line of `from`, indented or not, imports the word behind `from`, whatever follows it.
pub proof fn a_line_of_from_imports_its_module(
    pad: Seq<char>,
    gap: Seq<char>,
    word: Seq<char>,
    rest: Seq<char>,
)
    requires
        forall|i: int|
            0 <= i < pad.len() ==> text::is_white(#[trigger] pad[i]) && pad[i] != '\n',
        forall|i: int|
            0 <= i < gap.len() ==> text::is_white(#[trigger] gap[i]) && gap[i] != '\n',
        word.len() > 0,
        forall|i: int| 0 <= i < word.len() ==> !text::is_white(#[trigger] word[i]),
        rest.len() > 0 ==> text::is_white(rest[0]),
        forall|i: int| 0 <= i < rest.len() ==> #[trigger] rest[i] != '\n',
    ensures
        imports::script_names(pad + "from "@ + (gap + word + rest)) == seq![word],
{
    let told = gap + word + rest;
    reveal_strlit("import ");
    reveal_strlit("from ");
    assert("import "@.len() == 7 && "from "@.len() == 5);
    assert forall|j: int| 0 <= j < told.len() implies #[trigger] told[j] != '\n' by {
        if j < gap.len() {
            assert(told[j] == gap[j]);
        } else if j < gap.len() + word.len() {
            assert(told[j] == word[j - gap.len()]);
        } else {
            assert(told[j] == rest[j - gap.len() - word.len()]);
        }
    }
    let whole = pad + "from "@ + told;
    lemma_one_line(pad, "from "@, told);
    assert(whole =~= pad + ("from "@ + told));
    text_laws::lemma_blank_start(pad, "from "@ + told);
    let kept = text::trim_end(told);
    text_laws::the_end_is_trimmed(told);
    let tail = choose|tail: Seq<char>| #[trigger] text_laws::is_blank(tail) && told == kept + tail;
    assert(told[gap.len() as int] == word[0]);
    if kept.len() == 0 {
        assert(told =~= tail);
        assert(text::is_white(tail[gap.len() as int]));
    }
    assert("from "@ + told =~= ("from "@ + kept) + tail);
    text_laws::lemma_blank_end("from "@ + kept, tail);
    let code = "from "@ + kept;
    assert(text::trim(whole) == code);
    assert("from "@ =~= code.subrange(0, 5));
    assert(code[0] == 'f');
    if "import "@.is_prefix_of(code) {
        assert(code.subrange(0, 7)[0] == "import "@[0]);
    }
    assert(code.skip(5) =~= kept);
    lemma_first_word_before_blank(kept, tail);
    text_laws::the_first_word_comes_first(gap, word, rest);
    assert(seq![kept].drop_last() =~= Seq::empty());
    assert(imports::first_words(seq![kept].drop_last()) =~= Seq::empty());
    assert(imports::first_words(seq![kept]) =~= seq![word]);
}

/// A line that begins, behind its indentation, neither with `import ` nor with `from ` imports
/// nothing.
pub proof fn any_other_line_imports_nothing(pad: Seq<char>, code: Seq<char>)
    requires
        forall|i: int|
            0 <= i < pad.len() ==> text::is_white(#[trigger] pad[i]) && pad[i] != '\n',
        forall|i: int| 0 <= i < code.len() ==> #[trigger] code[i] != '\n',
        code.len() > 0 ==> !text::is_white(code[0]),
        !"import "@.is_prefix_of(code),
        !"from "@.is_prefix_of(code),
    ensures
        imports::script_names(pad + code) == Seq::<Seq<char>>::empty(),
{
    lemma_one_line(pad, Seq::empty(), code);
    assert(pad + Seq::empty() + code =~= pad + code);
    text_laws::lemma_blank_start(pad, code);
    text_laws::the_end_is_trimmed(code);
    let kept = text::trim_end(code);
    let tail = choose|tail: Seq<char>| #[trigger] text_laws::is_blank(tail) && code == kept + tail;
    if "import "@.is_prefix_of(kept) {
        assert(kept.subrange(0, "import "@.len() as int) =~= code.subrange(
            0,
            "import "@.len() as int,
        ));
    }
    if "from "@.is_prefix_of(kept) {
        assert(kept.subrange(0, "from "@.len() as int) =~= code.subrange(0, "from "@.len() as int));
    }
}

/// A module with the name that it is to have, if any.
pub ghost struct Renamed {
    pub module: Seq<char>,
    pub alias: Option<Seq<char>>,
}

/// How a module is named in a line of `import`: with ` as ` and its new name, if it has one.
pub open spec fn renamed_text(item: Renamed) -> Seq<char> {
    match item.alias {
        Some(alias) => item.module + " as "@ + alias,
        None => item.module,
    }
}

/// For any modules the line of `import` and their names, joined by commas, each with or without
/// ` as ` and another name, imports exactly the modules, in their order.
pub proof fn modules_joined_by_commas_are_imported(items: Seq<Renamed>)
    requires
        items.len() > 0,
        forall|i: int|
            0 <= i < items.len() ==> (#[trigger] items[i]).module.len() > 0 && (forall|j: int|
                0 <= j < items[i].module.len() ==> !text::is_white(#[trigger] items[i].module[j])
                    && items[i].module[j] != ',') && (items[i].alias matches Some(alias) ==> (
            forall|j: int|
                0 <= j < alias.len() ==> !text::is_white(#[trigger] alias[j]) && alias[j] != ',')),
    ensures
        imports::script_names(
            "import "@ + text_laws::joined(
                Seq::new(items.len(), |i: int| renamed_text(items[i])),
                ',',
            ),
        ) == Seq::new(items.len(), |i: int| items[i].module),
{
    let listed = Seq::new(
        items.len(),
        |i: int|
            Listed {
                gap: Seq::empty(),
                word: items[i].module,
                rest: match items[i].alias {
                    Some(alias) => " as "@ + alias,
                    None => Seq::empty(),
                },
            },
    );
    reveal_strlit(" as ");
    assert(" as "@.len() == 4);
    assert forall|i: int| 0 <= i < listed.len() implies can_be_listed(#[trigger] listed[i]) by {
        let item = items[i];
        if let Some(alias) = item.alias {
            let rest = " as "@ + alias;
            assert(listed[i].rest == rest);
            assert forall|j: int| 0 <= j < rest.len() implies #[trigger] rest[j] != ',' && rest[j]
                != '\n' by {
                if j < 4 {
                    assert(rest[j] == " as "@[j]);
                } else {
                    assert(rest[j] == alias[j - 4]);
                }
            }
        }
    }
    a_line_of_import_imports_what_it_lists(Seq::empty(), listed);
    let texts = Seq::new(items.len(), |i: int| renamed_text(items[i]));
    assert(listed_texts(listed) =~= texts) by {
        assert forall|i: int| 0 <= i < texts.len() implies listed_texts(listed)[i] == texts[i] by {
            if let Some(alias) = items[i].alias {
                assert(listed_text(listed[i]) =~= items[i].module + " as "@ + alias);
            } else {
                assert(listed_text(listed[i]) =~= items[i].module);
            }
        }
    }
    assert(Seq::empty() + "import "@ + text_laws::joined(texts, ',') =~= "import "@
        + text_laws::joined(texts, ','));
    lemma_all_words(listed);
    assert(words_of(listed) =~= Seq::new(items.len(), |i: int| items[i].module));
}

proof fn lemma_all_words(items: Seq<Listed>)
    requires
        forall|i: int| 0 <= i < items.len() ==> (#[trigger] items[i]).word.len() > 0,
    ensures
        words_of(items) == Seq::new(items.len(), |i: int| items[i].word),
    decreases items.len(),
{
    if items.len() > 0 {
        let short = items.drop_last();
        assert(items[items.len() - 1].word.len() > 0);
        assert forall|i: int| 0 <= i < short.len() implies (#[trigger] short[i]).word.len() > 0 by {
            assert(short[i] == items[i]);
        }
        lemma_all_words(short);
    }
    assert(words_of(items) =~= Seq::new(items.len(), |i: int| items[i].word));
}

proof fn lemma_listed_characters(item: Listed, j: int)
    requires
        can_be_listed(item),
        0 <= j < listed_text(item).len(),
    ensures
        listed_text(item)[j] != ',',
        listed_text(item)[j] != '\n',
{
    if j < item.gap.len() {
        assert(listed_text(item)[j] == item.gap[j]);
    } else if j < item.gap.len() + item.word.len() {
        assert(listed_text(item)[j] == item.word[j - item.gap.len()]);
    } else {
        assert(listed_text(item)[j] == item.rest[j - item.gap.len() - item.word.len()]);
    }
}

proof fn lemma_joined_has_no_newline(texts: Seq<Seq<char>>)
    requires
        forall|i: int, j: int|
            0 <= i < texts.len() && 0 <= j < texts[i].len() ==> #[trigger] texts[i][j] != ','
                && texts[i][j] != '\n',
    ensures
        forall|j: int|
            0 <= j < text_laws::joined(texts, ',').len() ==> #[trigger] text_laws::joined(
                texts,
                ',',
            )[j] != '\n',
    decreases texts.len(),
{
    let all = text_laws::joined(texts, ',');
    if texts.len() == 1 {
        assert forall|j: int| 0 <= j < all.len() implies #[trigger] all[j] != '\n' by {
            assert(all[j] == texts[0][j]);
        }
    } else if texts.len() > 1 {
        let short = texts.drop_last();
        let last = texts.len() - 1;
        assert forall|i: int, j: int|
            0 <= i < short.len() && 0 <= j < short[i].len() implies #[trigger] short[i][j] != ','
            && short[i][j] != '\n' by {
            assert(texts[i][j] != ',');
        }
        lemma_joined_has_no_newline(short);
        let start = text_laws::joined(short, ',');
        assert forall|j: int| 0 <= j < all.len() implies #[trigger] all[j] != '\n' by {
            if j < start.len() {
                assert(all[j] == start[j]);
            } else if j > start.len() {
                assert(all[j] == texts[last][j - start.len() - 1]);
            }
        }
    }
}

/// A text without line ends is one line.
proof fn lemma_one_line(pad: Seq<char>, head: Seq<char>, tail: Seq<char>)
    requires
        forall|i: int| 0 <= i < pad.len() ==> #[trigger] pad[i] != '\n',
        head == "import "@ || head == "from "@ || head == Seq::<char>::empty(),
        forall|i: int| 0 <= i < tail.len() ==> #[trigger] tail[i] != '\n',
    ensures
        imports::script_names(pad + head + tail) == imports::line_names(pad + head + tail),
{
    reveal_strlit("import ");
    reveal_strlit("from ");
    let line = pad + head + tail;
    assert forall|i: int| 0 <= i < line.len() implies #[trigger] line[i] != '\n' by {
        if i < pad.len() {
            assert(line[i] == pad[i]);
        } else if i < pad.len() + head.len() {
            assert(line[i] == head[i - pad.len()]);
        } else {
            assert(line[i] == tail[i - pad.len() - head.len()]);
        }
    }
    text::lemma_split_without_separator(line, '\n');
    assert(seq![line].drop_last() =~= Seq::empty());
    assert(imports::names_of_lines(seq![line].drop_last()) =~= Seq::empty());
    assert(imports::script_names(line) =~= imports::line_names(line));
}

proof fn lemma_first_words_of_items(items: Seq<Listed>)
    requires
        forall|i: int| 0 <= i < items.len() ==> can_be_listed(#[trigger] items[i]),
    ensures
        imports::first_words(listed_texts(items)) == words_of(items),
    decreases items.len(),
{
    if items.len() > 0 {
        let short = items.drop_last();
        let item = items.last();
        assert(items[items.len() - 1] == item);
        assert forall|i: int| 0 <= i < short.len() implies can_be_listed(#[trigger] short[i]) by {
            assert(short[i] == items[i]);
        }
        lemma_first_words_of_items(short);
        assert(listed_texts(items).drop_last() =~= listed_texts(short));
        if item.word.len() == 0 {
            assert(listed_text(item) =~= item.gap);
            text_laws::white_space_has_no_words(item.gap);
        } else {
            text_laws::the_first_word_comes_first(item.gap, item.word, item.rest);
        }
    }
}

proof fn lemma_leading_word_before_white(s: Seq<char>, c: char)
    requires
        text::is_white(c),
    ensures
        text::leading_word(s.push(c)) == text::leading_word(s),
    decreases s.len(),
{
    if s.len() > 0 && !text::is_white(s[0]) {
        assert(s.push(c).drop_first() =~= s.drop_first().push(c));
        lemma_leading_word_before_white(s.drop_first(), c);
    }
}

proof fn lemma_first_word_before_white(s: Seq<char>, c: char)
    requires
        text::is_white(c),
    ensures
        text::first_word(s.push(c)) == text::first_word(s),
    decreases s.len(),
{
    if s.len() == 0 {
        text_laws::white_space_has_no_words(s.push(c));
        assert(text::first_word(s.push(c)) =~= text::first_word(s));
    } else if text::is_white(s[0]) {
        assert(s.push(c).drop_first() =~= s.drop_first().push(c));
        lemma_first_word_before_white(s.drop_first(), c);
    } else {
        lemma_leading_word_before_white(s, c);
    }
}

proof fn lemma_first_word_before_blank(s: Seq<char>, tail: Seq<char>)
    requires
        text_laws::is_blank(tail),
    ensures
        text::first_word(s + tail) == text::first_word(s),
    decreases tail.len(),
{
    if tail.len() == 0 {
        assert(s + tail =~= s);
    } else {
        let less = tail.drop_last();
        assert(text::is_white(tail[tail.len() - 1]));
        assert(s + tail =~= (s + less).push(tail.last()));
        lemma_first_word_before_white(s + less, tail.last());
        lemma_first_word_before_blank(s, less);
    }
}

/// White space behind a list adds no name to it.
proof fn lemma_white_ends_do_not_matter(s: Seq<char>, tail: Seq<char>)
    requires
        text_laws::is_blank(tail),
    ensures
        imports::first_words(text::split(s + tail, ',')) == imports::first_words(
            text::split(s, ','),
        ),
    decreases tail.len(),
{
    if tail.len() == 0 {
        assert(s + tail =~= s);
    } else {
        let less = tail.drop_last();
        let c = tail.last();
        assert(text::is_white(tail[tail.len() - 1]));
        lemma_white_ends_do_not_matter(s, less);
        let shorter = s + less;
        assert(s + tail =~= shorter.push(c));
        assert(shorter.push(c).drop_last() =~= shorter);
        let before = text::split(shorter, ',');
        text_laws::pieces_make_up_the_text(shorter, ',');
        lemma_first_word_before_white(before.last(), c);
        let now = text::split(shorter.push(c), ',');
        assert(now == before.drop_last().push(before.last().push(c)));
        assert(now.drop_last() =~= before.drop_last());
    }
}

} // verus!
