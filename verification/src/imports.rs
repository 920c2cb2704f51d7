//! The modules that a Python script imports.

use crate::text;
use vstd::prelude::*;
use vstd::string::*;

verus! {

broadcast use vstd::string::group_string_axioms;

/// The first words of `parts`, in order, without the empty ones.
pub open spec fn first_words(parts: Seq<Seq<char>>) -> Seq<Seq<char>>
    decreases parts.len(),
{
    if parts.len() == 0 {
        Seq::empty()
    } else {
        let word = text::first_word(parts.last());
        if word.len() == 0 {
            first_words(parts.drop_last())
        } else {
            first_words(parts.drop_last()).push(word)
        }
    }
}

/// The names that one line of a script imports: of `import a, b as c` each first word
/// between the commas, of `from a import b` the word behind `from`.
pub open spec fn line_names(line: Seq<char>) -> Seq<Seq<char>> {
    let code = text::trim(line);
    if "import "@.is_prefix_of(code) {
        first_words(text::split(code.skip("import "@.len() as int), ','))
    } else if "from "@.is_prefix_of(code) {
        first_words(seq![code.skip("from "@.len() as int)])
    } else {
        Seq::empty()
    }
}

/// The names that `lines` import, line by line.
pub open spec fn names_of_lines(lines: Seq<Seq<char>>) -> Seq<Seq<char>>
    decreases lines.len(),
{
    if lines.len() == 0 {
        Seq::empty()
    } else {
        names_of_lines(lines.drop_last()) + line_names(lines.last())
    }
}

/// The names that `script` imports, in the order in which it does.
pub open spec fn script_names(script: Seq<char>) -> Seq<Seq<char>> {
    names_of_lines(text::split(script, '\n'))
}

/// The texts of `v`.
pub open spec fn texts(v: Seq<String>) -> Seq<Seq<char>> {
    v.map_values(|s: String| s@)
}

/// The names that `script` imports, each once, in ascending order.
pub open spec fn imports_of(script: Seq<char>) -> Seq<Seq<char>> {
    choose|names: Seq<Seq<char>>| #[trigger]
        text::ascending(names) && names.to_set() == script_names(script).to_set()
}

/// Puts `name` at its place among the ascending `names`, unless it is there already.
fn insert_name(names: &mut Vec<String>, name: String)
    requires
        text::ascending(texts(old(names)@)),
    ensures
        text::ascending(texts(final(names)@)),
        texts(final(names)@).to_set() == texts(old(names)@).to_set().insert(name@),
{
    let ghost before = texts(names@);
    let mut i: usize = 0;
    while i < names.len() && text::comes_before(names[i].as_str(), name.as_str())
        invariant
            i <= names@.len(),
            before == texts(names@),
            forall|j: int| 0 <= j < i ==> #[trigger] text::text_before(before[j], name@),
        decreases names@.len() - i,
    {
        assert(before[i as int] == names@[i as int]@);
        i = i + 1;
    }
    if i < names.len() && names[i] == name {
        proof {
            assert(before[i as int] == name@);
            assert(before.to_set().insert(name@) =~= before.to_set());
        }
        return ;
    }
    let ghost text = name@;
    proof {
        assert forall|j: int| i <= j < before.len() implies #[trigger] text::text_before(
            text,
            before[j],
        ) by {
            assert(before[i as int] == names@[i as int]@);
            text::lemma_text_order_total(before[i as int], text);
            if i < j {
                assert(text::text_before(before[i as int], before[j]));
                text::lemma_text_order_transitive(text, before[i as int], before[j]);
            }
        }
    }
    names.insert(i, name);
    proof {
        let after = texts(names@);
        assert(after =~= before.insert(i as int, text));
        before.insert_ensures(i as int, text);
        assert forall|k: Seq<char>| after.to_set().contains(k) implies before.to_set().insert(
            text,
        ).contains(k) by {
            let j = choose|j: int| 0 <= j < after.len() && after[j] == k;
            if j < i {
                assert(before[j] == k);
            } else if i < j {
                assert(before[j - 1] == k);
            }
        }
        assert forall|k: Seq<char>| before.to_set().insert(text).contains(
            k,
        ) implies after.to_set().contains(k) by {
            if k == text {
                assert(after[i as int] == k);
            } else {
                let j = choose|j: int| 0 <= j < before.len() && before[j] == k;
                if j < i {
                    assert(after[j] == k);
                } else {
                    assert(after[j + 1] == k);
                }
            }
        }
        assert(after.to_set() =~= before.to_set().insert(text));
        assert(text::ascending(after)) by {
            assert forall|a: int, b: int| 0 <= a < b < after.len() implies
                #[trigger] text::text_before(after[a], after[b]) by {
                if a < i && b > i {
                    assert(text::text_before(before[a], before[b - 1]));
                } else if a > i {
                    assert(text::text_before(before[a - 1], before[b - 1]));
                } else if a == i {
                    assert(text::text_before(text, before[b - 1]));
                } else if b == i {
                    assert(text::text_before(before[a], text));
                } else {
                    assert(text::text_before(before[a], before[b]));
                }
            }
        }
    }
}

/// Inserts the first word of the text at `from..to`, where there is one.
fn insert_first_word(
    names: &mut Vec<String>,
    script: &str,
    chars: &Vec<char>,
    from: usize,
    to: usize,
)
    requires
        text::ascending(texts(old(names)@)),
        chars@ == script@,
        from <= to <= chars@.len(),
    ensures
        text::ascending(texts(final(names)@)),
        texts(final(names)@).to_set() == texts(old(names)@).to_set().union(
            first_words(seq![chars@.subrange(from as int, to as int)]).to_set(),
        ),
{
    let start = text::skip_white(chars, from, to);
    let end = text::word_end(chars, start, to);
    let ghost part = chars@.subrange(from as int, to as int);
    let ghost word = text::first_word(part);
    let ghost before = texts(names@).to_set();
    proof {
        assert(seq![part].drop_last() =~= Seq::empty());
        assert(first_words(seq![part].drop_last()) =~= Seq::empty());
    }
    if start < end {
        insert_name(names, script.substring_char(start, end).to_owned());
        proof {
            assert(first_words(seq![part]) =~= seq![word]);
            assert(seq![word][0] == word);
            assert(before.insert(word) =~= before.union(seq![word].to_set()));
        }
    } else {
        proof {
            assert(first_words(seq![part]) =~= Seq::empty());
            assert(before =~= before.union(Seq::<Seq<char>>::empty().to_set()));
        }
    }
}

/// First words of a list of parts are those of its start and that of its last part.
proof fn lemma_first_words_push(parts: Seq<Seq<char>>, part: Seq<char>)
    ensures
        first_words(parts.push(part)) == first_words(parts) + first_words(seq![part]),
{
    assert(parts.push(part).drop_last() =~= parts);
    assert(seq![part].drop_last() =~= Seq::empty());
    assert(first_words(seq![part].drop_last()) =~= Seq::empty());
    assert(first_words(parts.push(part)) =~= first_words(parts) + first_words(seq![part]));
}

/// The set of a concatenation is the union of the sets.
proof fn lemma_to_set_concat(a: Seq<Seq<char>>, b: Seq<Seq<char>>)
    ensures
        (a + b).to_set() == a.to_set().union(b.to_set()),
{
    assert forall|x: Seq<char>| (a + b).to_set().contains(x) == a.to_set().union(
        b.to_set(),
    ).contains(x) by {
        if a.contains(x) {
            let i = choose|i: int| 0 <= i < a.len() && a[i] == x;
            assert((a + b)[i] == x);
        }
        if b.contains(x) {
            let i = choose|i: int| 0 <= i < b.len() && b[i] == x;
            assert((a + b)[a.len() + i] == x);
        }
    }
    assert((a + b).to_set() =~= a.to_set().union(b.to_set()));
}

/// Inserts the first word of each part between the commas of the text at `from..to`.
fn insert_listed(
    names: &mut Vec<String>,
    script: &str,
    chars: &Vec<char>,
    from: usize,
    to: usize,
)
    requires
        text::ascending(texts(old(names)@)),
        chars@ == script@,
        from <= to <= chars@.len(),
    ensures
        text::ascending(texts(final(names)@)),
        texts(final(names)@).to_set() == texts(old(names)@).to_set().union(
            first_words(text::split(chars@.subrange(from as int, to as int), ',')).to_set(),
        ),
{
    let ghost before = texts(names@).to_set();
    let ghost mut done: Seq<Seq<char>> = Seq::empty();
    let mut start: usize = from;
    let mut i: usize = from;
    proof {
        assert(chars@.subrange(from as int, from as int) =~= Seq::empty());
        assert(text::split(Seq::empty(), ',') =~= done.push(Seq::empty()));
        assert(before.union(first_words(done).to_set()) =~= before);
    }
    while i < to
        invariant
            chars@ == script@,
            from <= start <= i <= to <= chars@.len(),
            text::ascending(texts(names@)),
            text::split(chars@.subrange(from as int, i as int), ',') == done.push(
                chars@.subrange(start as int, i as int),
            ),
            texts(names@).to_set() == before.union(first_words(done).to_set()),
        decreases to - i,
    {
        let ghost piece = chars@.subrange(start as int, i as int);
        proof {
            text::lemma_split_grows(chars@, from as int, i as int, ',');
            assert(done.push(piece).drop_last() =~= done);
            assert(chars@.subrange(start as int, i + 1) =~= piece.push(chars@[i as int]));
            assert(chars@.subrange(i + 1, i + 1) =~= Seq::empty());
        }
        if chars[i] == ',' {
            insert_first_word(names, script, chars, start, i);
            proof {
                lemma_first_words_push(done, piece);
                lemma_to_set_concat(first_words(done), first_words(seq![piece]));
                assert(texts(names@).to_set() =~= before.union(
                    first_words(done.push(piece)).to_set(),
                ));
                done = done.push(piece);
            }
            start = i + 1;
        }
        i = i + 1;
    }
    insert_first_word(names, script, chars, start, to);
    proof {
        let piece = chars@.subrange(start as int, to as int);
        lemma_first_words_push(done, piece);
        lemma_to_set_concat(first_words(done), first_words(seq![piece]));
        assert(texts(names@).to_set() =~= before.union(first_words(done.push(piece)).to_set()));
    }
}

/// Inserts the names that the line at `from..to` imports.
fn insert_line(names: &mut Vec<String>, script: &str, chars: &Vec<char>, from: usize, to: usize)
    requires
        text::ascending(texts(old(names)@)),
        chars@ == script@,
        from <= to <= chars@.len(),
    ensures
        text::ascending(texts(final(names)@)),
        texts(final(names)@).to_set() == texts(old(names)@).to_set().union(
            line_names(chars@.subrange(from as int, to as int)).to_set(),
        ),
{
    let start = text::skip_white(chars, from, to);
    let end = text::skip_white_back(chars, start, to);
    let ghost code = chars@.subrange(start as int, end as int);
    let import_word = text::characters("import ");
    let from_word = text::characters("from ");
    if text::begins_with(chars, start, end, &import_word) {
        proof {
            assert(chars@.subrange(start + import_word@.len(), end as int) =~= code.skip(
                import_word@.len() as int,
            ));
        }
        insert_listed(names, script, chars, start + import_word.len(), end);
    } else if text::begins_with(chars, start, end, &from_word) {
        proof {
            assert(chars@.subrange(start + from_word@.len(), end as int) =~= code.skip(
                from_word@.len() as int,
            ));
        }
        insert_first_word(names, script, chars, start + from_word.len(), end);
    } else {
        assert(texts(names@).to_set() =~= texts(names@).to_set().union(
            Seq::<Seq<char>>::empty().to_set(),
        ));
    }
}

/// The modules that `script` imports, each once, in ascending order.
pub fn extract_imports(script: &str) -> (modules: Vec<String>)
    ensures
        text::ascending(texts(modules@)),
        texts(modules@).to_set() == script_names(script@).to_set(),
        texts(modules@) == imports_of(script@),
{
    let chars = text::characters(script);
    let mut modules: Vec<String> = Vec::new();
    let ghost mut done: Seq<Seq<char>> = Seq::empty();
    let mut start: usize = 0;
    let mut i: usize = 0;
    proof {
        assert(chars@.subrange(0, 0) =~= Seq::empty());
        assert(text::split(Seq::empty(), '\n') =~= done.push(Seq::empty()));
        assert(texts(modules@).to_set() =~= names_of_lines(done).to_set());
    }
    while i < chars.len()
        invariant
            chars@ == script@,
            start <= i <= chars@.len(),
            text::ascending(texts(modules@)),
            text::split(chars@.subrange(0, i as int), '\n') == done.push(
                chars@.subrange(start as int, i as int),
            ),
            texts(modules@).to_set() == names_of_lines(done).to_set(),
        decreases chars@.len() - i,
    {
        let ghost line = chars@.subrange(start as int, i as int);
        proof {
            text::lemma_split_grows(chars@, 0, i as int, '\n');
            assert(done.push(line).drop_last() =~= done);
            assert(chars@.subrange(start as int, i + 1) =~= line.push(chars@[i as int]));
            assert(chars@.subrange(i + 1, i + 1) =~= Seq::empty());
        }
        if chars[i] == '\n' {
            insert_line(&mut modules, script, &chars, start, i);
            proof {
                lemma_to_set_concat(names_of_lines(done), line_names(line));
                done = done.push(line);
            }
            start = i + 1;
        }
        i = i + 1;
    }
    insert_line(&mut modules, script, &chars, start, chars.len());
    proof {
        let line = chars@.subrange(start as int, chars@.len() as int);
        assert(chars@.subrange(0, chars@.len() as int) =~= script@);
        assert(done.push(line).drop_last() =~= done);
        lemma_to_set_concat(names_of_lines(done), line_names(line));
        text::ascending_lists_are_settled_by_their_members(texts(modules@), imports_of(script@));
    }
    modules
}

/// A script made of two, one below the other, imports what the first imports and then what
/// the second imports.
pub proof fn joined_scripts_import_what_both_import(first: Seq<char>, second: Seq<char>)
    ensures
        script_names(first.push('\n') + second) == script_names(first) + script_names(second),
{
    text::lemma_split_joined(first, second, '\n');
    lemma_names_of_lines_concat(text::split(first, '\n'), text::split(second, '\n'));
}

/// Names of two lists of lines, one behind the other.
proof fn lemma_names_of_lines_concat(a: Seq<Seq<char>>, b: Seq<Seq<char>>)
    ensures
        names_of_lines(a + b) == names_of_lines(a) + names_of_lines(b),
    decreases b.len(),
{
    if b.len() == 0 {
        assert(a + b =~= a);
        assert(names_of_lines(a) + names_of_lines(b) =~= names_of_lines(a));
    } else {
        lemma_names_of_lines_concat(a, b.drop_last());
        assert((a + b).drop_last() =~= a + b.drop_last());
        assert(names_of_lines(a + b) =~= names_of_lines(a) + names_of_lines(b));
    }
}

/// Every imported name is a word: it is not empty and holds no white space.
pub proof fn imported_names_are_words(script: Seq<char>)
    ensures
        forall|i: int|
            0 <= i < script_names(script).len() ==> is_word(#[trigger] script_names(script)[i]),
{
    lemma_line_names_are_words(text::split(script, '\n'));
}

/// Whether `name` is not empty and holds no white space.
pub open spec fn is_word(name: Seq<char>) -> bool {
    &&& name.len() > 0
    &&& forall|i: int| 0 <= i < name.len() ==> !text::is_white(#[trigger] name[i])
}

proof fn lemma_line_names_are_words(lines: Seq<Seq<char>>)
    ensures
        forall|i: int|
            0 <= i < names_of_lines(lines).len() ==> is_word(#[trigger] names_of_lines(lines)[i]),
    decreases lines.len(),
{
    if lines.len() > 0 {
        lemma_line_names_are_words(lines.drop_last());
        let code = text::trim(lines.last());
        lemma_first_words_are_words(text::split(code.skip("import "@.len() as int), ','));
        lemma_first_words_are_words(seq![code.skip("from "@.len() as int)]);
        let earlier = names_of_lines(lines.drop_last());
        let here = line_names(lines.last());
        assert forall|i: int| 0 <= i < names_of_lines(lines).len() implies is_word(
            #[trigger] names_of_lines(lines)[i],
        ) by {
            if i < earlier.len() {
                assert(names_of_lines(lines)[i] == earlier[i]);
            } else {
                assert(names_of_lines(lines)[i] == here[i - earlier.len()]);
            }
        }
    }
}

proof fn lemma_first_words_are_words(parts: Seq<Seq<char>>)
    ensures
        forall|i: int|
            0 <= i < first_words(parts).len() ==> is_word(#[trigger] first_words(parts)[i]),
    decreases parts.len(),
{
    if parts.len() > 0 {
        lemma_first_words_are_words(parts.drop_last());
        text::lemma_leading_word_has_no_white(text::trim_start(parts.last()));
        let earlier = first_words(parts.drop_last());
        assert forall|i: int| 0 <= i < first_words(parts).len() implies is_word(
            #[trigger] first_words(parts)[i],
        ) by {
            if i < earlier.len() {
                assert(first_words(parts)[i] == earlier[i]);
            }
        }
    }
}

/// The imports of any script are in ascending order and are the names that it imports.
pub proof fn imports_are_the_imported_names(script: Seq<char>)
    ensures
        text::ascending(imports_of(script)),
        imports_of(script).to_set() == script_names(script).to_set(),
{
    let names = lemma_ascending_list(script_names(script));
    assert(text::ascending(names) && names.to_set() == script_names(script).to_set());
}

proof fn lemma_ascending_list(names: Seq<Seq<char>>) -> (r: Seq<Seq<char>>)
    ensures
        text::ascending(r),
        r.to_set() == names.to_set(),
    decreases names.len(),
{
    if names.len() == 0 {
        names
    } else {
        let rest = lemma_ascending_list(names.drop_last());
        let r = lemma_ascending_with(rest, names.last());
        assert(names =~= names.drop_last() + seq![names.last()]);
        lemma_to_set_concat(names.drop_last(), seq![names.last()]);
        assert(seq![names.last()][0] == names.last());
        assert(seq![names.last()].to_set() =~= set![names.last()]);
        assert(r.to_set() =~= names.to_set());
        r
    }
}

proof fn lemma_ascending_with(names: Seq<Seq<char>>, name: Seq<char>) -> (r: Seq<Seq<char>>)
    requires
        text::ascending(names),
    ensures
        text::ascending(r),
        r.to_set() == names.to_set().insert(name),
    decreases names.len(),
{
    if names.len() == 0 {
        let r = seq![name];
        assert(r[0] == name);
        assert(r.to_set() =~= names.to_set().insert(name));
        r
    } else {
        let last = names.last();
        let short = names.drop_last();
        text::lemma_text_order_total(last, name);
        assert(names =~= short + seq![last]);
        lemma_to_set_concat(short, seq![last]);
        assert(seq![last][0] == last);
        assert(seq![last].to_set() =~= set![last]);
        assert(names[names.len() - 1] == last);
        if last == name {
            assert(names.to_set() =~= names.to_set().insert(name));
            names
        } else if text::text_before(last, name) {
            let r = names.push(name);
            assert(r =~= names + seq![name]);
            lemma_to_set_concat(names, seq![name]);
            assert(seq![name][0] == name);
            assert(seq![name].to_set() =~= set![name]);
            assert(r.to_set() =~= names.to_set().insert(name));
            assert forall|i: int, j: int| 0 <= i < j < r.len() implies #[trigger] text::text_before(
                r[i],
                r[j],
            ) by {
                if j < names.len() {
                    assert(text::text_before(names[i], names[j]));
                } else if i < names.len() - 1 {
                    assert(text::text_before(names[i], names[names.len() - 1]));
                    text::lemma_text_order_transitive(names[i], last, name);
                }
            }
            r
        } else {
            assert forall|i: int, j: int| 0 <= i < j < short.len() implies
                #[trigger] text::text_before(short[i], short[j]) by {
                assert(text::text_before(names[i], names[j]));
            }
            let before = lemma_ascending_with(short, name);
            let r = before.push(last);
            assert(r =~= before + seq![last]);
            lemma_to_set_concat(before, seq![last]);
            assert(r.to_set() =~= names.to_set().insert(name));
            assert forall|i: int, j: int| 0 <= i < j < r.len() implies #[trigger] text::text_before(
                r[i],
                r[j],
            ) by {
                if j < before.len() {
                    assert(text::text_before(before[i], before[j]));
                } else {
                    assert(before.to_set().contains(before[i]));
                    if before[i] != name {
                        let k = choose|k: int| 0 <= k < short.len() && short[k] == before[i];
                        assert(text::text_before(names[k], names[names.len() - 1]));
                    }
                }
            }
            r
        }
    }
}

/// Every name that a script imports is a piece of the script.
pub proof fn imported_names_occur_in_the_script(script: Seq<char>)
    ensures
        forall|i: int|
            0 <= i < script_names(script).len() ==> text::contains_text(
                script,
                #[trigger] script_names(script)[i],
            ),
        forall|i: int|
            0 <= i < imports_of(script).len() ==> text::contains_text(
                script,
                #[trigger] imports_of(script)[i],
            ),
{
    text::lemma_pieces_occur(script, '\n');
    lemma_names_of_lines_occur(script, text::split(script, '\n'));
    imports_are_the_imported_names(script);
    assert forall|i: int| 0 <= i < imports_of(script).len() implies text::contains_text(
        script,
        #[trigger] imports_of(script)[i],
    ) by {
        assert(imports_of(script).to_set().contains(imports_of(script)[i]));
        let j = choose|j: int|
            0 <= j < script_names(script).len() && script_names(script)[j] == imports_of(script)[i];
        assert(text::contains_text(script, script_names(script)[j]));
    }
}

proof fn lemma_names_of_lines_occur(script: Seq<char>, lines: Seq<Seq<char>>)
    requires
        forall|i: int| 0 <= i < lines.len() ==> text::contains_text(script, #[trigger] lines[i]),
    ensures
        forall|i: int|
            0 <= i < names_of_lines(lines).len() ==> text::contains_text(
                script,
                #[trigger] names_of_lines(lines)[i],
            ),
    decreases lines.len(),
{
    if lines.len() > 0 {
        let short = lines.drop_last();
        assert forall|i: int| 0 <= i < short.len() implies text::contains_text(
            script,
            #[trigger] short[i],
        ) by {
            assert(short[i] == lines[i]);
        }
        lemma_names_of_lines_occur(script, short);
        let line = lines.last();
        assert(lines[lines.len() - 1] == line);
        lemma_line_names_occur(line);
        let earlier = names_of_lines(short);
        let here = line_names(line);
        assert forall|i: int| 0 <= i < names_of_lines(lines).len() implies text::contains_text(
            script,
            #[trigger] names_of_lines(lines)[i],
        ) by {
            if i < earlier.len() {
                assert(names_of_lines(lines)[i] == earlier[i]);
            } else {
                let name = here[i - earlier.len()];
                assert(names_of_lines(lines)[i] == name);
                text::lemma_occurrence_transitive(script, line, name);
            }
        }
    }
}

proof fn lemma_line_names_occur(line: Seq<char>)
    ensures
        forall|i: int|
            0 <= i < line_names(line).len() ==> text::contains_text(
                line,
                #[trigger] line_names(line)[i],
            ),
{
    let code = text::trim(line);
    text::lemma_trimmed_occurs(line);
    text::lemma_trimmed_occurs(text::trim_start(line));
    text::lemma_occurrence_transitive(line, text::trim_start(line), code);
    let len = if "import "@.is_prefix_of(code) {
        "import "@.len() as int
    } else {
        "from "@.len() as int
    };
    if "import "@.is_prefix_of(code) || "from "@.is_prefix_of(code) {
        let rest = code.skip(len);
        text::lemma_stretch_occurs(code, len, code.len() as int);
        assert(rest =~= code.subrange(len, code.len() as int));
        text::lemma_occurrence_transitive(line, code, rest);
        let parts = if "import "@.is_prefix_of(code) {
            text::split(rest, ',')
        } else {
            seq![rest]
        };
        text::lemma_pieces_occur(rest, ',');
        text::lemma_stretch_occurs(rest, 0, rest.len() as int);
        assert(rest.subrange(0, rest.len() as int) =~= rest);
        assert forall|i: int| 0 <= i < parts.len() implies text::contains_text(
            line,
            #[trigger] parts[i],
        ) by {
            text::lemma_occurrence_transitive(line, rest, parts[i]);
        }
        lemma_first_words_occur(line, parts);
    }
}

proof fn lemma_first_words_occur(line: Seq<char>, parts: Seq<Seq<char>>)
    requires
        forall|i: int| 0 <= i < parts.len() ==> text::contains_text(line, #[trigger] parts[i]),
    ensures
        forall|i: int|
            0 <= i < first_words(parts).len() ==> text::contains_text(
                line,
                #[trigger] first_words(parts)[i],
            ),
    decreases parts.len(),
{
    if parts.len() > 0 {
        let short = parts.drop_last();
        assert forall|i: int| 0 <= i < short.len() implies text::contains_text(
            line,
            #[trigger] short[i],
        ) by {
            assert(short[i] == parts[i]);
        }
        lemma_first_words_occur(line, short);
        let part = parts.last();
        assert(parts[parts.len() - 1] == part);
        text::lemma_first_word_occurs(part);
        text::lemma_occurrence_transitive(line, part, text::first_word(part));
        let earlier = first_words(short);
        assert forall|i: int| 0 <= i < first_words(parts).len() implies text::contains_text(
            line,
            #[trigger] first_words(parts)[i],
        ) by {
            if i < earlier.len() {
                assert(first_words(parts)[i] == earlier[i]);
            }
        }
    }
}

/// A line that imports something from the module `name`.
pub open spec fn import_line(name: Seq<char>) -> Seq<char> {
    "from "@ + name + " import x"@
}

/// A script that imports something from each of the modules `names`, line by line.
pub open spec fn import_script(names: Seq<Seq<char>>) -> Seq<char>
    decreases names.len(),
{
    if names.len() == 0 {
        Seq::empty()
    } else if names.len() == 1 {
        import_line(names[0])
    } else {
        import_script(names.drop_last()).push('\n') + import_line(names.last())
    }
}

/// A script that imports something from each of `names` imports them, in their order.
pub proof fn a_script_of_imports_imports_them(names: Seq<Seq<char>>)
    requires
        forall|i: int| 0 <= i < names.len() ==> is_word(#[trigger] names[i]),
    ensures
        script_names(import_script(names)) == names,
    decreases names.len(),
{
    if names.len() == 0 {
        let lines = text::split(import_script(names), '\n');
        assert(lines =~= seq![Seq::<char>::empty()]);
        assert(lines.drop_last() =~= Seq::empty());
        reveal_strlit("import ");
        reveal_strlit("from ");
        assert("import "@.len() == 7 && "from "@.len() == 5);
        assert(line_names(lines.last()) =~= Seq::empty());
        assert(names_of_lines(lines.drop_last()) =~= Seq::empty());
        assert(script_names(import_script(names)) =~= names);
    } else {
        let name = names.last();
        assert(names[names.len() - 1] == name);
        lemma_import_line(name);
        if names.len() == 1 {
            assert(names =~= seq![name]);
        } else {
            let short = names.drop_last();
            assert forall|i: int| 0 <= i < short.len() implies is_word(#[trigger] short[i]) by {
                assert(short[i] == names[i]);
            }
            a_script_of_imports_imports_them(short);
            joined_scripts_import_what_both_import(import_script(short), import_line(name));
            assert(short + seq![name] =~= names);
        }
    }
}

proof fn lemma_import_line(name: Seq<char>)
    requires
        is_word(name),
    ensures
        script_names(import_line(name)) == seq![name],
{
    reveal_strlit("import ");
    reveal_strlit("from ");
    reveal_strlit(" import x");
    let line = import_line(name);
    assert("import "@.len() == 7 && "from "@.len() == 5 && " import x"@.len() == 9);
    assert forall|i: int| 0 <= i < line.len() implies #[trigger] line[i] != '\n' by {
        if 5 <= i < 5 + name.len() {
            assert(line[i] == name[i - 5]);
        } else if i >= 5 + name.len() {
            assert(line[i] == " import x"@[i - 5 - name.len()]);
        } else {
            assert(line[i] == "from "@[i]);
        }
    }
    text::lemma_split_without_separator(line, '\n');
    assert(line[0] == 'f');
    assert(line.last() == 'x');
    assert(text::trim(line) == line);
    assert(line.subrange(0, 7)[0] != "import "@[0]);
    assert(!"import "@.is_prefix_of(line));
    assert("from "@ =~= line.subrange(0, 5));
    let rest = line.skip(5);
    assert(rest =~= name + " import x"@);
    assert(!text::is_white(name[0]));
    text::lemma_word_before_white(name, " import x"@);
    assert(text::trim_start(rest) == rest);
    assert(seq![rest].drop_last() =~= Seq::empty());
    assert(first_words(seq![rest].drop_last()) =~= Seq::empty());
    assert(first_words(seq![rest]) =~= seq![name]);
    assert(seq![line].drop_last() =~= Seq::empty());
    assert(names_of_lines(seq![line].drop_last()) =~= Seq::empty());
    assert(script_names(line) =~= seq![name]);
}

/// A script that imports something from each of the imports of a script has the same imports.
pub proof fn imports_written_out_are_the_same(script: Seq<char>)
    ensures
        imports_of(import_script(imports_of(script))) == imports_of(script),
{
    let names = imports_of(script);
    imports_are_the_imported_names(script);
    imported_names_are_words(script);
    assert forall|i: int| 0 <= i < names.len() implies is_word(#[trigger] names[i]) by {
        assert(names.to_set().contains(names[i]));
        let j = choose|j: int|
            0 <= j < script_names(script).len() && script_names(script)[j] == names[i];
        assert(is_word(script_names(script)[j]));
    }
    a_script_of_imports_imports_them(names);
    imports_are_the_imported_names(import_script(names));
    text::ascending_lists_are_settled_by_their_members(imports_of(import_script(names)), names);
}

} // verus!
