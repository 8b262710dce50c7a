//! Reading named values back from the text that the serializer wrote: one
//! name and one value on each line.

use crate::stack::tf::{
    distinct_keys, eq_prefix, first_at, key_index, render_entries, render_entry, render_field,
    FieldView,
};
use crate::stack::tf_laws::{as_map, entry_lines, lemma_entries_are_lines, lemma_value_at};
use crate::text::{chars_of, free_of, join, lemma_split_join, split, split_text, texts};
use vstd::prelude::*;
use vstd::string::*;

verus! {

/// Where `c` first stands in `s` at or behind `i`; the length of `s` where
/// it does not.
pub open spec fn first_from(s: Seq<char>, c: char, i: int) -> int
    decreases s.len() - i,
{
    if i < 0 || i >= s.len() {
        s.len() as int
    } else if s[i] == c {
        i
    } else {
        first_from(s, c, i + 1)
    }
}

/// Whether `s` begins with an equals sign and a space.
pub open spec fn is_assigned(s: Seq<char>) -> bool {
    s.len() >= 2 && s[0] == '=' && s[1] == ' '
}

/// The name and the value on a line: the name ends at the first space; the
/// value follows, behind the equals sign where there is one.
pub open spec fn entry_of(line: Seq<char>) -> (Seq<char>, Seq<char>) {
    let k = first_from(line, ' ', 0);
    let rest = if k < line.len() {
        line.skip(k + 1)
    } else {
        Seq::empty()
    };
    (
        line.take(k),
        if is_assigned(rest) {
            rest.skip(2)
        } else {
            rest
        },
    )
}

/// The line without the tab that it begins with, if it begins with one.
pub open spec fn unindented(line: Seq<char>) -> Seq<char> {
    if line.len() > 0 && line[0] == '\t' {
        line.skip(1)
    } else {
        line
    }
}

/// The names and values written between the braces of an object: one pair
/// for each line, every line but the first behind a tab.
pub open spec fn read_entries(body: Seq<char>) -> Seq<(Seq<char>, Seq<char>)> {
    if body.len() == 0 {
        Seq::empty()
    } else {
        Seq::new(
            split(body, '\n').len(),
            |i: int|
                entry_of(
                    if i == 0 {
                        split(body, '\n')[i]
                    } else {
                        unindented(split(body, '\n')[i])
                    },
                ),
        )
    }
}

/// What each pair of strings says.
pub open spec fn pairs(entries: Seq<(String, String)>) -> Seq<(Seq<char>, Seq<char>)> {
    Seq::new(entries.len(), |i: int| (entries[i].0@, entries[i].1@))
}

/// Reads the name and the value on a line.
pub fn read_line(line: &str) -> (entry: (String, String))
    ensures
        (entry.0@, entry.1@) == entry_of(line@),
{
    let chars = chars_of(line);
    let n = chars.len();
    let mut k: usize = 0;
    while k < n && chars[k] != ' '
        invariant
            k <= n,
            n == chars.len(),
            chars@ == line@,
            first_from(line@, ' ', 0) == first_from(line@, ' ', k as int),
        decreases n - k,
    {
        k += 1;
    }
    let name = line.substring_char(0, k).to_owned();
    assert(name@ =~= line@.take(k as int));
    if k == n {
        let value = String::new();
        assert(value@ =~= Seq::<char>::empty());
        return (name, value);
    }
    let ghost rest = line@.skip(k + 1);
    if n - k >= 3 && chars[k + 1] == '=' && chars[k + 2] == ' ' {
        let value = line.substring_char(k + 3, n).to_owned();
        proof {
            assert(rest[0] == line@[k + 1]);
            assert(rest[1] == line@[k + 2]);
            assert(value@ =~= rest.skip(2));
        }
        (name, value)
    } else {
        let value = line.substring_char(k + 1, n).to_owned();
        proof {
            if rest.len() >= 2 {
                assert(rest[0] == line@[k + 1]);
                assert(rest[1] == line@[k + 2]);
            }
            assert(value@ =~= rest);
        }
        (name, value)
    }
}

/// Reads the names and values written between the braces of an object.
pub fn read_back(body: &str) -> (entries: Vec<(String, String)>)
    ensures
        pairs(entries@) == read_entries(body@),
{
    let mut entries: Vec<(String, String)> = Vec::new();
    if body.is_empty() {
        assert(pairs(entries@) =~= read_entries(body@));
        return entries;
    }
    let lines = split_text(body, '\n');
    let mut i: usize = 0;
    while i < lines.len()
        invariant
            i <= lines.len(),
            body@.len() > 0,
            texts(lines@) == split(body@, '\n'),
            pairs(entries@) == read_entries(body@).take(i as int),
        decreases lines.len() - i,
    {
        let ghost before = pairs(entries@);
        assert(texts(lines@)[i as int] == lines[i as int]@);
        let line = lines[i].as_str();
        let chars = chars_of(line);
        let entry = if i > 0 && chars.len() > 0 && chars[0] == '\t' {
            let inner = line.substring_char(1, chars.len());
            assert(inner@ =~= line@.skip(1));
            read_line(inner)
        } else {
            read_line(line)
        };
        entries.push(entry);
        proof {
            assert(pairs(entries@) =~= before.push((entry.0@, entry.1@)));
            assert(pairs(entries@) =~= read_entries(body@).take(i + 1));
        }
        i += 1;
    }
    assert(read_entries(body@).take(lines.len() as int) =~= read_entries(body@));
    entries
}

/// Whether a named value can be read back from its line: the name holds no
/// space and no line break, and the value is written on one line.
pub open spec fn readable(entry: (Seq<char>, FieldView)) -> bool {
    &&& forall|k: int| 0 <= k < entry.0.len() ==> entry.0[k] != ' ' && entry.0[k] != '\n'
    &&& !(entry.1 is Object)
    &&& forall|k: int|
        0 <= k < render_field(entry.1).len() ==> #[trigger] render_field(entry.1)[k] != '\n'
}

/// The names and the texts of the values, as they were written.
pub open spec fn written(m: Seq<(Seq<char>, FieldView)>) -> Seq<(Seq<char>, Seq<char>)> {
    Seq::new(m.len(), |i: int| (m[i].0, render_field(m[i].1)))
}

/// The lines as they stand between line breaks: every line but the first
/// behind a tab.
spec fn tabbed(lines: Seq<Seq<char>>) -> Seq<Seq<char>> {
    Seq::new(
        lines.len(),
        |i: int|
            if i == 0 {
                lines[i]
            } else {
                seq!['\t'] + lines[i]
            },
    )
}

proof fn lemma_tabbed_join(lines: Seq<Seq<char>>)
    requires
        lines.len() > 0,
    ensures
        join(lines, seq!['\n', '\t']) == join(tabbed(lines), seq!['\n']),
    decreases lines.len(),
{
    if lines.len() == 1 {
        assert(tabbed(lines)[0] == lines[0]);
    } else {
        let init = lines.drop_last();
        lemma_tabbed_join(init);
        assert(tabbed(lines).drop_last() =~= tabbed(init));
        assert(tabbed(lines).last() == seq!['\t'] + lines.last());
        assert(join(init, seq!['\n', '\t']) + seq!['\n', '\t'] + lines.last() =~= join(
            tabbed(init),
            seq!['\n'],
        ) + seq!['\n'] + (seq!['\t'] + lines.last()));
    }
}

proof fn lemma_first_from(s: Seq<char>, c: char, at: int, i: int)
    requires
        0 <= i <= at < s.len(),
        s[at] == c,
        forall|j: int| 0 <= j < at ==> s[j] != c,
    ensures
        first_from(s, c, i) == at,
    decreases at - i,
{
    if i < at {
        lemma_first_from(s, c, at, i + 1);
    }
}

/// A line that was written gives back its name and the text of its value.
pub proof fn lemma_entry_read(entry: (Seq<char>, FieldView))
    requires
        readable(entry),
    ensures
        entry_of(render_entry(entry.0, entry.1)) == (entry.0, render_field(entry.1)),
        forall|k: int|
            0 <= k < render_entry(entry.0, entry.1).len() ==> #[trigger] render_entry(
                entry.0,
                entry.1,
            )[k] != '\n',
        render_entry(entry.0, entry.1).len() > 0,
{
    reveal_strlit(" ");
    reveal_strlit("= ");
    let key = entry.0;
    let value = render_field(entry.1);
    let line = render_entry(key, entry.1);
    assert(" "@ =~= seq![' ']);
    assert("= "@ =~= seq!['=', ' ']);
    assert(eq_prefix(entry.1) == "= "@);
    assert(line =~= key + seq![' '] + seq!['=', ' '] + value);
    let at = key.len() as int;
    assert(line[at] == ' ');
    assert forall|j: int| 0 <= j < at implies line[j] != ' ' by {
        assert(line[j] == key[j]);
    }
    lemma_first_from(line, ' ', at, 0);
    let rest = line.skip(at + 1);
    assert(rest =~= seq!['=', ' '] + value);
    assert(rest.skip(2) =~= value);
    assert(line.take(at) =~= key);
    assert forall|k: int| 0 <= k < line.len() implies #[trigger] line[k] != '\n' by {
        if k < at {
            assert(line[k] == key[k]);
        } else if k >= at + 3 {
            assert(line[k] == value[k - at - 3]);
        }
    }
}

/// Reading back what was written gives every name once more, with the text
/// of its own value, in the order in which they were written: no pair is
/// lost and none is added.
pub proof fn lemma_read_back(m: Seq<(Seq<char>, FieldView)>)
    requires
        m.len() > 0,
        forall|i: int| 0 <= i < m.len() ==> readable(#[trigger] m[i]),
    ensures
        read_entries(render_entries(m)) == written(m),
{
    reveal_strlit("\n\t");
    assert("\n\t"@ =~= seq!['\n', '\t']);
    let lines = entry_lines(m);
    let body = render_entries(m);
    lemma_entries_are_lines(m);
    lemma_tabbed_join(lines);
    let marked = tabbed(lines);
    assert forall|i: int| 0 <= i < lines.len() implies lines[i].len() > 0 && entry_of(
        #[trigger] lines[i],
    ) == (m[i].0, render_field(m[i].1)) && forall|k: int|
        0 <= k < lines[i].len() ==> lines[i][k] != '\n' by {
        assert(readable(m[i]));
        lemma_entry_read(m[i]);
        assert forall|k: int| 0 <= k < lines[i].len() implies lines[i][k] != '\n' by {
            assert(render_entry(m[i].0, m[i].1)[k] != '\n');
        }
    }
    assert(free_of(marked, '\n')) by {
        assert forall|i: int, k: int|
            0 <= i < marked.len() && 0 <= k < marked[i].len() implies #[trigger] marked[i][k]
            != '\n' by {
            assert(entry_of(lines[i]) == (m[i].0, render_field(m[i].1)));
            if i > 0 && k > 0 {
                assert(marked[i][k] == lines[i][k - 1]);
            } else if i == 0 {
                assert(marked[i][k] == lines[i][k]);
            }
        }
    }
    lemma_split_join(marked, '\n');
    assert(split(body, '\n') == marked);
    assert(body.len() > 0) by {
        assert(entry_of(lines[0]) == (m[0].0, render_field(m[0].1)));
        if body.len() == 0 {
            assert(split(body, '\n')[0].len() == 0);
            assert(marked[0] == lines[0]);
        }
    }
    assert forall|i: int| 0 <= i < m.len() implies read_entries(body)[i] == written(m)[i] by {
        assert(entry_of(lines[i]) == (m[i].0, render_field(m[i].1)));
        if i > 0 {
            assert(marked[i] == seq!['\t'] + lines[i]);
            assert(unindented(marked[i]) =~= lines[i]);
        } else {
            assert(marked[i] == lines[i]);
        }
    }
    assert(read_entries(body) =~= written(m));
}

/// What stands between the braces of an object, where the text is an
/// object.
pub open spec fn object_body(text: Seq<char>) -> Option<Seq<char>> {
    if text.len() >= 5 && text.take(3) == seq!['{', '\n', '\t'] && text.skip(text.len() - 2)
        == seq!['\n', '}'] {
        Some(text.subrange(3, text.len() - 2))
    } else {
        None
    }
}

/// The names and values of an object, where the text is an object.
pub open spec fn read_object_text(text: Seq<char>) -> Option<Seq<(Seq<char>, Seq<char>)>> {
    match object_body(text) {
        Some(body) => Some(read_entries(body)),
        None => None,
    }
}

/// Reads the names and values of an object back from its text. A text that
/// does not stand between the braces of an object is not read.
pub fn read_object(text: &str) -> (r: Option<Vec<(String, String)>>)
    ensures
        match r {
            Some(entries) => read_object_text(text@) == Some(pairs(entries@)),
            None => read_object_text(text@) is None,
        },
{
    let chars = chars_of(text);
    let n = chars.len();
    if n < 5 {
        return None;
    }
    if chars[0] != '{' || chars[1] != '\n' || chars[2] != '\t' {
        assert(text@.take(3)[0] == text@[0]);
        assert(text@.take(3)[1] == text@[1]);
        assert(text@.take(3)[2] == text@[2]);
        return None;
    }
    if chars[n - 2] != '\n' || chars[n - 1] != '}' {
        assert(text@.skip(n - 2)[0] == text@[n - 2]);
        assert(text@.skip(n - 2)[1] == text@[n - 1]);
        return None;
    }
    assert(text@.take(3) =~= seq!['{', '\n', '\t']);
    assert(text@.skip(n - 2) =~= seq!['\n', '}']);
    Some(read_back(text.substring_char(3, n - 2)))
}

/// Reading back the text of an object gives every name once more, with the
/// text of its own value.
pub proof fn lemma_object_read_back(m: Seq<(Seq<char>, FieldView)>)
    requires
        m.len() > 0,
        forall|i: int| 0 <= i < m.len() ==> readable(#[trigger] m[i]),
    ensures
        read_object_text(render_field(FieldView::Object(m))) == Some(written(m)),
{
    reveal_strlit("{\n\t");
    reveal_strlit("\n}");
    assert("{\n\t"@ =~= seq!['{', '\n', '\t']);
    assert("\n}"@ =~= seq!['\n', '}']);
    let body = render_entries(m);
    let text = render_field(FieldView::Object(m));
    assert(text == crate::stack::tf::render_object(m));
    assert(text =~= seq!['{', '\n', '\t'] + body + seq!['\n', '}']);
    assert(text.take(3) =~= seq!['{', '\n', '\t']);
    assert(text.skip(text.len() - 2) =~= seq!['\n', '}']);
    assert(text.subrange(3, text.len() - 2) =~= body);
    lemma_read_back(m);
}

/// Round trip: named values that say the same are read back as the same
/// pairs, whatever the order in which they were given. A pair is read from
/// the one text exactly if it is read from the other.
pub proof fn lemma_read_back_any_order(
    a: Seq<(Seq<char>, FieldView)>,
    b: Seq<(Seq<char>, FieldView)>,
)
    requires
        a.len() > 0,
        b.len() > 0,
        distinct_keys(a),
        distinct_keys(b),
        as_map(a) == as_map(b),
        forall|i: int| 0 <= i < a.len() ==> readable(#[trigger] a[i]),
        forall|i: int| 0 <= i < b.len() ==> readable(#[trigger] b[i]),
    ensures
        forall|pair: (Seq<char>, Seq<char>)|
            read_entries(render_entries(a)).contains(pair) <==> read_entries(
                render_entries(b),
            ).contains(pair),
{
    lemma_read_back(a);
    lemma_read_back(b);
    let x = written(a);
    let y = written(b);
    assert forall|pair: (Seq<char>, Seq<char>)| x.contains(pair) <==> y.contains(pair) by {
        if x.contains(pair) {
            let i = choose|i: int| 0 <= i < x.len() && x[i] == pair;
            lemma_value_at(a, i);
            assert(as_map(b).dom().contains(a[i].0));
            let j = key_index(b, a[i].0);
            assert(first_at(b, a[i].0, j));
            lemma_value_at(b, j);
            assert(y[j] == pair);
        }
        if y.contains(pair) {
            let i = choose|i: int| 0 <= i < y.len() && y[i] == pair;
            lemma_value_at(b, i);
            assert(as_map(a).dom().contains(b[i].0));
            let j = key_index(a, b[i].0);
            assert(first_at(a, b[i].0, j));
            lemma_value_at(a, j);
            assert(x[j] == pair);
        }
    }
}

} // verus!
