//! What holds of the named values of a block whatever the order in which
//! they were given.

use crate::stack::tf::{
    distinct_keys, first_at, has_key, key_index, lemma_has_key, render_entries, render_entry,
    with_field, FieldView,
};
use crate::text::join;
use vstd::prelude::*;

verus! {

/// What the named values say, without their order: for each name, its
/// value.
pub open spec fn as_map(fields: Seq<(Seq<char>, FieldView)>) -> Map<Seq<char>, FieldView> {
    Map::new(|k: Seq<char>| has_key(fields, k), |k: Seq<char>| fields[key_index(fields, k)].1)
}

/// The lines that the named values are written on, one for each.
pub open spec fn entry_lines(fields: Seq<(Seq<char>, FieldView)>) -> Seq<Seq<char>> {
    Seq::new(fields.len(), |i: int| render_entry(fields[i].0, fields[i].1))
}

/// The named values are written line by line.
pub proof fn lemma_entries_are_lines(fields: Seq<(Seq<char>, FieldView)>)
    ensures
        render_entries(fields) == join(entry_lines(fields), "\n\t"@),
    decreases fields.len(),
{
    if fields.len() == 1 {
        assert(entry_lines(fields)[0] == render_entry(fields[0].0, fields[0].1));
    } else if fields.len() > 1 {
        lemma_entries_are_lines(fields.drop_last());
        assert(entry_lines(fields).drop_last() =~= entry_lines(fields.drop_last()));
        assert(entry_lines(fields).last() == render_entry(fields.last().0, fields.last().1));
    }
}

/// Where names are distinct, the value of a name is the one that stands
/// with it.
pub proof fn lemma_value_at(fields: Seq<(Seq<char>, FieldView)>, i: int)
    requires
        distinct_keys(fields),
        0 <= i < fields.len(),
    ensures
        has_key(fields, fields[i].0),
        key_index(fields, fields[i].0) == i,
        as_map(fields).dom().contains(fields[i].0),
        as_map(fields)[fields[i].0] == fields[i].1,
{
    lemma_has_key(fields, fields[i].0, i);
    let k = key_index(fields, fields[i].0);
    if k < i {
        assert(fields[k].0 != fields[i].0);
    }
}

/// Giving a name a value changes what the named values say at that name,
/// and nowhere else.
pub proof fn lemma_with_field_map(
    fields: Seq<(Seq<char>, FieldView)>,
    key: Seq<char>,
    value: FieldView,
)
    ensures
        as_map(with_field(fields, key, value)) == as_map(fields).insert(key, value),
{
    let after = with_field(fields, key, value);
    let at = if has_key(fields, key) {
        key_index(fields, key)
    } else {
        fields.len() as int
    };
    if has_key(fields, key) {
        assert(first_at(fields, key, at));
    } else {
        assert forall|j: int| 0 <= j < fields.len() implies (#[trigger] fields[j]).0 != key by {
            if fields[j].0 == key {
                lemma_has_key(fields, key, j);
            }
        }
    }
    assert(after[at] == (key, value));
    assert forall|j: int| 0 <= j < at implies (#[trigger] after[j]).0 != key by {
        assert(after[j] == fields[j]);
    }
    assert(first_at(after, key, at));
    assert forall|x: Seq<char>| has_key(after, x) <==> (has_key(fields, x) || x == key) by {
        if has_key(after, x) && x != key {
            let i = key_index(after, x);
            assert(first_at(after, x, i));
            assert(i != at);
            assert(fields[i].0 == x);
            lemma_has_key(fields, x, i);
        }
        if has_key(fields, x) && x != key {
            let i = key_index(fields, x);
            assert(first_at(fields, x, i));
            assert(after[i].0 == x);
            lemma_has_key(after, x, i);
        }
    }
    assert forall|x: Seq<char>| has_key(after, x) implies #[trigger] as_map(after)[x] == as_map(
        fields,
    ).insert(key, value)[x] by {
        let i = key_index(after, x);
        assert(first_at(after, x, i));
        if x == key {
            assert(i == at);
        } else {
            assert(i != at);
            assert(fields[i].0 == x);
            lemma_has_key(fields, x, i);
            let j = key_index(fields, x);
            assert(first_at(fields, x, j));
            assert(after[j].0 == x);
            assert(j == i);
        }
    }
    assert(as_map(after) =~= as_map(fields).insert(key, value));
}

/// The order in which two different names are given their values does not
/// show in what the named values say.
pub proof fn lemma_insertion_order(
    fields: Seq<(Seq<char>, FieldView)>,
    first: (Seq<char>, FieldView),
    second: (Seq<char>, FieldView),
)
    requires
        first.0 != second.0,
    ensures
        as_map(with_field(with_field(fields, first.0, first.1), second.0, second.1)) == as_map(
            with_field(with_field(fields, second.0, second.1), first.0, first.1),
        ),
{
    lemma_with_field_map(fields, first.0, first.1);
    lemma_with_field_map(fields, second.0, second.1);
    lemma_with_field_map(with_field(fields, first.0, first.1), second.0, second.1);
    lemma_with_field_map(with_field(fields, second.0, second.1), first.0, first.1);
    assert(as_map(fields).insert(first.0, first.1).insert(second.0, second.1) =~= as_map(
        fields,
    ).insert(second.0, second.1).insert(first.0, first.1));
}

/// Named values that say the same are written on the same lines, whatever
/// their order: reading the lines back gives the same names with the same
/// values.
pub proof fn lemma_same_lines(a: Seq<(Seq<char>, FieldView)>, b: Seq<(Seq<char>, FieldView)>)
    requires
        distinct_keys(a),
        distinct_keys(b),
        as_map(a) == as_map(b),
    ensures
        forall|line: Seq<char>| entry_lines(a).contains(line) <==> entry_lines(b).contains(line),
{
    assert forall|line: Seq<char>| entry_lines(a).contains(line) <==> entry_lines(b).contains(
        line,
    ) by {
        if entry_lines(a).contains(line) {
            let i = choose|i: int| 0 <= i < entry_lines(a).len() && entry_lines(a)[i] == line;
            lemma_value_at(a, i);
            assert(as_map(b).dom().contains(a[i].0));
            let j = key_index(b, a[i].0);
            assert(first_at(b, a[i].0, j));
            lemma_value_at(b, j);
            assert(entry_lines(b)[j] == line);
        }
        if entry_lines(b).contains(line) {
            let i = choose|i: int| 0 <= i < entry_lines(b).len() && entry_lines(b)[i] == line;
            lemma_value_at(b, i);
            assert(as_map(a).dom().contains(b[i].0));
            let j = key_index(a, b[i].0);
            assert(first_at(a, b[i].0, j));
            lemma_value_at(a, j);
            assert(entry_lines(a)[j] == line);
        }
    }
}

} // verus!
