//! Tables: pairs of a name and a value, each name once, in the order in which they came.

use vstd::prelude::*;

use crate::text;
use crate::text::text_eq;

verus! {

/// The first place, at or after `from`, of a name in a table.
pub open spec fn place_of<T>(table: Seq<(Seq<char>, T)>, name: Seq<char>, from: int) -> Option<int>
    decreases table.len() - from,
{
    if from < 0 || from >= table.len() {
        None
    } else if table[from].0 == name {
        Some(from)
    } else {
        place_of(table, name, from + 1)
    }
}

/// The value of a name in a table.
pub open spec fn entry_of<T>(table: Seq<(Seq<char>, T)>, name: Seq<char>) -> Option<T> {
    match place_of(table, name, 0) {
        Some(i) => Some(table[i].1),
        None => None,
    }
}

/// A table once a name has a value, in the place of the value that it had.
pub open spec fn with_entry<T>(table: Seq<(Seq<char>, T)>, name: Seq<char>, value: T) -> Seq<
    (Seq<char>, T),
> {
    match place_of(table, name, 0) {
        Some(i) => table.update(i, (name, value)),
        None => table.push((name, value)),
    }
}

/// Whether every name of a table stands in it once.
pub open spec fn names_once<T>(table: Seq<(Seq<char>, T)>) -> bool {
    forall|i: int, j: int|
        #![trigger table[i], table[j]]
        0 <= i < j < table.len() ==> table[i].0 != table[j].0
}

/// What a table holds.
pub open spec fn entries<T: DeepView>(table: Seq<(String, T)>) -> Seq<(Seq<char>, T::V)> {
    table.map_values(|e: (String, T)| (e.0@, e.1.deep_view()))
}

/// Where a name is found, and that it is nowhere where it is not found.
pub proof fn lemma_place_of<T>(table: Seq<(Seq<char>, T)>, name: Seq<char>, from: int)
    requires
        0 <= from,
    ensures
        match place_of(table, name, from) {
            Some(i) => from <= i < table.len() && table[i].0 == name && forall|j: int|
                from <= j < i ==> (#[trigger] table[j]).0 != name,
            None => forall|j: int| from <= j < table.len() ==> (#[trigger] table[j]).0 != name,
        },
    decreases table.len() - from,
{
    if from < table.len() && table[from].0 != name {
        lemma_place_of(table, name, from + 1);
    }
}

/// A name that has been given a value has it, no other name's value has changed, and each
/// name still stands once.
pub proof fn law_table_keeps_what_it_is_given<T>(
    table: Seq<(Seq<char>, T)>,
    name: Seq<char>,
    value: T,
    other: Seq<char>,
)
    ensures
        entry_of(with_entry(table, name, value), name) == Some(value),
        other != name ==> entry_of(with_entry(table, name, value), other) == entry_of(table, other),
        names_once(table) ==> names_once(with_entry(table, name, value)),
{
    let after = with_entry(table, name, value);
    lemma_place_of(table, name, 0);
    lemma_place_of(after, name, 0);
    lemma_place_of(table, other, 0);
    lemma_place_of(after, other, 0);
    match place_of(table, name, 0) {
        Some(i) => {
            assert(after[i].0 == name);
            assert(forall|j: int| 0 <= j < after.len() && j != i ==> after[j] == table[j]);
        },
        None => {
            assert(after[table.len() as int].0 == name);
            assert(forall|j: int| 0 <= j < table.len() ==> after[j] == table[j]);
        },
    }
    if other != name {
        match place_of(after, other, 0) {
            Some(k) => {
                assert(table[k] == after[k]);
                let j = place_of(table, other, 0)->0;
                assert(after[j].0 == table[j].0);
            },
            None => {
                if place_of(table, other, 0) is Some {
                    let j = place_of(table, other, 0)->0;
                    assert(after[j].0 == table[j].0);
                }
            },
        }
    }
}

/// Finds a name in a table.
pub fn find_name<T: DeepView>(table: &Vec<(String, T)>, name: &str) -> (r: Option<usize>)
    ensures
        match r {
            Some(i) => i < table@.len() && place_of(entries(table@), name@, 0) == Some(i as int),
            None => place_of(entries(table@), name@, 0) is None,
        },
{
    let ghost all = entries(table@);
    let mut i: usize = 0;
    while i < table.len()
        invariant
            i <= table@.len(),
            all == entries(table@),
            place_of(all, name@, 0) == place_of(all, name@, i as int),
        decreases table@.len() - i,
    {
        if text_eq(table[i].0.as_str(), name) {
            return Some(i);
        }
        i = i + 1;
    }
    None
}

/// The value of a name in a table.
pub fn lookup<'a, T: DeepView>(table: &'a Vec<(String, T)>, name: &str) -> (r: Option<&'a T>)
    ensures
        match r {
            Some(v) => entry_of(entries(table@), name@) == Some(v.deep_view()),
            None => entry_of(entries(table@), name@) is None,
        },
{
    match find_name(table, name) {
        Some(i) => Some(&table[i].1),
        None => None,
    }
}

/// Gives a name a value, in the place of the value that it had.
pub fn insert<T: DeepView>(table: &mut Vec<(String, T)>, name: &str, value: T)
    ensures
        entries(final(table)@) == with_entry(entries(old(table)@), name@, value.deep_view()),
        names_once(entries(old(table)@)) ==> names_once(entries(final(table)@)),
{
    let ghost before = entries(table@);
    proof {
        law_table_keeps_what_it_is_given(before, name@, value.deep_view(), name@);
    }
    match find_name(table, name) {
        Some(i) => {
            let key = name.to_string();
            table.set(i, (key, value));
            proof {
                assert(entries(table@) =~= before.update(i as int, (name@, value.deep_view())));
            }
        },
        None => {
            let key = name.to_string();
            table.push((key, value));
            proof {
                assert(entries(table@) =~= before.push((name@, value.deep_view())));
            }
        },
    }
}

// ---------------------------------------------------------------------------
// Tables of lists
// ---------------------------------------------------------------------------

/// A table of lists once a text is in the list of a name: at its end, unless it was there
/// already.
pub open spec fn with_listed(
    table: Seq<(Seq<char>, Seq<Seq<char>>)>,
    name: Seq<char>,
    item: Seq<char>,
) -> Seq<(Seq<char>, Seq<Seq<char>>)> {
    match entry_of(table, name) {
        Some(ids) => if ids.contains(item) {
            table
        } else {
            with_entry(table, name, ids.push(item))
        },
        None => with_entry(table, name, seq![item]),
    }
}

/// The texts of a list, as its entry in a table shows them.
pub proof fn lemma_texts_view(v: Vec<String>)
    ensures
        v.deep_view() == text::views(v@),
{
    assert(v.deep_view() =~= text::views(v@));
}

/// Whether a text is in a list.
pub fn lists(v: &Vec<String>, s: &str) -> (r: bool)
    ensures
        r == text::views(v@).contains(s@),
{
    let ghost all = text::views(v@);
    let mut i: usize = 0;
    while i < v.len()
        invariant
            i <= v@.len(),
            all == text::views(v@),
            forall|j: int| 0 <= j < i ==> #[trigger] all[j] != s@,
        decreases v@.len() - i,
    {
        proof {
            assert(all[i as int] == v@[i as int]@);
        }
        if text_eq(v[i].as_str(), s) {
            return true;
        }
        i = i + 1;
    }
    proof {
        assert(!all.contains(s@));
    }
    false
}

/// Puts a text at the end of the list of a name, unless it is there already.
pub fn add_listed(table: &mut Vec<(String, Vec<String>)>, name: &str, item: &str)
    ensures
        entries(final(table)@) == with_listed(entries(old(table)@), name@, item@),
{
    let ghost before = entries(table@);
    match find_name(table, name) {
        Some(i) => {
            let ghost start = table@;
            proof {
                assert(before[i as int] == (start[i as int].0@, start[i as int].1.deep_view()));
                lemma_texts_view(start[i as int].1);
                lemma_place_of(before, name@, 0);
            }
            if !lists(&table[i].1, item) {
                table[i].1.push(item.to_string());
                proof {
                    lemma_texts_view(table@[i as int].1);
                    assert(text::views(table@[i as int].1@) =~= text::views(
                        start[i as int].1@,
                    ).push(item@));
                    assert(entries(table@) =~= before.update(
                        i as int,
                        (name@, before[i as int].1.push(item@)),
                    ));
                }
            }
        },
        None => {
            let mut list: Vec<String> = Vec::new();
            list.push(item.to_string());
            proof {
                lemma_texts_view(list);
                assert(text::views(list@) =~= seq![item@]);
            }
            insert(table, name, list);
        },
    }
}

/// Whether a text is in the list of a name.
pub open spec fn is_listed_under(
    table: Seq<(Seq<char>, Seq<Seq<char>>)>,
    name: Seq<char>,
    item: Seq<char>,
) -> bool {
    match entry_of(table, name) {
        Some(ids) => ids.contains(item),
        None => false,
    }
}

/// A text that was put into a list is in it, and no other has left any list.
pub proof fn law_list_keeps_what_it_is_given(
    table: Seq<(Seq<char>, Seq<Seq<char>>)>,
    name: Seq<char>,
    item: Seq<char>,
    other: Seq<char>,
    id: Seq<char>,
)
    ensures
        is_listed_under(with_listed(table, name, item), name, item),
        is_listed_under(table, other, id) ==> is_listed_under(with_listed(table, name, item), other, id),
{
    let ids = match entry_of(table, name) {
        Some(ids) => ids.push(item),
        None => seq![item],
    };
    law_table_keeps_what_it_is_given(table, name, ids, other);
    assert(ids[ids.len() - 1] == item);
    if entry_of(table, name) is Some {
        let before = entry_of(table, name)->0;
        assert forall|x: Seq<char>| before.contains(x) implies ids.contains(x) by {
            let k = choose|k: int| 0 <= k < before.len() && before[k] == x;
            assert(ids[k] == x);
        }
    }
}

} // verus!
