//! The mathematical model shared by the name-keyed registries: a list of
//! name/value entries, read as a map in which the latest entry for a name
//! wins.

use vstd::prelude::*;

verus! {

/// The map described by a list of name/value entries, last write winning.
pub open spec fn table_map_of<V>(entries: Seq<(String, V)>) -> Map<Seq<char>, V>
    decreases entries.len(),
{
    if entries.len() == 0 {
        Map::empty()
    } else {
        table_map_of(entries.drop_last()).insert(entries.last().0@, entries.last().1)
    }
}

/// A name no entry carries is not in the map.
pub proof fn lemma_table_absent<V>(entries: Seq<(String, V)>, key: Seq<char>)
    requires
        forall|j: int| 0 <= j < entries.len() ==> (#[trigger] entries[j].0)@ != key,
    ensures
        !table_map_of(entries).contains_key(key),
    decreases entries.len(),
{
    if entries.len() > 0 {
        lemma_table_absent(entries.drop_last(), key);
    }
}

/// The latest entry for a name is the map's value for it.
pub proof fn lemma_table_found<V>(entries: Seq<(String, V)>, i: int, key: Seq<char>)
    requires
        0 <= i < entries.len(),
        entries[i].0@ == key,
        forall|j: int| i < j < entries.len() ==> (#[trigger] entries[j].0)@ != key,
    ensures
        table_map_of(entries).contains_key(key),
        table_map_of(entries)[key] == entries[i].1,
    decreases entries.len(),
{
    if i < entries.len() - 1 {
        lemma_table_found(entries.drop_last(), i, key);
    }
}

/// Appending an entry updates the map at that entry's name alone.
pub proof fn lemma_table_push<V>(entries: Seq<(String, V)>, name: String, value: V)
    ensures
        table_map_of(entries.push((name, value))) == table_map_of(entries).insert(name@, value),
{
    assert(entries.push((name, value)).drop_last() =~= entries);
}

} // verus!
