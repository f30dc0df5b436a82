//! The host table: alias -> connection target, in order of first appearance.
//!
//! The table is an `indexmap::IndexMap`. What it holds is modelled as a
//! sequence of `(name, hostname)` pairs; the wrappers below state what each
//! map operation the library uses does to that sequence.

use indexmap::IndexMap;
use vstd::prelude::*;

verus! {

#[verifier::external_type_specification]
#[verifier::external_body]
#[verifier::reject_recursive_types(K)]
#[verifier::reject_recursive_types(V)]
#[verifier::reject_recursive_types(S)]
pub struct ExIndexMap<K, V, S>(IndexMap<K, V, S>);

/// Host aliases mapped to the address to connect to, in file order.
pub type HostMap = IndexMap<String, String>;

/// An entry of the table: the alias and its connection target.
pub type Entry = (Seq<char>, Seq<char>);

/// The entries of a host map, in the map's order.
pub uninterp spec fn host_entries(m: IndexMap<String, String>) -> Seq<Entry>;

/// The names of a sequence of entries.
pub open spec fn names(t: Seq<Entry>) -> Seq<Seq<char>> {
    t.map_values(|e: Entry| e.0)
}

/// `t` with `name` set to `target`: a known name keeps its place and takes
/// the new target; a new name goes last.
pub open spec fn table_insert(t: Seq<Entry>, name: Seq<char>, target: Seq<char>) -> Seq<Entry> {
    if names(t).contains(name) {
        t.map_values(|e: Entry| if e.0 == name { (name, target) } else { e })
    } else {
        t.push((name, target))
    }
}

/// Relies on `IndexMap::new`: the new map is empty.
#[verifier::external_body]
pub(crate) fn host_map_new() -> (r: HostMap)
    ensures
        host_entries(r) == Seq::<Entry>::empty(),
{
    IndexMap::new()
}

/// Relies on `IndexMap::insert`: an equivalent key keeps its place and its
/// value is replaced; otherwise the pair is added last.
#[verifier::external_body]
pub(crate) fn host_map_insert(m: &mut HostMap, name: String, target: String)
    ensures
        host_entries(*final(m)) == table_insert(host_entries(*old(m)), name@, target@),
{
    m.insert(name, target);
}

/// Relies on `IndexMap::len`: the number of entries.
#[verifier::external_body]
pub(crate) fn host_map_len(m: &HostMap) -> (r: usize)
    ensures
        r == host_entries(*m).len(),
{
    m.len()
}

/// Relies on `IndexMap::get_index`: the entry at position `i`, if there is
/// one.
#[verifier::external_body]
pub(crate) fn host_map_get_index(m: &HostMap, i: usize) -> (r: Option<(&String, &String)>)
    ensures
        match r {
            Some((k, v)) => i < host_entries(*m).len() && k@ == host_entries(*m)[i as int].0 && v@
                == host_entries(*m)[i as int].1,
            None => i >= host_entries(*m).len(),
        },
{
    m.get_index(i)
}

/// Setting a name that is already present leaves the order of names as it
/// was and gives that name the new target.
pub proof fn lemma_insert_known_name(t: Seq<Entry>, name: Seq<char>, target: Seq<char>, i: int)
    requires
        0 <= i < t.len(),
        t[i].0 == name,
    ensures
        names(table_insert(t, name, target)) == names(t),
        table_insert(t, name, target)[i] == (name, target),
{
    assert(names(t)[i] == name);
    assert(names(table_insert(t, name, target)) =~= names(t));
}

/// Setting a name never introduces a duplicate name.
pub proof fn lemma_insert_keeps_names_distinct(t: Seq<Entry>, name: Seq<char>, target: Seq<char>)
    requires
        crate::ordered_map::distinct_keys(names(t)),
    ensures
        crate::ordered_map::distinct_keys(names(table_insert(t, name, target))),
        names(table_insert(t, name, target)).contains(name),
{
    let r = table_insert(t, name, target);
    if names(t).contains(name) {
        assert(names(r) =~= names(t));
    } else {
        assert(names(r) =~= names(t).push(name));
        assert(names(r)[t.len() as int] == name);
    }
}

} // verus!
