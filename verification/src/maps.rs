use vstd::prelude::*;

use crate::ast::{Cmd, CmdV, Var, cmds_view};
use crate::value::{Value, ValueV};
use linked_hash_map::LinkedHashMap;

verus! {

#[verifier::external_type_specification]
#[verifier::external_body]
#[verifier::reject_recursive_types(K)]
#[verifier::reject_recursive_types(V)]
#[verifier::reject_recursive_types(S)]
pub struct ExLinkedHashMap<K, V, S>(LinkedHashMap<K, V, S>);

/// What a variable map holds: its (key, value) pairs in insertion order.
pub uninterp spec fn var_entries(m: LinkedHashMap<Var, Value>) -> Seq<(Var, ValueV)>;

/// What a command-sequence map holds: its (key, body) pairs in insertion
/// order.
pub uninterp spec fn cmd_entries(m: LinkedHashMap<Var, Vec<Cmd>>) -> Seq<(Var, Seq<CmdV>)>;

/// The first index holding `k`, or -1 when `k` is absent.
pub open spec fn find_key<T>(s: Seq<(Var, T)>, k: Var) -> int
    decreases s.len(),
{
    if s.len() == 0 {
        -1
    } else if s[0].0 == k {
        0
    } else {
        let r = find_key(s.drop_first(), k);
        if r == -1 {
            -1
        } else {
            r + 1
        }
    }
}

/// The value stored under `k`, if any.
pub open spec fn assoc<T>(s: Seq<(Var, T)>, k: Var) -> Option<T> {
    let i = find_key(s, k);
    if i == -1 {
        Option::None
    } else {
        Option::Some(s[i].1)
    }
}

/// Store `v` under `k`: an existing entry is overwritten in place, a new one
/// goes to the back.
pub open spec fn put_entry<T>(s: Seq<(Var, T)>, k: Var, v: T) -> Seq<(Var, T)> {
    let i = find_key(s, k);
    if i == -1 {
        s.push((k, v))
    } else {
        s.update(i, (k, v))
    }
}

/// No key occurs twice.
pub open spec fn keys_unique<T>(s: Seq<(Var, T)>) -> bool {
    forall|i: int, j: int| 0 <= i < j < s.len() ==> s[i].0 != s[j].0
}

pub proof fn lemma_find_key<T>(s: Seq<(Var, T)>, k: Var)
    ensures
        find_key(s, k) == -1 ==> forall|i: int| 0 <= i < s.len() ==> s[i].0 != k,
        find_key(s, k) != -1 ==> 0 <= find_key(s, k) < s.len() && s[find_key(s, k)].0 == k,
    decreases s.len(),
{
    if s.len() > 0 && s[0].0 != k {
        lemma_find_key(s.drop_first(), k);
        assert forall|i: int| 1 <= i < s.len() implies s.drop_first()[i - 1] == s[i] by {}
    }
}

pub proof fn lemma_put_entry_unique<T>(s: Seq<(Var, T)>, k: Var, v: T)
    requires
        keys_unique(s),
    ensures
        keys_unique(put_entry(s, k, v)),
{
    lemma_find_key(s, k);
}

/// Relies on `LinkedHashMap::new`: the fresh map is empty.
#[verifier::external_body]
pub(crate) fn new_var_map() -> (m: LinkedHashMap<Var, Value>)
    ensures
        var_entries(m) == Seq::<(Var, ValueV)>::empty(),
{
    LinkedHashMap::new()
}

/// Relies on `LinkedHashMap::new`: the fresh map is empty.
#[verifier::external_body]
pub(crate) fn new_cmd_map() -> (m: LinkedHashMap<Var, Vec<Cmd>>)
    ensures
        cmd_entries(m) == Seq::<(Var, Seq<CmdV>)>::empty(),
{
    LinkedHashMap::new()
}

/// Relies on `LinkedHashMap::get`: the value stored under the key, if any.
#[verifier::external_body]
pub(crate) fn var_map_get<'a>(m: &'a LinkedHashMap<Var, Value>, k: &Var) -> (r: Option<&'a Value>)
    ensures
        match r {
            Option::Some(v) => assoc(var_entries(*m), *k) == Option::Some(v@),
            Option::None => assoc(var_entries(*m), *k) is None,
        },
{
    m.get(k)
}

/// Relies on `LinkedHashMap::get`: the body stored under the key, if any.
#[verifier::external_body]
pub(crate) fn cmd_map_get<'a>(m: &'a LinkedHashMap<Var, Vec<Cmd>>, k: &Var) -> (r: Option<&'a Vec<Cmd>>)
    ensures
        match r {
            Option::Some(b) => assoc(cmd_entries(*m), *k) == Option::Some(cmds_view(b@)),
            Option::None => assoc(cmd_entries(*m), *k) is None,
        },
{
    m.get(k)
}

/// Relies on `LinkedHashMap::entry`: writing through an occupied entry keeps
/// its place in the iteration order, a vacant entry is appended at the back.
#[verifier::external_body]
pub(crate) fn var_map_put(m: &mut LinkedHashMap<Var, Value>, k: Var, v: Value)
    ensures
        var_entries(*final(m)) == put_entry(var_entries(*old(m)), k, v@),
{
    match m.entry(k) {
        linked_hash_map::Entry::Occupied(e) => {
            *e.into_mut() = v;
        },
        linked_hash_map::Entry::Vacant(e) => {
            e.insert(v);
        },
    }
}

/// Relies on `LinkedHashMap::entry`: writing through an occupied entry keeps
/// its place in the iteration order, a vacant entry is appended at the back.
#[verifier::external_body]
pub(crate) fn cmd_map_put(m: &mut LinkedHashMap<Var, Vec<Cmd>>, k: Var, v: Vec<Cmd>)
    ensures
        cmd_entries(*final(m)) == put_entry(cmd_entries(*old(m)), k, cmds_view(v@)),
{
    match m.entry(k) {
        linked_hash_map::Entry::Occupied(e) => {
            *e.into_mut() = v;
        },
        linked_hash_map::Entry::Vacant(e) => {
            e.insert(v);
        },
    }
}

/// Relies on `LinkedHashMap::keys`: the keys, in insertion order.
#[verifier::external_body]
pub(crate) fn var_map_keys(m: &LinkedHashMap<Var, Value>) -> (r: Vec<Var>)
    ensures
        r@.len() == var_entries(*m).len(),
        forall|i: int| 0 <= i < r@.len() ==> r@[i] == var_entries(*m)[i].0,
{
    m.keys().cloned().collect()
}

} // verus!
