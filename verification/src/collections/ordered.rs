//! The persistent ordered collections of `im` that the sync DAG keeps its
//! state in, with what each call does to their contents.
use vstd::prelude::*;

use super::unique_ident::{ident_lt, UniqueIdent};

verus! {

/// `im::OrdSet`, a persistent ordered set.
#[verifier::external_type_specification]
#[verifier::external_body]
#[verifier::reject_recursive_types(A)]
pub struct ExOrdSet<A>(im::OrdSet<A>);

/// `im::OrdMap`, a persistent ordered map.
#[verifier::external_type_specification]
#[verifier::external_body]
#[verifier::reject_recursive_types(K)]
#[verifier::reject_recursive_types(V)]
pub struct ExOrdMap<K, V>(im::OrdMap<K, V>);

/// A file name, as the DAV collection index keys it.
pub type FileName = String;

/// An index entry of a DAV collection: blob, file name, etag.
pub type IndexEntry = (UniqueIdent, String, String);

/// What happened to a file at a sync token.
#[derive(Clone, Debug)]
pub enum SyncChange {
    Found(FileName),
    NotFound(FileName),
}

/// The identifiers an `OrdSet` of identifiers holds.
pub uninterp spec fn token_set_view(s: im::OrdSet<UniqueIdent>) -> Set<UniqueIdent>;

/// The identifier sets an `OrdMap` from identifiers to identifier sets holds.
pub uninterp spec fn ancestor_map_view(m: im::OrdMap<UniqueIdent, im::OrdSet<UniqueIdent>>) -> Map<
    UniqueIdent,
    im::OrdSet<UniqueIdent>,
>;

/// The index entries an `OrdMap` from blob identifiers holds.
pub uninterp spec fn blob_table_view(m: im::OrdMap<UniqueIdent, IndexEntry>) -> Map<UniqueIdent, IndexEntry>;

/// The blob identifiers an `OrdMap` from file names holds, by the names' characters.
pub uninterp spec fn filename_index_view(m: im::OrdMap<FileName, UniqueIdent>) -> Map<Seq<char>, UniqueIdent>;

/// The changes an `OrdMap` from sync tokens holds.
pub uninterp spec fn change_map_view(m: im::OrdMap<UniqueIdent, SyncChange>) -> Map<UniqueIdent, SyncChange>;

// ---- OrdSet<UniqueIdent> ----

/// `OrdSet::new`: an empty set.
#[verifier::external_body]
pub(crate) fn token_set_new() -> (r: im::OrdSet<UniqueIdent>)
    ensures
        token_set_view(r) == Set::<UniqueIdent>::empty(),
{
    im::OrdSet::new()
}

/// `OrdSet::clone`: a set with the same contents.
#[verifier::external_body]
pub(crate) fn token_set_clone(s: &im::OrdSet<UniqueIdent>) -> (r: im::OrdSet<UniqueIdent>)
    ensures
        token_set_view(r) == token_set_view(*s),
{
    s.clone()
}

/// `OrdSet::insert`: adds the value; returns the value it replaced, if
/// the set held it already.
#[verifier::external_body]
pub(crate) fn token_set_insert(s: &mut im::OrdSet<UniqueIdent>, a: UniqueIdent) -> (r: Option<UniqueIdent>)
    ensures
        token_set_view(*final(s)) == token_set_view(*old(s)).insert(a),
        r is Some <==> token_set_view(*old(s)).contains(a),
{
    s.insert(a)
}

/// `OrdSet::remove`: removes the value; returns it if the set held it.
#[verifier::external_body]
pub(crate) fn token_set_remove(s: &mut im::OrdSet<UniqueIdent>, a: &UniqueIdent) -> (r: Option<UniqueIdent>)
    ensures
        token_set_view(*final(s)) == token_set_view(*old(s)).remove(*a),
        r is Some <==> token_set_view(*old(s)).contains(*a),
{
    s.remove(a)
}

/// `OrdSet::contains`.
#[verifier::external_body]
pub(crate) fn token_set_contains(s: &im::OrdSet<UniqueIdent>, a: &UniqueIdent) -> (r: bool)
    ensures
        r == token_set_view(*s).contains(*a),
{
    s.contains(a)
}

/// `OrdSet::is_subset`: whether every value of `s` is in `other`.
#[verifier::external_body]
pub(crate) fn token_set_is_subset(s: &im::OrdSet<UniqueIdent>, other: &im::OrdSet<UniqueIdent>) -> (r: bool)
    ensures
        r == token_set_view(*s).subset_of(token_set_view(*other)),
{
    s.is_subset(other)
}

/// `OrdSet::relative_complement`: the values of `s` that are not in `other`.
#[verifier::external_body]
pub(crate) fn token_set_relative_complement(s: im::OrdSet<UniqueIdent>, other: im::OrdSet<UniqueIdent>) -> (r:
    im::OrdSet<UniqueIdent>)
    ensures
        token_set_view(r) == token_set_view(s).difference(token_set_view(other)),
{
    s.relative_complement(other)
}

/// The values of the set in the order `OrdSet::iter` yields them:
/// increasing, each once.
#[verifier::external_body]
pub(crate) fn token_set_to_vec(s: &im::OrdSet<UniqueIdent>) -> (r: Vec<UniqueIdent>)
    ensures
        forall|i: int, j: int| 0 <= i < j < r@.len() ==> ident_lt(#[trigger] r@[i], #[trigger] r@[j]),
        forall|a: UniqueIdent| r@.contains(a) <==> token_set_view(*s).contains(a),
{
    s.iter().cloned().collect()
}

// ---- OrdMap<UniqueIdent, OrdSet<UniqueIdent>> ----

/// `OrdMap::new`: an empty map.
#[verifier::external_body]
pub(crate) fn ancestor_map_new() -> (r: im::OrdMap<UniqueIdent, im::OrdSet<UniqueIdent>>)
    ensures
        ancestor_map_view(r).dom() == Set::<UniqueIdent>::empty(),
{
    im::OrdMap::new()
}

/// `OrdMap::clone`: a map with the same contents.
#[verifier::external_body]
pub(crate) fn ancestor_map_clone(m: &im::OrdMap<UniqueIdent, im::OrdSet<UniqueIdent>>) -> (r: im::OrdMap<
    UniqueIdent,
    im::OrdSet<UniqueIdent>,
>)
    ensures
        ancestor_map_view(r) == ancestor_map_view(*m),
{
    m.clone()
}

/// `OrdMap::insert`: maps the key to the value, replacing what it mapped to.
#[verifier::external_body]
pub(crate) fn ancestor_map_insert(
    m: &mut im::OrdMap<UniqueIdent, im::OrdSet<UniqueIdent>>,
    k: UniqueIdent,
    v: im::OrdSet<UniqueIdent>,
)
    ensures
        ancestor_map_view(*final(m)) == ancestor_map_view(*old(m)).insert(k, v),
{
    m.insert(k, v);
}

/// `OrdMap::get`: the value the key maps to, if any.
#[verifier::external_body]
pub(crate) fn ancestor_map_get<'a>(m: &'a im::OrdMap<UniqueIdent, im::OrdSet<UniqueIdent>>, k: &UniqueIdent) -> (r:
    Option<&'a im::OrdSet<UniqueIdent>>)
    ensures
        match r {
            Some(v) => ancestor_map_view(*m).contains_key(*k) && *v == ancestor_map_view(*m)[*k],
            None => !ancestor_map_view(*m).contains_key(*k),
        },
{
    m.get(k)
}

// ---- OrdMap<UniqueIdent, IndexEntry> ----

/// `OrdMap::new`: an empty map.
#[verifier::external_body]
pub(crate) fn blob_table_new() -> (r: im::OrdMap<UniqueIdent, IndexEntry>)
    ensures
        blob_table_view(r).dom() == Set::<UniqueIdent>::empty(),
{
    im::OrdMap::new()
}

/// `OrdMap::clone`: a map with the same contents.
#[verifier::external_body]
pub(crate) fn blob_table_clone(m: &im::OrdMap<UniqueIdent, IndexEntry>) -> (r: im::OrdMap<UniqueIdent, IndexEntry>)
    ensures
        blob_table_view(r) == blob_table_view(*m),
{
    m.clone()
}

/// `OrdMap::insert`: maps the key to the value, replacing what it mapped to.
#[verifier::external_body]
pub(crate) fn blob_table_insert(m: &mut im::OrdMap<UniqueIdent, IndexEntry>, k: UniqueIdent, v: IndexEntry)
    ensures
        blob_table_view(*final(m)) == blob_table_view(*old(m)).insert(k, v),
{
    m.insert(k, v);
}

/// `OrdMap::remove`: drops the key.
#[verifier::external_body]
pub(crate) fn blob_table_remove(m: &mut im::OrdMap<UniqueIdent, IndexEntry>, k: &UniqueIdent)
    ensures
        blob_table_view(*final(m)) == blob_table_view(*old(m)).remove(*k),
{
    m.remove(k);
}

/// `OrdMap::get`: the value the key maps to, if any.
#[verifier::external_body]
pub(crate) fn blob_table_get<'a>(m: &'a im::OrdMap<UniqueIdent, IndexEntry>, k: &UniqueIdent) -> (r: Option<
    &'a IndexEntry,
>)
    ensures
        match r {
            Some(v) => blob_table_view(*m).contains_key(*k) && *v == blob_table_view(*m)[*k],
            None => !blob_table_view(*m).contains_key(*k),
        },
{
    m.get(k)
}

/// `OrdMap::len`.
#[verifier::external_body]
pub(crate) fn blob_table_len(m: &im::OrdMap<UniqueIdent, IndexEntry>) -> (r: usize)
    ensures
        r == blob_table_view(*m).dom().len(),
{
    m.len()
}

/// The entries of the map in key order, as `OrdMap::iter` yields them.
#[verifier::external_body]
pub(crate) fn blob_table_to_vec(m: &im::OrdMap<UniqueIdent, IndexEntry>) -> (r: Vec<(UniqueIdent, IndexEntry)>)
    ensures
        forall|i: int, j: int| 0 <= i < j < r@.len() ==> ident_lt(#[trigger] r@[i].0, #[trigger] r@[j].0),
        forall|i: int| 0 <= i < r@.len() ==> blob_table_view(*m).contains_key(#[trigger] r@[i].0) && blob_table_view(
            *m,
        )[r@[i].0] == r@[i].1,
        forall|k: UniqueIdent| blob_table_view(*m).contains_key(k) ==> exists|i: int| 0 <= i < r@.len() && #[trigger] r@[i].0 == k,
{
    m.iter().map(|(k, v)| (*k, v.clone())).collect()
}

// ---- OrdMap<FileName, UniqueIdent> ----

/// `OrdMap::new`: an empty map.
#[verifier::external_body]
pub(crate) fn filename_index_new() -> (r: im::OrdMap<FileName, UniqueIdent>)
    ensures
        filename_index_view(r).dom() == Set::<Seq<char>>::empty(),
{
    im::OrdMap::new()
}

/// `OrdMap::clone`: a map with the same contents.
#[verifier::external_body]
pub(crate) fn filename_index_clone(m: &im::OrdMap<FileName, UniqueIdent>) -> (r: im::OrdMap<FileName, UniqueIdent>)
    ensures
        filename_index_view(r) == filename_index_view(*m),
{
    m.clone()
}

/// `OrdMap::insert`: maps the name to the identifier, replacing what it mapped to.
#[verifier::external_body]
pub(crate) fn filename_index_insert(m: &mut im::OrdMap<FileName, UniqueIdent>, k: FileName, v: UniqueIdent)
    ensures
        filename_index_view(*final(m)) == filename_index_view(*old(m)).insert(k@, v),
{
    m.insert(k, v);
}

/// `OrdMap::remove`: drops the name.
#[verifier::external_body]
pub(crate) fn filename_index_remove(m: &mut im::OrdMap<FileName, UniqueIdent>, k: &FileName)
    ensures
        filename_index_view(*final(m)) == filename_index_view(*old(m)).remove(k@),
{
    m.remove(k);
}

/// `OrdMap::get`: the identifier the name maps to, if any.
#[verifier::external_body]
pub(crate) fn filename_index_get(m: &im::OrdMap<FileName, UniqueIdent>, k: &FileName) -> (r: Option<UniqueIdent>)
    ensures
        match r {
            Some(v) => filename_index_view(*m).contains_key(k@) && v == filename_index_view(*m)[k@],
            None => !filename_index_view(*m).contains_key(k@),
        },
{
    m.get(k).copied()
}

// ---- OrdMap<UniqueIdent, SyncChange> ----

/// `OrdMap::new`: an empty map.
#[verifier::external_body]
pub(crate) fn change_map_new() -> (r: im::OrdMap<UniqueIdent, SyncChange>)
    ensures
        change_map_view(r).dom() == Set::<UniqueIdent>::empty(),
{
    im::OrdMap::new()
}

/// `OrdMap::clone`: a map with the same contents.
#[verifier::external_body]
pub(crate) fn change_map_clone(m: &im::OrdMap<UniqueIdent, SyncChange>) -> (r: im::OrdMap<UniqueIdent, SyncChange>)
    ensures
        change_map_view(r) == change_map_view(*m),
{
    m.clone()
}

/// `OrdMap::insert`: maps the token to the change, replacing what it mapped to.
#[verifier::external_body]
pub(crate) fn change_map_insert(m: &mut im::OrdMap<UniqueIdent, SyncChange>, k: UniqueIdent, v: SyncChange)
    ensures
        change_map_view(*final(m)) == change_map_view(*old(m)).insert(k, v),
{
    m.insert(k, v);
}

/// `OrdMap::get`: the change recorded at the token, if any.
#[verifier::external_body]
pub(crate) fn change_map_get<'a>(m: &'a im::OrdMap<UniqueIdent, SyncChange>, k: &UniqueIdent) -> (r: Option<
    &'a SyncChange,
>)
    ensures
        match r {
            Some(v) => change_map_view(*m).contains_key(*k) && *v == change_map_view(*m)[*k],
            None => !change_map_view(*m).contains_key(*k),
        },
{
    m.get(k)
}

} // verus!
