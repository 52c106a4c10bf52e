//! The persistent collections of `im` that the IMAP UID index keeps its
//! state in, with what each call does to their contents.
use vstd::prelude::*;

use super::flags::Flags;
use super::unique_ident::UniqueIdent;

verus! {

/// `im::Vector`, a persistent sequence.
#[verifier::external_type_specification]
#[verifier::external_body]
#[verifier::reject_recursive_types(A)]
pub struct ExVector<A>(im::Vector<A>);

/// `im::HashMap`, a persistent hash map.
#[verifier::external_type_specification]
#[verifier::external_body]
#[verifier::reject_recursive_types(K)]
#[verifier::reject_recursive_types(V)]
#[verifier::reject_recursive_types(S)]
pub struct ExHashMap<K, V, S>(im::HashMap<K, V, S>);

/// An email of the index: its UID, its modification sequence and its flags.
pub type MailEntry = (u32, u64, Flags);

/// The emails an `OrdMap` from identifiers holds.
pub uninterp spec fn mail_table_view(m: im::OrdMap<UniqueIdent, MailEntry>) -> Map<UniqueIdent, MailEntry>;

/// The identifiers an `OrdMap` from UIDs holds.
pub uninterp spec fn uid_index_view(m: im::OrdMap<u32, UniqueIdent>) -> Map<u32, UniqueIdent>;

/// The identifiers an `OrdMap` from modification sequences holds.
pub uninterp spec fn modseq_index_view(m: im::OrdMap<u64, UniqueIdent>) -> Map<u64, UniqueIdent>;

/// The sequence numbers an `OrdMap` from identifiers holds.
pub uninterp spec fn seqid_of_view(m: im::OrdMap<UniqueIdent, u32>) -> Map<UniqueIdent, u32>;

/// The identifiers a `Vector` holds, in order.
pub uninterp spec fn ident_vector_view(v: im::Vector<UniqueIdent>) -> Seq<UniqueIdent>;

/// The UID sets a `HashMap` from flag names holds, by the names' characters.
pub uninterp spec fn flag_map_view(m: im::HashMap<String, im::OrdSet<u32>>) -> Map<Seq<char>, im::OrdSet<u32>>;

/// The UIDs an `OrdSet` of UIDs holds.
pub uninterp spec fn uid_set_view(s: im::OrdSet<u32>) -> Set<u32>;

// ---- OrdMap<UniqueIdent, MailEntry> ----

/// `OrdMap::new`: an empty map.
#[verifier::external_body]
pub(crate) fn mail_table_new() -> (r: im::OrdMap<UniqueIdent, MailEntry>)
    ensures
        mail_table_view(r).dom() == Set::<UniqueIdent>::empty(),
{
    im::OrdMap::new()
}

/// `OrdMap::clone`: a map with the same contents.
#[verifier::external_body]
pub(crate) fn mail_table_clone(m: &im::OrdMap<UniqueIdent, MailEntry>) -> (r: im::OrdMap<UniqueIdent, MailEntry>)
    ensures
        mail_table_view(r) == mail_table_view(*m),
{
    m.clone()
}

/// `OrdMap::insert`: maps the key to the value, replacing what it mapped to.
#[verifier::external_body]
pub(crate) fn mail_table_insert(m: &mut im::OrdMap<UniqueIdent, MailEntry>, k: UniqueIdent, v: MailEntry)
    ensures
        mail_table_view(*final(m)) == mail_table_view(*old(m)).insert(k, v),
{
    m.insert(k, v);
}

/// `OrdMap::remove`: drops the key.
#[verifier::external_body]
pub(crate) fn mail_table_remove(m: &mut im::OrdMap<UniqueIdent, MailEntry>, k: &UniqueIdent)
    ensures
        mail_table_view(*final(m)) == mail_table_view(*old(m)).remove(*k),
{
    m.remove(k);
}

/// `OrdMap::get`: the value the key maps to, if any.
#[verifier::external_body]
pub(crate) fn mail_table_get<'a>(m: &'a im::OrdMap<UniqueIdent, MailEntry>, k: &UniqueIdent) -> (r: Option<&'a MailEntry>)
    ensures
        match r {
            Some(v) => mail_table_view(*m).contains_key(*k) && *v == mail_table_view(*m)[*k],
            None => !mail_table_view(*m).contains_key(*k),
        },
{
    m.get(k)
}

/// `OrdMap::len`.
#[verifier::external_body]
pub(crate) fn mail_table_len(m: &im::OrdMap<UniqueIdent, MailEntry>) -> (r: usize)
    ensures
        r == mail_table_view(*m).dom().len(),
{
    m.len()
}

/// The keys of the map in increasing order, as `OrdMap::keys` yields them.
#[verifier::external_body]
pub(crate) fn mail_table_keys(m: &im::OrdMap<UniqueIdent, MailEntry>) -> (r: Vec<UniqueIdent>)
    ensures
        forall|i: int, j: int| 0 <= i < j < r@.len() ==> super::unique_ident::ident_lt(#[trigger] r@[i], #[trigger] r@[j]),
        forall|k: UniqueIdent| r@.contains(k) <==> mail_table_view(*m).contains_key(k),
{
    m.keys().cloned().collect()
}

// ---- OrdMap<u32, UniqueIdent> ----

/// `OrdMap::new`: an empty map.
#[verifier::external_body]
pub(crate) fn uid_index_new() -> (r: im::OrdMap<u32, UniqueIdent>)
    ensures
        uid_index_view(r).dom() == Set::<u32>::empty(),
{
    im::OrdMap::new()
}

/// `OrdMap::clone`: a map with the same contents.
#[verifier::external_body]
pub(crate) fn uid_index_clone(m: &im::OrdMap<u32, UniqueIdent>) -> (r: im::OrdMap<u32, UniqueIdent>)
    ensures
        uid_index_view(r) == uid_index_view(*m),
{
    m.clone()
}

/// `OrdMap::insert`: maps the key to the value, replacing what it mapped to.
#[verifier::external_body]
pub(crate) fn uid_index_insert(m: &mut im::OrdMap<u32, UniqueIdent>, k: u32, v: UniqueIdent)
    ensures
        uid_index_view(*final(m)) == uid_index_view(*old(m)).insert(k, v),
{
    m.insert(k, v);
}

/// `OrdMap::remove`: drops the key.
#[verifier::external_body]
pub(crate) fn uid_index_remove(m: &mut im::OrdMap<u32, UniqueIdent>, k: &u32)
    ensures
        uid_index_view(*final(m)) == uid_index_view(*old(m)).remove(*k),
{
    m.remove(k);
}

/// `OrdMap::get`: the value the key maps to, if any.
#[verifier::external_body]
pub(crate) fn uid_index_get(m: &im::OrdMap<u32, UniqueIdent>, k: &u32) -> (r: Option<UniqueIdent>)
    ensures
        match r {
            Some(v) => uid_index_view(*m).contains_key(*k) && v == uid_index_view(*m)[*k],
            None => !uid_index_view(*m).contains_key(*k),
        },
{
    m.get(k).copied()
}

/// `OrdMap::get_max`: the greatest key with its value, if the map is not empty.
#[verifier::external_body]
pub(crate) fn uid_index_get_max(m: &im::OrdMap<u32, UniqueIdent>) -> (r: Option<(u32, UniqueIdent)>)
    ensures
        match r {
            Some((k, v)) => uid_index_view(*m).contains_key(k) && v == uid_index_view(*m)[k] && forall|k2: u32|
                uid_index_view(*m).contains_key(k2) ==> k2 <= k,
            None => uid_index_view(*m).dom() == Set::<u32>::empty(),
        },
{
    m.get_max().copied()
}

// ---- OrdMap<u64, UniqueIdent> ----

/// `OrdMap::new`: an empty map.
#[verifier::external_body]
pub(crate) fn modseq_index_new() -> (r: im::OrdMap<u64, UniqueIdent>)
    ensures
        modseq_index_view(r).dom() == Set::<u64>::empty(),
{
    im::OrdMap::new()
}

/// `OrdMap::clone`: a map with the same contents.
#[verifier::external_body]
pub(crate) fn modseq_index_clone(m: &im::OrdMap<u64, UniqueIdent>) -> (r: im::OrdMap<u64, UniqueIdent>)
    ensures
        modseq_index_view(r) == modseq_index_view(*m),
{
    m.clone()
}

/// `OrdMap::insert`: maps the key to the value, replacing what it mapped to.
#[verifier::external_body]
pub(crate) fn modseq_index_insert(m: &mut im::OrdMap<u64, UniqueIdent>, k: u64, v: UniqueIdent)
    ensures
        modseq_index_view(*final(m)) == modseq_index_view(*old(m)).insert(k, v),
{
    m.insert(k, v);
}

/// `OrdMap::remove`: drops the key.
#[verifier::external_body]
pub(crate) fn modseq_index_remove(m: &mut im::OrdMap<u64, UniqueIdent>, k: &u64)
    ensures
        modseq_index_view(*final(m)) == modseq_index_view(*old(m)).remove(*k),
{
    m.remove(k);
}

/// `OrdMap::get`: the value the key maps to, if any.
#[verifier::external_body]
pub(crate) fn modseq_index_get(m: &im::OrdMap<u64, UniqueIdent>, k: &u64) -> (r: Option<UniqueIdent>)
    ensures
        match r {
            Some(v) => modseq_index_view(*m).contains_key(*k) && v == modseq_index_view(*m)[*k],
            None => !modseq_index_view(*m).contains_key(*k),
        },
{
    m.get(k).copied()
}

// ---- OrdMap<UniqueIdent, u32> ----

/// `OrdMap::new`: an empty map.
#[verifier::external_body]
pub(crate) fn seqid_of_new() -> (r: im::OrdMap<UniqueIdent, u32>)
    ensures
        seqid_of_view(r).dom() == Set::<UniqueIdent>::empty(),
{
    im::OrdMap::new()
}

/// `OrdMap::clone`: a map with the same contents.
#[verifier::external_body]
pub(crate) fn seqid_of_clone(m: &im::OrdMap<UniqueIdent, u32>) -> (r: im::OrdMap<UniqueIdent, u32>)
    ensures
        seqid_of_view(r) == seqid_of_view(*m),
{
    m.clone()
}

/// `OrdMap::insert`: maps the key to the value, replacing what it mapped to.
#[verifier::external_body]
pub(crate) fn seqid_of_insert(m: &mut im::OrdMap<UniqueIdent, u32>, k: UniqueIdent, v: u32)
    ensures
        seqid_of_view(*final(m)) == seqid_of_view(*old(m)).insert(k, v),
{
    m.insert(k, v);
}

/// `OrdMap::remove`: drops the key; returns its value if it had one.
#[verifier::external_body]
pub(crate) fn seqid_of_remove(m: &mut im::OrdMap<UniqueIdent, u32>, k: &UniqueIdent) -> (r: Option<u32>)
    ensures
        seqid_of_view(*final(m)) == seqid_of_view(*old(m)).remove(*k),
        match r {
            Some(v) => seqid_of_view(*old(m)).contains_key(*k) && v == seqid_of_view(*old(m))[*k],
            None => !seqid_of_view(*old(m)).contains_key(*k),
        },
{
    m.remove(k)
}

/// `OrdMap::get`: the value the key maps to, if any.
#[verifier::external_body]
pub(crate) fn seqid_of_get(m: &im::OrdMap<UniqueIdent, u32>, k: &UniqueIdent) -> (r: Option<u32>)
    ensures
        match r {
            Some(v) => seqid_of_view(*m).contains_key(*k) && v == seqid_of_view(*m)[*k],
            None => !seqid_of_view(*m).contains_key(*k),
        },
{
    m.get(k).copied()
}

// ---- Vector<UniqueIdent> ----

/// `Vector::new`: an empty sequence.
#[verifier::external_body]
pub(crate) fn ident_vector_new() -> (r: im::Vector<UniqueIdent>)
    ensures
        ident_vector_view(r) == Seq::<UniqueIdent>::empty(),
{
    im::Vector::new()
}

/// `Vector::clone`: a sequence with the same contents.
#[verifier::external_body]
pub(crate) fn ident_vector_clone(v: &im::Vector<UniqueIdent>) -> (r: im::Vector<UniqueIdent>)
    ensures
        ident_vector_view(r) == ident_vector_view(*v),
{
    v.clone()
}

/// `Vector::push_back`: appends a value.
#[verifier::external_body]
pub(crate) fn ident_vector_push_back(v: &mut im::Vector<UniqueIdent>, a: UniqueIdent)
    ensures
        ident_vector_view(*final(v)) == ident_vector_view(*old(v)).push(a),
{
    v.push_back(a)
}

/// `Vector::remove`: removes the value at `index`, which must be in range
/// (the call panics otherwise).
#[verifier::external_body]
pub(crate) fn ident_vector_remove(v: &mut im::Vector<UniqueIdent>, index: usize) -> (r: UniqueIdent)
    requires
        index < ident_vector_view(*old(v)).len(),
    ensures
        r == ident_vector_view(*old(v))[index as int],
        ident_vector_view(*final(v)) == ident_vector_view(*old(v)).remove(index as int),
{
    v.remove(index)
}

/// `Vector::get`: the value at `index`, if it is in range.
#[verifier::external_body]
pub(crate) fn ident_vector_get(v: &im::Vector<UniqueIdent>, index: usize) -> (r: Option<UniqueIdent>)
    ensures
        index < ident_vector_view(*v).len() ==> r == Some(ident_vector_view(*v)[index as int]),
        index >= ident_vector_view(*v).len() ==> r is None,
{
    v.get(index).copied()
}

/// `Vector::len`.
#[verifier::external_body]
pub(crate) fn ident_vector_len(v: &im::Vector<UniqueIdent>) -> (r: usize)
    ensures
        r == ident_vector_view(*v).len(),
{
    v.len()
}

// ---- HashMap<String, OrdSet<u32>> ----

/// `HashMap::new`: an empty map.
#[verifier::external_body]
pub(crate) fn flag_map_new() -> (r: im::HashMap<String, im::OrdSet<u32>>)
    ensures
        flag_map_view(r).dom() == Set::<Seq<char>>::empty(),
{
    im::HashMap::new()
}

/// `HashMap::clone`: a map with the same contents.
#[verifier::external_body]
pub(crate) fn flag_map_clone(m: &im::HashMap<String, im::OrdSet<u32>>) -> (r: im::HashMap<String, im::OrdSet<u32>>)
    ensures
        flag_map_view(r) == flag_map_view(*m),
{
    m.clone()
}

/// `HashMap::insert`: maps the name to the set, replacing what it mapped to.
#[verifier::external_body]
pub(crate) fn flag_map_insert(m: &mut im::HashMap<String, im::OrdSet<u32>>, k: String, v: im::OrdSet<u32>)
    ensures
        flag_map_view(*final(m)) == flag_map_view(*old(m)).insert(k@, v),
{
    m.insert(k, v);
}

/// `HashMap::remove`: drops the name.
#[verifier::external_body]
pub(crate) fn flag_map_remove(m: &mut im::HashMap<String, im::OrdSet<u32>>, k: &String)
    ensures
        flag_map_view(*final(m)) == flag_map_view(*old(m)).remove(k@),
{
    m.remove(k);
}

/// `HashMap::get`: the set the name maps to, if any.
#[verifier::external_body]
pub(crate) fn flag_map_get<'a>(m: &'a im::HashMap<String, im::OrdSet<u32>>, k: &str) -> (r: Option<&'a im::OrdSet<u32>>)
    ensures
        match r {
            Some(v) => flag_map_view(*m).contains_key(k@) && *v == flag_map_view(*m)[k@],
            None => !flag_map_view(*m).contains_key(k@),
        },
{
    m.get(k)
}

/// The names of the map, in the order `HashMap::keys` yields them, which
/// depends on the map's random hasher: each name once, in some order.
#[verifier::external_body]
pub(crate) fn flag_map_keys(m: &im::HashMap<String, im::OrdSet<u32>>) -> (r: Vec<String>)
    ensures
        forall|i: int, j: int| 0 <= i < j < r@.len() ==> (#[trigger] r@[i])@ != (#[trigger] r@[j])@,
        forall|k: Seq<char>| (exists|i: int| 0 <= i < r@.len() && (#[trigger] r@[i])@ == k) <==> flag_map_view(
            *m,
        ).contains_key(k),
{
    m.keys().cloned().collect()
}

// ---- OrdSet<u32> ----

/// `OrdSet::new`: an empty set.
#[verifier::external_body]
pub(crate) fn uid_set_new() -> (r: im::OrdSet<u32>)
    ensures
        uid_set_view(r) == Set::<u32>::empty(),
{
    im::OrdSet::new()
}

/// `OrdSet::clone`: a set with the same contents.
#[verifier::external_body]
pub(crate) fn uid_set_clone(s: &im::OrdSet<u32>) -> (r: im::OrdSet<u32>)
    ensures
        uid_set_view(r) == uid_set_view(*s),
{
    s.clone()
}

/// `OrdSet::insert`: adds the value.
#[verifier::external_body]
pub(crate) fn uid_set_insert(s: &mut im::OrdSet<u32>, a: u32)
    ensures
        uid_set_view(*final(s)) == uid_set_view(*old(s)).insert(a),
{
    s.insert(a);
}

/// `OrdSet::remove`: removes the value.
#[verifier::external_body]
pub(crate) fn uid_set_remove(s: &mut im::OrdSet<u32>, a: &u32)
    ensures
        uid_set_view(*final(s)) == uid_set_view(*old(s)).remove(*a),
{
    s.remove(a);
}

/// `OrdSet::is_empty`.
#[verifier::external_body]
pub(crate) fn uid_set_is_empty(s: &im::OrdSet<u32>) -> (r: bool)
    ensures
        r == (uid_set_view(*s) == Set::<u32>::empty()),
{
    s.is_empty()
}

/// The values of the set in increasing order, as `OrdSet::iter` yields them.
#[verifier::external_body]
pub(crate) fn uid_set_to_vec(s: &im::OrdSet<u32>) -> (r: Vec<u32>)
    ensures
        forall|i: int, j: int| 0 <= i < j < r@.len() ==> #[trigger] r@[i] < #[trigger] r@[j],
        forall|a: u32| r@.contains(a) <==> uid_set_view(*s).contains(a),
{
    s.iter().cloned().collect()
}

} // verus!
