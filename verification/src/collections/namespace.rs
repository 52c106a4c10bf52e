//! The rules of the user's namespaces: which names a mailbox or a DAV
//! collection may take, which ones cannot be deleted or renamed, and the
//! lists they start with. Each rule works on the loaded list; whoever loads
//! it saves it back when the rule succeeds.
use vstd::prelude::*;
use vstd::string::StringSliceAdditionalSpecFns;

use super::ident_list::{set_stamp, CreatedResult, IdentList, Lww, RenameError};
use super::unique_ident::UniqueIdent;
use crate::text::{chars_of, chars_to_string, lemma_lex_lt_irreflexive, lex_lt, push_char, push_str, starts_with, str_eq};

verus! {

/// Separates the levels of a mailbox name.
pub const MAILBOX_HIERARCHY_DELIMITER: char = '.';

/// The mailbox that always exists.
pub const INBOX: &'static str = "INBOX";
/// The special-use mailboxes (RFC 6154) every account starts with.
pub const DRAFTS: &'static str = "Drafts";
pub const ARCHIVE: &'static str = "Archive";
pub const SENT: &'static str = "Sent";
pub const TRASH: &'static str = "Trash";

/// The calendar every account starts with.
pub const MAIN_CAL: &'static str = "Personal";

/// The longest name of a calendar or address book, in bytes.
pub const MAX_COLNAME_CHARS: usize = 32;

/// Why a namespace refused a change.
#[derive(Debug, PartialEq, Eq, Clone, Copy)]
pub enum NsError {
    /// A mailbox name ends with the hierarchy delimiter.
    InvalidName,
    /// The name is taken.
    AlreadyExists,
    /// No mailbox or collection has that name.
    NotFound,
    /// INBOX cannot be deleted.
    CannotDeleteInbox,
    /// A default collection cannot be created, deleted or renamed.
    DefaultCollection,
    /// A collection name holds a character that is not alphanumeric.
    UnsupportedCharacters,
    /// A collection name is longer than `MAX_COLNAME_CHARS` bytes.
    NameTooLong,
    /// The list refused the rename.
    Rename(RenameError),
}

/// Whether a writer of the list can stamp each entry once more.
pub open spec fn stamps_ok(m: Map<Seq<char>, Lww>) -> bool {
    forall|k: Seq<char>| #[trigger] m.contains_key(k) ==> m[k].0 < u64::MAX - 1
}

/// Whether a name is in use.
pub open spec fn in_use(m: Map<Seq<char>, Lww>, k: Seq<char>) -> bool {
    m.contains_key(k) && m[k].1 is Some
}

/// The list with `k` set to a fresh identifier stamped `now`.
pub open spec fn created(m: Map<Seq<char>, Lww>, k: Seq<char>, id: UniqueIdent, now: u64) -> Map<Seq<char>, Lww> {
    m.insert(k, (set_stamp(m, k, now), Some(id)))
}

/// The list with `k` deleted at `now`.
pub open spec fn deleted(m: Map<Seq<char>, Lww>, k: Seq<char>, now: u64) -> Map<Seq<char>, Lww> {
    m.insert(k, (set_stamp(m, k, now), None))
}

// ---- Mailboxes ----

/// Whether a mailbox name ends with the hierarchy delimiter.
pub open spec fn ends_with_delimiter(name: Seq<char>) -> bool {
    name.len() > 0 && name.last() == '.'
}

/// Whether `name` ends with the hierarchy delimiter.
fn ends_with_dot(name: &str) -> (r: bool)
    ensures
        r == ends_with_delimiter(name@),
{
    let cs = chars_of(name);
    cs.len() > 0 && cs[cs.len() - 1] == MAILBOX_HIERARCHY_DELIMITER
}

/// Creates the mailbox `name` with the fresh identifier `id`: a name that
/// ends with the delimiter is invalid, and a name in use is taken.
pub fn create_mailbox(list: &mut IdentList, name: &str, id: UniqueIdent, now: u64) -> (r: Result<(), NsError>)
    requires
        stamps_ok(old(list)@),
    ensures
        ends_with_delimiter(name@) ==> r == Err::<(), NsError>(NsError::InvalidName),
        !ends_with_delimiter(name@) && in_use(old(list)@, name@) ==> r == Err::<(), NsError>(NsError::AlreadyExists),
        r is Err ==> final(list)@ == old(list)@,
        !ends_with_delimiter(name@) && !in_use(old(list)@, name@) ==> r is Ok && final(list)@ == created(
            old(list)@,
            name@,
            id,
            now,
        ),
{
    if ends_with_dot(name) {
        return Err(NsError::InvalidName);
    }
    match list.create_with(name, id, now) {
        CreatedResult::Created(_) => Ok(()),
        CreatedResult::Existed(_) => Err(NsError::AlreadyExists),
    }
}

/// Deletes the mailbox `name` at `now`; INBOX cannot be deleted.
pub fn delete_mailbox(list: &mut IdentList, name: &str, now: u64) -> (r: Result<(), NsError>)
    requires
        stamps_ok(old(list)@),
    ensures
        name@ == INBOX@ ==> r == Err::<(), NsError>(NsError::CannotDeleteInbox),
        name@ != INBOX@ && !in_use(old(list)@, name@) ==> r == Err::<(), NsError>(NsError::NotFound),
        r is Err ==> final(list)@ == old(list)@,
        name@ != INBOX@ && in_use(old(list)@, name@) ==> r is Ok && final(list)@ == deleted(old(list)@, name@, now),
{
    if str_eq(name, INBOX) {
        return Err(NsError::CannotDeleteInbox);
    }
    if list.has(name) {
        list.set_at(name, None, now);
        Ok(())
    } else {
        Err(NsError::NotFound)
    }
}

/// Makes INBOX exist, with the fresh identifier `id` if it must be
/// created: whether it was, and the identifier INBOX has.
pub fn ensure_inbox(list: &mut IdentList, id: UniqueIdent, now: u64) -> (r: (bool, UniqueIdent))
    requires
        stamps_ok(old(list)@),
    ensures
        in_use(old(list)@, INBOX@) ==> r == (false, old(list)@[INBOX@].1->0) && final(list)@ == old(list)@,
        !in_use(old(list)@, INBOX@) ==> r == (true, id) && final(list)@ == created(old(list)@, INBOX@, id, now),
{
    match list.create_with(INBOX, id, now) {
        CreatedResult::Created(i) => (true, i),
        CreatedResult::Existed(i) => (false, i),
    }
}

/// Creating, in order, each of `names` that is not in use, with the
/// identifier at the same position.
pub open spec fn create_all(m: Map<Seq<char>, Lww>, names: Seq<Seq<char>>, ids: Seq<UniqueIdent>, now: u64) -> Map<
    Seq<char>,
    Lww,
>
    decreases names.len(),
{
    if names.len() == 0 {
        m
    } else {
        let prev = create_all(m, names.drop_last(), ids, now);
        let k = names.last();
        if in_use(prev, k) {
            prev
        } else {
            created(prev, k, ids[names.len() - 1], now)
        }
    }
}

/// Whether creating each of `names` in order creates any.
pub open spec fn creates_any(m: Map<Seq<char>, Lww>, names: Seq<Seq<char>>, ids: Seq<UniqueIdent>, now: u64) -> bool
    decreases names.len(),
{
    if names.len() == 0 {
        false
    } else {
        creates_any(m, names.drop_last(), ids, now) || !in_use(create_all(m, names.drop_last(), ids, now), names.last())
    }
}

/// The stamp a creation gives a missing or deleted entry.
pub open spec fn create_bound(m: Map<Seq<char>, Lww>, k: Seq<char>, now: u64) -> int {
    if m.contains_key(k) && now <= m[k].0 + 1 {
        m[k].0 + 1
    } else {
        now as int
    }
}

/// Creating entries leaves the others as they were, and stamps the ones
/// it creates no later than one creation would.
proof fn lemma_create_all_shape(m: Map<Seq<char>, Lww>, names: Seq<Seq<char>>, ids: Seq<UniqueIdent>, now: u64)
    ensures
        forall|k: Seq<char>| #[trigger]
            create_all(m, names, ids, now).contains_key(k) ==> (m.contains_key(k) && create_all(m, names, ids, now)[k]
                == m[k]) || (in_use(create_all(m, names, ids, now), k) && create_all(m, names, ids, now)[k].0
                <= create_bound(m, k, now)),
    decreases names.len(),
{
    if names.len() > 0 {
        lemma_create_all_shape(m, names.drop_last(), ids, now);
        let prev = create_all(m, names.drop_last(), ids, now);
        let k0 = names.last();
        let after = create_all(m, names, ids, now);
        assert forall|k: Seq<char>| #[trigger] after.contains_key(k) implies (m.contains_key(k) && after[k] == m[k]) || (
        in_use(after, k) && after[k].0 <= create_bound(m, k, now)) by {
            if !in_use(prev, k0) && k == k0 {
                assert(after[k] == (set_stamp(prev, k0, now), Some(ids[names.len() - 1])));
                if prev.contains_key(k0) {
                    assert(prev[k0] == m[k0]);
                }
            } else {
                assert(prev.contains_key(k));
                assert(after[k] == prev[k]);
            }
        }
    }
}

/// Creates the defaults among `names` that are missing, with the identifiers
/// `ids` at the same positions: whether any was created.
pub fn create_defaults(list: &mut IdentList, names: &Vec<&str>, ids: &Vec<UniqueIdent>, now: u64) -> (r: bool)
    requires
        ids@.len() == names@.len(),
        now < u64::MAX - 2,
        forall|k: Seq<char>| #[trigger] old(list)@.contains_key(k) ==> old(list)@[k].0 < u64::MAX - 2,
    ensures
        final(list)@ == create_all(old(list)@, names@.map_values(|n: &str| n@), ids@, now),
        r == creates_any(old(list)@, names@.map_values(|n: &str| n@), ids@, now),
{
    let ghost m0 = list@;
    let ghost ns = names@.map_values(|n: &str| n@);
    let mut any = false;
    let mut i: usize = 0;
    while i < names.len()
        invariant
            i <= names@.len() == ids@.len(),
            ns == names@.map_values(|n: &str| n@),
            now < u64::MAX - 2,
            forall|k: Seq<char>| #[trigger] m0.contains_key(k) ==> m0[k].0 < u64::MAX - 2,
            list@ == create_all(m0, ns.take(i as int), ids@, now),
            any == creates_any(m0, ns.take(i as int), ids@, now),
        decreases names@.len() - i,
    {
        proof {
            assert(ns.take(i + 1).drop_last() == ns.take(i as int));
            assert(ns.take(i + 1).last() == names@[i as int]@);
            lemma_create_all_shape(m0, ns.take(i as int), ids@, now);
        }
        match list.create_with(names[i], ids[i], now) {
            CreatedResult::Created(_) => {
                any = true;
            },
            CreatedResult::Existed(_) => {},
        }
        i = i + 1;
    }
    proof {
        assert(ns.take(names@.len() as int) == ns);
    }
    any
}

/// The name a mailbox takes when `from` is renamed to `to`: `to` for
/// `from` itself, `to.tail` for a mailbox `from.tail` under it, none for
/// the others.
pub open spec fn moved_name(name: Seq<char>, from: Seq<char>, to: Seq<char>) -> Option<Seq<char>> {
    let ow = from.push('.');
    if name == from {
        Some(to)
    } else if ow.len() <= name.len() && name.take(ow.len() as int) == ow {
        Some(to.push('.') + name.skip(ow.len() as int))
    } else {
        None
    }
}

/// The mailbox that would be renamed to `name`, if any name would be.
pub open spec fn moved_from(name: Seq<char>, from: Seq<char>, to: Seq<char>) -> Option<Seq<char>> {
    moved_name(name, to, from)
}

/// Whether `k` is in use and moves.
pub open spec fn moves(m: Map<Seq<char>, Lww>, k: Seq<char>, from: Seq<char>, to: Seq<char>) -> bool {
    in_use(m, k) && moved_name(k, from, to) is Some
}

/// Whether `k` is the name some moving mailbox takes.
pub open spec fn receives(m: Map<Seq<char>, Lww>, k: Seq<char>, from: Seq<char>, to: Seq<char>) -> bool {
    moved_from(k, from, to) matches Some(s) && moves(m, s, from, to)
}

/// Whether `to` or a mailbox under it is in use.
pub open spec fn subtree_in_use(m: Map<Seq<char>, Lww>, to: Seq<char>) -> bool {
    exists|k: Seq<char>| #[trigger] in_use(m, k) && moved_name(k, to, to) is Some
}

/// The list after the mailbox `from` and those under it moved under `to`
/// at `now`, where nothing is in use at or under `to`: each moving name is
/// deleted, and the name it takes gets its identifier; moving only the
/// names in `done`.
pub open spec fn moved_list(
    m: Map<Seq<char>, Lww>,
    from: Seq<char>,
    to: Seq<char>,
    now: u64,
    done: Set<Seq<char>>,
) -> Map<Seq<char>, Lww> {
    Map::new(
        |k: Seq<char>|
            m.contains_key(k) || (receives(m, k, from, to) && done.contains(moved_from(k, from, to)->0)),
        |k: Seq<char>|
            if moves(m, k, from, to) && done.contains(k) {
                (set_stamp(m, k, now), None)
            } else if receives(m, k, from, to) && done.contains(moved_from(k, from, to)->0) {
                (set_stamp(m, k, now), m[moved_from(k, from, to)->0].1)
            } else {
                m[k]
            },
    )
}

/// Renaming moves back: the name a moved name came from is the name.
proof fn lemma_moved_back(k: Seq<char>, from: Seq<char>, to: Seq<char>)
    ensures
        moved_name(k, from, to) matches Some(t) ==> moved_from(t, from, to) == Some(k),
        moved_from(k, from, to) matches Some(s) ==> moved_name(s, from, to) == Some(k),
{
    let ow = from.push('.');
    let nw = to.push('.');
    if k == from {
        assert(moved_from(to, from, to) == Some(from));
    } else if ow.len() <= k.len() && k.take(ow.len() as int) == ow {
        let t = nw + k.skip(ow.len() as int);
        assert(t.take(nw.len() as int) =~= nw);
        assert(t.skip(nw.len() as int) =~= k.skip(ow.len() as int));
        assert(t != to) by {
            assert(t.len() > to.len());
        }
        assert(ow + k.skip(ow.len() as int) =~= k);
    }
    if k == to {
    } else if nw.len() <= k.len() && k.take(nw.len() as int) == nw {
        let s = ow + k.skip(nw.len() as int);
        assert(s.take(ow.len() as int) =~= ow);
        assert(s.skip(ow.len() as int) =~= k.skip(nw.len() as int));
        assert(s != from) by {
            assert(s.len() > from.len());
        }
        assert(nw + k.skip(nw.len() as int) =~= k);
    }
}

/// Renames the mailbox `old_name` to `new_name` at `now`. Names that end
/// with the delimiter are invalid. Renaming INBOX moves its identifier to
/// the to name and creates a to INBOX with the fresh identifier
/// `inbox_id`. Renaming another mailbox moves it and every mailbox under
/// it (`from.x` becomes `to.x`), unless `new_name` or a mailbox under it is
/// in use.
pub fn rename_mailbox(
    list: &mut IdentList,
    old_name: &str,
    new_name: &str,
    inbox_id: UniqueIdent,
    now: u64,
) -> (r: Result<(), NsError>)
    requires
        stamps_ok(old(list)@),
        now < u64::MAX - 1,
    ensures
        ends_with_delimiter(old_name@) || ends_with_delimiter(new_name@) ==> r == Err::<(), NsError>(
            NsError::InvalidName,
        ),
        r is Err ==> final(list)@ == old(list)@,
        !ends_with_delimiter(old_name@) && !ends_with_delimiter(new_name@) && old_name@ == INBOX@ ==> {
            &&& !in_use(old(list)@, INBOX@) ==> r == Err::<(), NsError>(NsError::Rename(RenameError::SourceMissing))
            &&& in_use(old(list)@, INBOX@) && in_use(old(list)@, new_name@) ==> r == Err::<(), NsError>(
                NsError::Rename(RenameError::TargetExists),
            )
            &&& in_use(old(list)@, INBOX@) && !in_use(old(list)@, new_name@) ==> r is Ok && final(list)@ == created(
                old(list)@.insert(INBOX@, (set_stamp(old(list)@, INBOX@, now), None)).insert(
                    new_name@,
                    (set_stamp(old(list)@, new_name@, now), old(list)@[INBOX@].1),
                ),
                INBOX@,
                inbox_id,
                now,
            )
        },
        !ends_with_delimiter(old_name@) && !ends_with_delimiter(new_name@) && old_name@ != INBOX@ ==> {
            &&& subtree_in_use(old(list)@, new_name@) ==> r == Err::<(), NsError>(NsError::AlreadyExists)
            &&& !subtree_in_use(old(list)@, new_name@) ==> r is Ok && final(list)@ == moved_list(
                old(list)@,
                old_name@,
                new_name@,
                now,
                Set::new(|k: Seq<char>| moves(old(list)@, k, old_name@, new_name@)),
            )
        },
{
    if ends_with_dot(old_name) || ends_with_dot(new_name) {
        return Err(NsError::InvalidName);
    }
    if str_eq(old_name, INBOX) {
        let ghost m0 = list@;
        match list.rename_at(old_name, new_name, now) {
            Ok(()) => {},
            Err(e) => return Err(NsError::Rename(e)),
        }
        proof {
            assert(m0.contains_key(INBOX@));
            assert(new_name@ != INBOX@);
            assert(list@[INBOX@] == (set_stamp(m0, INBOX@, now), None::<UniqueIdent>));
        }
        list.create_with(INBOX, inbox_id, now);
        return Ok(());
    }
    rename_subtree(list, old_name, new_name, now)
}

/// The names among `names[..i]` that move.
pub open spec fn moved_done(
    m: Map<Seq<char>, Lww>,
    names: Seq<String>,
    i: int,
    from: Seq<char>,
    to: Seq<char>,
) -> Set<Seq<char>> {
    Set::new(|k: Seq<char>| moves(m, k, from, to) && exists|j: int| 0 <= j < i && #[trigger] names[j]@ == k)
}

/// One more mailbox moves: it still has its identifier, the name it takes
/// is free, and the rename gives the list with it moved too.
proof fn lemma_move_step(
    m: Map<Seq<char>, Lww>,
    from: Seq<char>,
    to: Seq<char>,
    now: u64,
    done: Set<Seq<char>>,
    name: Seq<char>,
)
    requires
        !subtree_in_use(m, to),
        moves(m, name, from, to),
        !done.contains(name),
        forall|k: Seq<char>| #[trigger] done.contains(k) ==> moves(m, k, from, to),
    ensures
        ({
            let cur = moved_list(m, from, to, now, done);
            let t = moved_name(name, from, to)->0;
            &&& t != name
            &&& cur.contains_key(name) && cur[name] == m[name]
            &&& !(cur.contains_key(t) && cur[t].1 is Some)
            &&& cur.contains_key(t) ==> cur[t] == m[t]
            &&& cur.insert(name, (set_stamp(cur, name, now), None)).insert(
                t,
                (set_stamp(cur, t, now), cur[name].1),
            ) == moved_list(m, from, to, now, done.insert(name))
        }),
{
    let cur = moved_list(m, from, to, now, done);
    let t = moved_name(name, from, to)->0;
    lemma_moved_back(name, from, to);
    // The name a mover takes is under `to`, where nothing is in use.
    assert(moved_name(t, to, to) is Some) by {
        let nw = to.push('.');
        if t != to {
            assert(t.take(nw.len() as int) =~= nw);
        }
    }
    assert(!in_use(m, t));
    assert(t != name);
    // A mover is in use, so it is no name taken by another mover.
    assert(!receives(m, name, from, to)) by {
        if receives(m, name, from, to) {
            assert(moved_name(name, to, to) is Some) by {
                let nw = to.push('.');
                let s = moved_from(name, from, to)->0;
                lemma_moved_back(s, from, to);
                if name != to {
                    assert(name.take(nw.len() as int) =~= nw);
                }
            }
        }
    }
    assert(!moves(m, t, from, to));
    let next = moved_list(m, from, to, now, done.insert(name));
    let upd = cur.insert(name, (set_stamp(cur, name, now), None)).insert(t, (set_stamp(cur, t, now), cur[name].1));
    assert(cur[name] == m[name]);
    assert(cur.contains_key(t) ==> cur[t] == m[t]);
    assert(set_stamp(cur, name, now) == set_stamp(m, name, now));
    assert(set_stamp(cur, t, now) == set_stamp(m, t, now));
    assert forall|k: Seq<char>| next.contains_key(k) <==> upd.contains_key(k) by {
        if receives(m, k, from, to) && moved_from(k, from, to)->0 == name {
            lemma_moved_back(k, from, to);
        }
        if k == t {
            assert(receives(m, t, from, to));
        }
    }
    assert forall|k: Seq<char>| #[trigger] next.contains_key(k) implies next[k] == upd[k] by {
        if k == t {
            assert(receives(m, t, from, to));
        } else if k == name {
        } else if receives(m, k, from, to) && moved_from(k, from, to)->0 == name {
            lemma_moved_back(k, from, to);
        }
    }
    assert(next =~= upd);
}

/// Renames `old_name` and the mailboxes under it; see `rename_mailbox`.
#[verifier::spinoff_prover]
#[verifier::rlimit(30)]
fn rename_subtree(list: &mut IdentList, old_name: &str, new_name: &str, now: u64) -> (r: Result<(), NsError>)
    requires
        stamps_ok(old(list)@),
        now < u64::MAX - 1,
    ensures
        subtree_in_use(old(list)@, new_name@) ==> r == Err::<(), NsError>(NsError::AlreadyExists) && final(list)@
            == old(list)@,
        !subtree_in_use(old(list)@, new_name@) ==> r is Ok && final(list)@ == moved_list(
            old(list)@,
            old_name@,
            new_name@,
            now,
            Set::new(|k: Seq<char>| moves(old(list)@, k, old_name@, new_name@)),
        ),
{
    let ghost m0 = list@;
    let ghost from = old_name@;
    let ghost to = new_name@;
    let mut old_w = String::new();
    push_str(&mut old_w, old_name);
    push_char(&mut old_w, MAILBOX_HIERARCHY_DELIMITER);
    let mut new_w = String::new();
    push_str(&mut new_w, new_name);
    push_char(&mut new_w, MAILBOX_HIERARCHY_DELIMITER);
    let ow = chars_of(old_w.as_str());
    let nw = chars_of(new_w.as_str());
    assert(ow@ == from.push('.'));
    assert(nw@ == to.push('.'));
    let names = list.names();
    // Nothing may be in use at or under the to name.
    let mut i: usize = 0;
    while i < names.len()
        invariant
            i <= names@.len(),
            nw@ == to.push('.'),
            to == new_name@,
            m0 == list@,
            m0 == old(list)@,
            forall|k: Seq<char>|
                (exists|j: int| 0 <= j < names@.len() && #[trigger] names@[j]@ == k) <==> in_use(m0, k),
            forall|j: int| 0 <= j < i ==> moved_name(#[trigger] names@[j]@, to, to) is None,
        decreases names@.len() - i,
    {
        let x = chars_of(names[i].as_str());
        if str_eq(names[i].as_str(), new_name) || starts_with(&x, &nw) {
            proof {
                assert(in_use(m0, names@[i as int]@));
                assert(moved_name(names@[i as int]@, to, to) is Some);
            }
            return Err(NsError::AlreadyExists);
        }
        i = i + 1;
    }
    proof {
        assert forall|k: Seq<char>| !(#[trigger] in_use(m0, k) && moved_name(k, to, to) is Some) by {
            if in_use(m0, k) {
                let j = choose|j: int| 0 <= j < names@.len() && #[trigger] names@[j]@ == k;
                assert(moved_name(names@[j]@, to, to) is None);
            }
        }
    }
    let mut i: usize = 0;
    proof {
        assert(moved_list(m0, from, to, now, moved_done(m0, names@, 0, from, to)) =~= m0);
    }
    while i < names.len()
        invariant
            i <= names@.len(),
            ow@ == from.push('.'),
            nw@ == to.push('.'),
            from == old_name@,
            to == new_name@,
            new_w@ == nw@,
            stamps_ok(m0),
            now < u64::MAX - 1,
            !subtree_in_use(m0, to),
            forall|a: int, b: int| 0 <= a < b < names@.len() ==> lex_lt(#[trigger] names@[a]@, #[trigger] names@[b]@),
            forall|k: Seq<char>|
                (exists|j: int| 0 <= j < names@.len() && #[trigger] names@[j]@ == k) <==> in_use(m0, k),
            list@ == moved_list(m0, from, to, now, moved_done(m0, names@, i as int, from, to)),
        decreases names@.len() - i,
    {
        let ghost done = moved_done(m0, names@, i as int, from, to);
        let ghost k = names@[i as int]@;
        let cs = chars_of(names[i].as_str());
        let is_old = str_eq(names[i].as_str(), old_name);
        let under = !is_old && starts_with(&cs, &ow);
        proof {
            assert(in_use(m0, k));
            assert(!done.contains(k)) by {
                if done.contains(k) {
                    let j = choose|j: int| 0 <= j < i && #[trigger] names@[j]@ == k;
                    lemma_lex_lt_irreflexive(k);
                }
            }
        }
        if is_old || under {
            let target = if is_old {
                copy_str(new_name)
            } else {
                let tail = chars_to_string(&cs, ow.len(), cs.len());
                let mut t = copy_str(new_w.as_str());
                push_str(&mut t, tail.as_str());
                proof {
                    assert(cs@.subrange(ow@.len() as int, cs@.len() as int) == k.skip(ow@.len() as int));
                }
                t
            };
            proof {
                assert(moves(m0, k, from, to));
                assert(target@ == moved_name(k, from, to)->0);
                lemma_move_step(m0, from, to, now, done, k);
                let cur = list@;
                if cur.contains_key(target@) {
                    assert(cur[target@] == m0[target@]);
                }
            }
            let res = list.rename_at(names[i].as_str(), target.as_str(), now);
            proof {
                assert(moved_done(m0, names@, i + 1, from, to) =~= done.insert(k));
            }
        } else {
            proof {
                assert(!moves(m0, k, from, to));
                assert(moved_done(m0, names@, i + 1, from, to) =~= done);
            }
        }
        i = i + 1;
    }
    proof {
        assert(moved_done(m0, names@, names@.len() as int, from, to) =~= Set::new(
            |k: Seq<char>| moves(m0, k, from, to),
        ));
    }
    Ok(())
}

/// A copy of a text.
fn copy_str(s: &str) -> (r: String)
    ensures
        r@ == s@,
{
    let mut r = String::new();
    push_str(&mut r, s);
    r
}

/// Renaming a mailbox moves its subtree: every mailbox at or under the
/// old name loses its identifier, which the matching name at or under the
/// new name takes; every other mailbox keeps its entry.
pub proof fn law_rename_moves_subtree(m: Map<Seq<char>, Lww>, from: Seq<char>, to: Seq<char>, now: u64)
    requires
        !subtree_in_use(m, to),
    ensures
        ({
            let r = moved_list(m, from, to, now, Set::new(|k: Seq<char>| moves(m, k, from, to)));
            &&& forall|k: Seq<char>|
                #[trigger] moves(m, k, from, to) ==> r[k].1 is None && r.contains_key(moved_name(k, from, to)->0)
                    && r[moved_name(k, from, to)->0].1 == m[k].1
            &&& forall|k: Seq<char>|
                m.contains_key(k) && moved_name(k, from, to) is None && moved_from(k, from, to) is None ==> #[trigger] r[k]
                    == m[k]
        }),
{
    let r = moved_list(m, from, to, now, Set::new(|k: Seq<char>| moves(m, k, from, to)));
    assert forall|k: Seq<char>| #[trigger] moves(m, k, from, to) implies r[k].1 is None && r.contains_key(
        moved_name(k, from, to)->0,
    ) && r[moved_name(k, from, to)->0].1 == m[k].1 by {
        lemma_moved_back(k, from, to);
        let t = moved_name(k, from, to)->0;
        assert(receives(m, t, from, to));
        assert(!moves(m, t, from, to)) by {
            if moves(m, t, from, to) {
                assert(moved_name(t, to, to) is Some) by {
                    let nw = to.push('.');
                    if t != to {
                        assert(t.take(nw.len() as int) =~= nw);
                    }
                }
            }
        }
    }
}

// ---- Calendars and address books ----

/// Whether a character is alphanumeric, as `char::is_alphanumeric` says
/// (by Unicode's tables).
pub uninterp spec fn char_alphanumeric(c: char) -> bool;

/// `char::is_alphanumeric`: whether the character is alphabetic or
/// numeric in Unicode. The result is named, not described.
#[verifier::external_body]
fn is_alphanumeric(c: char) -> (r: bool)
    ensures
        r == char_alphanumeric(c),
{
    c.is_alphanumeric()
}

/// Whether all the characters of a name are alphanumeric.
pub open spec fn all_alphanumeric(name: Seq<char>) -> bool {
    forall|i: int| 0 <= i < name.len() ==> char_alphanumeric(#[trigger] name[i])
}

/// Whether all the characters of `name` are alphanumeric.
fn alphanumeric_name(name: &str) -> (r: bool)
    ensures
        r == all_alphanumeric(name@),
{
    let cs = chars_of(name);
    let mut i: usize = 0;
    while i < cs.len()
        invariant
            i <= cs@.len(),
            cs@ == name@,
            forall|k: int| 0 <= k < i ==> char_alphanumeric(#[trigger] cs@[k]),
        decreases cs@.len() - i,
    {
        if !is_alphanumeric(cs[i]) {
            return false;
        }
        i = i + 1;
    }
    true
}

/// Whether a name is one of the defaults.
pub open spec fn is_default(defaults: Seq<&str>, name: Seq<char>) -> bool {
    exists|i: int| 0 <= i < defaults.len() && #[trigger] defaults[i]@ == name
}

/// Whether `name` is one of `defaults`.
fn is_default_name(defaults: &Vec<&str>, name: &str) -> (r: bool)
    ensures
        r == is_default(defaults@, name@),
{
    let mut i: usize = 0;
    while i < defaults.len()
        invariant
            i <= defaults@.len(),
            forall|k: int| 0 <= k < i ==> #[trigger] defaults@[k]@ != name@,
        decreases defaults@.len() - i,
    {
        if str_eq(defaults[i], name) {
            return true;
        }
        i = i + 1;
    }
    false
}

/// Why a to collection name is refused, if it is: it is a default, it
/// holds a character that is not alphanumeric, or it is too long.
pub open spec fn name_refusal(defaults: Seq<&str>, name: &str) -> Option<NsError> {
    if is_default(defaults, name@) {
        Some(NsError::DefaultCollection)
    } else if !all_alphanumeric(name@) {
        Some(NsError::UnsupportedCharacters)
    } else if name.spec_bytes().len() > MAX_COLNAME_CHARS {
        Some(NsError::NameTooLong)
    } else {
        None
    }
}

/// Checks a to collection name; see `name_refusal`.
fn check_new_name(defaults: &Vec<&str>, name: &str) -> (r: Result<(), NsError>)
    ensures
        match name_refusal(defaults@, name) {
            Some(e) => r == Err::<(), NsError>(e),
            None => r is Ok,
        },
{
    if is_default_name(defaults, name) {
        return Err(NsError::DefaultCollection);
    }
    if !alphanumeric_name(name) {
        return Err(NsError::UnsupportedCharacters);
    }
    if name.as_bytes().len() > MAX_COLNAME_CHARS {
        return Err(NsError::NameTooLong);
    }
    Ok(())
}

/// Creates the collection `name` with the fresh identifier `id`, unless
/// the name is refused or taken.
pub fn create_collection(
    list: &mut IdentList,
    defaults: &Vec<&str>,
    name: &str,
    id: UniqueIdent,
    now: u64,
) -> (r: Result<(), NsError>)
    requires
        stamps_ok(old(list)@),
    ensures
        name_refusal(defaults@, name) matches Some(e) ==> r == Err::<(), NsError>(e),
        name_refusal(defaults@, name) is None && in_use(old(list)@, name@) ==> r == Err::<(), NsError>(
            NsError::AlreadyExists,
        ),
        r is Err ==> final(list)@ == old(list)@,
        name_refusal(defaults@, name) is None && !in_use(old(list)@, name@) ==> r is Ok && final(list)@ == created(
            old(list)@,
            name@,
            id,
            now,
        ),
{
    check_new_name(defaults, name)?;
    match list.create_with(name, id, now) {
        CreatedResult::Existed(_) => Err(NsError::AlreadyExists),
        CreatedResult::Created(_) => Ok(()),
    }
}

/// Deletes the collection `name` at `now`; a default cannot be deleted.
pub fn delete_collection(list: &mut IdentList, defaults: &Vec<&str>, name: &str, now: u64) -> (r: Result<
    (),
    NsError,
>)
    requires
        stamps_ok(old(list)@),
    ensures
        is_default(defaults@, name@) ==> r == Err::<(), NsError>(NsError::DefaultCollection),
        !is_default(defaults@, name@) && !in_use(old(list)@, name@) ==> r == Err::<(), NsError>(NsError::NotFound),
        r is Err ==> final(list)@ == old(list)@,
        !is_default(defaults@, name@) && in_use(old(list)@, name@) ==> r is Ok && final(list)@ == deleted(
            old(list)@,
            name@,
            now,
        ),
{
    if is_default_name(defaults, name) {
        return Err(NsError::DefaultCollection);
    }
    if list.has(name) {
        list.set_at(name, None, now);
        Ok(())
    } else {
        Err(NsError::NotFound)
    }
}

/// Renames the collection `old_name` to `new_name` at `now`: a default
/// cannot be renamed, the to name must be alphanumeric and short enough,
/// and the list must accept the rename.
pub fn rename_collection(
    list: &mut IdentList,
    defaults: &Vec<&str>,
    old_name: &str,
    new_name: &str,
    now: u64,
) -> (r: Result<(), NsError>)
    requires
        stamps_ok(old(list)@),
    ensures
        is_default(defaults@, old_name@) ==> r == Err::<(), NsError>(NsError::DefaultCollection),
        !is_default(defaults@, old_name@) && !all_alphanumeric(new_name@) ==> r == Err::<(), NsError>(
            NsError::UnsupportedCharacters,
        ),
        !is_default(defaults@, old_name@) && all_alphanumeric(new_name@) && new_name.spec_bytes().len()
            > MAX_COLNAME_CHARS ==> r == Err::<(), NsError>(NsError::NameTooLong),
        !is_default(defaults@, old_name@) && all_alphanumeric(new_name@) && new_name.spec_bytes().len()
            <= MAX_COLNAME_CHARS ==> {
            &&& !in_use(old(list)@, old_name@) ==> r == Err::<(), NsError>(
                NsError::Rename(RenameError::SourceMissing),
            )
            &&& in_use(old(list)@, old_name@) && in_use(old(list)@, new_name@) ==> r == Err::<(), NsError>(
                NsError::Rename(RenameError::TargetExists),
            )
            &&& in_use(old(list)@, old_name@) && !in_use(old(list)@, new_name@) ==> r is Ok && final(list)@ == old(
                list,
            )@.insert(old_name@, (set_stamp(old(list)@, old_name@, now), None)).insert(
                new_name@,
                (set_stamp(old(list)@, new_name@, now), old(list)@[old_name@].1),
            )
        },
        r is Err ==> final(list)@ == old(list)@,
{
    if is_default_name(defaults, old_name) {
        return Err(NsError::DefaultCollection);
    }
    if !alphanumeric_name(new_name) {
        return Err(NsError::UnsupportedCharacters);
    }
    if new_name.as_bytes().len() > MAX_COLNAME_CHARS {
        return Err(NsError::NameTooLong);
    }
    match list.rename_at(old_name, new_name, now) {
        Ok(()) => Ok(()),
        Err(e) => Err(NsError::Rename(e)),
    }
}

} // verus!
