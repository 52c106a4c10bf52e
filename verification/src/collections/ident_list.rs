//! A list of named identifiers, merged between replicas as a map of
//! last-writer-wins registers.
use vstd::prelude::*;

use super::unique_ident::{gen_ident, ident_less, ident_lt, UniqueIdent};
use crate::bayou::timestamp::now_msec;
use crate::text::{chars_of, lex_lt, seq_compare, lemma_lex_lt_irreflexive, lemma_lex_lt_transitive, lemma_lex_lt_total};

verus! {

/// A register value: the time of the last write, then the identifier
/// written (`None` when the name was deleted).
pub type Lww = (u64, Option<UniqueIdent>);

/// Strict order on optional identifiers: `None` first.
pub open spec fn opt_ident_lt(a: Option<UniqueIdent>, b: Option<UniqueIdent>) -> bool {
    match (a, b) {
        (None, Some(_)) => true,
        (Some(x), Some(y)) => ident_lt(x, y),
        _ => false,
    }
}

/// Strict order on register values: by time, then by identifier.
pub open spec fn lww_lt(a: Lww, b: Lww) -> bool {
    a.0 < b.0 || (a.0 == b.0 && opt_ident_lt(a.1, b.1))
}

/// The register value kept when two replicas meet: the greater one.
pub open spec fn lww_max(a: Lww, b: Lww) -> Lww {
    if lww_lt(a, b) {
        b
    } else {
        a
    }
}

/// The union of two lists as maps, keeping the greater register where a
/// name occurs in both.
pub open spec fn merge_view(a: Map<Seq<char>, Lww>, b: Map<Seq<char>, Lww>) -> Map<Seq<char>, Lww> {
    Map::new(
        |k: Seq<char>| a.contains_key(k) || b.contains_key(k),
        |k: Seq<char>|
            if a.contains_key(k) && b.contains_key(k) {
                lww_max(a[k], b[k])
            } else if a.contains_key(k) {
                a[k]
            } else {
                b[k]
            },
    )
}

/// Whether `rename` writes: `from` maps to an identifier and `to` to none.
pub open spec fn rename_writes(m: Map<Seq<char>, Lww>, from: Seq<char>, to: Seq<char>) -> bool {
    &&& m.contains_key(from)
    &&& m[from].1 is Some
    &&& !(m.contains_key(to) && m[to].1 is Some)
}

/// Whether `set` changes a list: deleting an absent name, or writing the
/// identifier a name already has, leaves it as it is.
pub open spec fn set_changes(m: Map<Seq<char>, Lww>, k: Seq<char>, id: Option<UniqueIdent>) -> bool {
    if m.contains_key(k) {
        m[k].1 != id
    } else {
        id is Some
    }
}

/// The time `set` stamps a write with: the clock, or one after the
/// previous write if the clock lags behind it.
pub open spec fn set_stamp(m: Map<Seq<char>, Lww>, k: Seq<char>, now: u64) -> u64 {
    if m.contains_key(k) && now <= next_stamp(m[k].0) {
        next_stamp(m[k].0)
    } else {
        now
    }
}

/// The stamp after `t`: one more, the largest stamp staying where it is.
pub open spec fn next_stamp(t: u64) -> u64 {
    if t < u64::MAX {
        (t + 1) as u64
    } else {
        t
    }
}

/// One register of the list.
#[derive(Clone, Copy, Debug)]
pub struct IdentListEntry {
    pub id_lww: Lww,
}

impl IdentListEntry {
    /// Keeps the greater of the two register values (simple CRDT merge rule).
    pub fn merge(&mut self, other: &Self)
        ensures
            final(self).id_lww == lww_max(old(self).id_lww, other.id_lww),
    {
        if other.id_lww.0 > self.id_lww.0 || (other.id_lww.0 == self.id_lww.0 && opt_ident_less(
            &self.id_lww.1,
            &other.id_lww.1,
        )) {
            self.id_lww = other.id_lww;
        }
    }
}

/// Compares optional identifiers, `None` first.
fn opt_ident_less(a: &Option<UniqueIdent>, b: &Option<UniqueIdent>) -> (r: bool)
    ensures
        r == opt_ident_lt(*a, *b),
{
    match (a, b) {
        (None, Some(_)) => true,
        (Some(x), Some(y)) => ident_less(x, y),
        _ => false,
    }
}

/// Whether two optional identifiers are equal.
fn opt_ident_eq(a: &Option<UniqueIdent>, b: &Option<UniqueIdent>) -> (r: bool)
    ensures
        r == (*a == *b),
{
    match (a, b) {
        (None, None) => true,
        (Some(x), Some(y)) => x.0 == y.0 && x.1 == y.1 && x.2 == y.2,
        _ => false,
    }
}

/// What `create` did.
#[derive(Debug, PartialEq, Eq, Clone, Copy)]
pub enum CreatedResult {
    Created(UniqueIdent),
    Existed(UniqueIdent),
}

/// Why `rename` refused.
#[derive(Debug, PartialEq, Eq, Clone, Copy)]
pub enum RenameError {
    /// The new name is already in use.
    TargetExists,
    /// The old name is not in use.
    SourceMissing,
}

/// Whether the names of a list of entries are strictly increasing.
pub open spec fn sorted_names(s: Seq<(String, IdentListEntry)>) -> bool {
    forall|i: int, j: int| 0 <= i < j < s.len() ==> lex_lt(#[trigger] s[i].0@, #[trigger] s[j].0@)
}

/// Whether a name occurs in a list of entries.
pub open spec fn has_name(s: Seq<(String, IdentListEntry)>, k: Seq<char>) -> bool {
    exists|i: int| 0 <= i < s.len() && #[trigger] s[i].0@ == k
}

/// The map a list of entries stands for.
pub open spec fn entries_view(s: Seq<(String, IdentListEntry)>) -> Map<Seq<char>, Lww> {
    Map::new(
        |k: Seq<char>| has_name(s, k),
        |k: Seq<char>| s[name_index(s, k)].1.id_lww,
    )
}

/// A position at which a name occurs, if it does.
pub open spec fn name_index(s: Seq<(String, IdentListEntry)>, k: Seq<char>) -> int {
    choose|i: int| 0 <= i < s.len() && #[trigger] s[i].0@ == k
}

/// In a sorted list, a name occurs at one position only.
proof fn lemma_sorted_unique(s: Seq<(String, IdentListEntry)>, i: int, j: int)
    requires
        sorted_names(s),
        0 <= i < s.len(),
        0 <= j < s.len(),
        s[i].0@ == s[j].0@,
    ensures
        i == j,
{
    if i < j {
        assert(lex_lt(s[i].0@, s[j].0@));
        lemma_lex_lt_irreflexive(s[i].0@);
    } else if j < i {
        assert(lex_lt(s[j].0@, s[i].0@));
        lemma_lex_lt_irreflexive(s[i].0@);
    }
}

/// In a sorted list, the map holds at a name what the list holds there.
proof fn lemma_view_at(s: Seq<(String, IdentListEntry)>, i: int)
    requires
        sorted_names(s),
        0 <= i < s.len(),
    ensures
        entries_view(s).contains_key(s[i].0@),
        entries_view(s)[s[i].0@] == s[i].1.id_lww,
{
    let k = s[i].0@;
    assert(has_name(s, k));
    let c = name_index(s, k);
    lemma_sorted_unique(s, i, c);
}

/// A sorted list stands for any map that agrees with it on every name.
proof fn lemma_view_is(s: Seq<(String, IdentListEntry)>, m: Map<Seq<char>, Lww>)
    requires
        sorted_names(s),
        forall|k: Seq<char>| m.contains_key(k) <==> has_name(s, k),
        forall|j: int| 0 <= j < s.len() ==> m[(#[trigger] s[j]).0@] == s[j].1.id_lww,
    ensures
        entries_view(s) == m,
{
    assert forall|k: Seq<char>| entries_view(s).contains_key(k) implies entries_view(s)[k] == m[k] by {
        let j = name_index(s, k);
        lemma_view_at(s, j);
    }
    assert(entries_view(s) =~= m);
}

/// Taking one more entry of a sorted list adds that entry to the map.
proof fn lemma_take_push_view(s: Seq<(String, IdentListEntry)>, i: int)
    requires
        sorted_names(s),
        0 <= i < s.len(),
    ensures
        entries_view(s.take(i + 1)) == entries_view(s.take(i)).insert(s[i].0@, s[i].1.id_lww),
{
    let t = s.take(i + 1);
    let u = s.take(i);
    assert(sorted_names(t));
    assert(sorted_names(u));
    let m = entries_view(u).insert(s[i].0@, s[i].1.id_lww);
    assert forall|k: Seq<char>| m.contains_key(k) <==> has_name(t, k) by {
        if has_name(t, k) {
            let j = choose|j: int| 0 <= j < t.len() && #[trigger] t[j].0@ == k;
            if j < i {
                assert(u[j].0@ == k);
            }
        }
        if entries_view(u).contains_key(k) {
            let j = choose|j: int| 0 <= j < u.len() && #[trigger] u[j].0@ == k;
            assert(t[j].0@ == k);
        }
        if k == s[i].0@ {
            assert(t[i].0@ == k);
        }
    }
    assert forall|j: int| 0 <= j < t.len() implies m[(#[trigger] t[j]).0@] == t[j].1.id_lww by {
        if j < i {
            assert(u[j] == t[j]);
            lemma_view_at(u, j);
            assert(t[j].0@ != s[i].0@) by {
                assert(lex_lt(s[j].0@, s[i].0@));
                lemma_lex_lt_irreflexive(s[i].0@);
            }
        }
    }
    lemma_view_is(t, m);
}

/// A list of named identifiers, each name a last-writer-wins register.
/// Names are kept in increasing order, as a `BTreeMap` keeps its keys.
pub struct IdentList {
    entries: Vec<(String, IdentListEntry)>,
}

impl View for IdentList {
    type V = Map<Seq<char>, Lww>;

    closed spec fn view(&self) -> Map<Seq<char>, Lww> {
        entries_view(self.entries@)
    }
}

/// Where a name is, or where it would go.
enum Position {
    Found(usize),
    Missing(usize),
}

impl IdentList {
    #[verifier::type_invariant]
    closed spec fn inv(&self) -> bool {
        sorted_names(self.entries@)
    }

    /// An empty list.
    pub fn new() -> (r: Self)
        ensures
            r@ == Map::<Seq<char>, Lww>::empty(),
    {
        let r = IdentList { entries: Vec::new() };
        assert(r@ =~= Map::<Seq<char>, Lww>::empty());
        r
    }

    /// Locates `name` in the entries.
    fn find(&self, name: &Vec<char>) -> (r: Position)
        ensures
            match r {
                Position::Found(i) => i < self.entries@.len() && self.entries@[i as int].0@ == name@,
                Position::Missing(i) => i <= self.entries@.len()
                    && (forall|j: int| 0 <= j < i ==> lex_lt(#[trigger] self.entries@[j].0@, name@))
                    && (forall|j: int| i <= j < self.entries@.len() ==> lex_lt(name@, #[trigger] self.entries@[j].0@)),
            },
    {
        proof {
            use_type_invariant(self);
        }
        let mut i: usize = 0;
        while i < self.entries.len()
            invariant
                i <= self.entries@.len(),
                sorted_names(self.entries@),
                forall|j: int| 0 <= j < i ==> lex_lt(#[trigger] self.entries@[j].0@, name@),
            decreases self.entries@.len() - i,
        {
            let key = chars_of(self.entries[i].0.as_str());
            let c = seq_compare(&key, name);
            if c == 0 {
                return Position::Found(i);
            }
            if c > 0 {
                assert forall|j: int| i <= j < self.entries@.len() implies lex_lt(name@, #[trigger] self.entries@[j].0@) by {
                    if j > i {
                        lemma_lex_lt_transitive(name@, self.entries@[i as int].0@, self.entries@[j].0@);
                    }
                }
                return Position::Missing(i);
            }
            i = i + 1;
        }
        Position::Missing(i)
    }

    /// Whether `name` is in the map, as the position search reports it.
    proof fn lemma_missing(&self, name: Seq<char>, i: int)
        requires
            sorted_names(self.entries@),
            0 <= i <= self.entries@.len(),
            forall|j: int| 0 <= j < i ==> lex_lt(#[trigger] self.entries@[j].0@, name),
            forall|j: int| i <= j < self.entries@.len() ==> lex_lt(name, #[trigger] self.entries@[j].0@),
        ensures
            !self@.contains_key(name),
    {
        if has_name(self.entries@, name) {
            let c = choose|c: int| 0 <= c < self.entries@.len() && #[trigger] self.entries@[c].0@ == name;
            lemma_lex_lt_irreflexive(name);
            if c < i {
                assert(lex_lt(self.entries@[c].0@, name));
            } else {
                assert(lex_lt(name, self.entries@[c].0@));
            }
        }
    }

    /// The register of `name`, if the list holds it.
    fn lookup(&self, name: &str) -> (r: Option<Lww>)
        ensures
            match r {
                Some(v) => self@.contains_key(name@) && self@[name@] == v,
                None => !self@.contains_key(name@),
            },
    {
        proof {
            use_type_invariant(self);
        }
        let key = chars_of(name);
        match self.find(&key) {
            Position::Found(i) => {
                proof {
                    lemma_view_at(self.entries@, i as int);
                }
                Some(self.entries[i].1.id_lww)
            },
            Position::Missing(i) => {
                proof {
                    self.lemma_missing(name@, i as int);
                }
                None
            },
        }
    }

    /// Writes the register of `name`.
    fn put(&mut self, name: String, v: Lww)
        ensures
            final(self)@ == old(self)@.insert(name@, v),
    {
        proof {
            use_type_invariant(&*self);
        }
        let key = chars_of(name.as_str());
        let pos = self.find(&key);
        let ghost old_view = self@;
        let mut entries: Vec<(String, IdentListEntry)> = Vec::new();
        std::mem::swap(&mut entries, &mut self.entries);
        let ghost old_e = entries@;
        let ghost k = name@;
        proof {
            assert(old_view == entries_view(old_e));
        }
        match pos {
            Position::Found(i) => {
                entries.set(i, (name, IdentListEntry { id_lww: v }));
                proof {
                    let ne = entries@;
                    assert forall|a: int, b: int| 0 <= a < b < ne.len() implies lex_lt(#[trigger] ne[a].0@, #[trigger] ne[b].0@) by {
                        assert(ne[a].0@ == old_e[a].0@);
                        assert(ne[b].0@ == old_e[b].0@);
                    }
                    let m = old_view.insert(k, v);
                    assert forall|k2: Seq<char>| m.contains_key(k2) <==> has_name(ne, k2) by {
                        if has_name(ne, k2) {
                            let j = choose|j: int| 0 <= j < ne.len() && #[trigger] ne[j].0@ == k2;
                            if j != i {
                                lemma_view_at(old_e, j);
                            }
                        }
                        if m.contains_key(k2) && k2 != k {
                            let j = choose|j: int| 0 <= j < old_e.len() && #[trigger] old_e[j].0@ == k2;
                            assert(ne[j].0@ == k2);
                        }
                        if k2 == k {
                            assert(ne[i as int].0@ == k2);
                        }
                    }
                    assert forall|j: int| 0 <= j < ne.len() implies m[(#[trigger] ne[j]).0@] == ne[j].1.id_lww by {
                        if j != i {
                            lemma_view_at(old_e, j);
                            if old_e[j].0@ == k {
                                lemma_sorted_unique(old_e, i as int, j);
                            }
                        }
                    }
                    lemma_view_is(ne, m);
                }
            },
            Position::Missing(i) => {
                entries.insert(i, (name, IdentListEntry { id_lww: v }));
                proof {
                    let ne = entries@;
                    assert forall|a: int, b: int| 0 <= a < b < ne.len() implies lex_lt(#[trigger] ne[a].0@, #[trigger] ne[b].0@) by {
                        if b < i {
                        } else if b == i {
                        } else if a < i {
                            assert(ne[b].0@ == old_e[b - 1].0@);
                            lemma_lex_lt_transitive(ne[a].0@, k, ne[b].0@);
                        } else if a == i {
                            assert(ne[b].0@ == old_e[b - 1].0@);
                        } else {
                            assert(ne[a].0@ == old_e[a - 1].0@);
                            assert(ne[b].0@ == old_e[b - 1].0@);
                        }
                    }
                    let m = old_view.insert(k, v);
                    assert forall|k2: Seq<char>| m.contains_key(k2) <==> has_name(ne, k2) by {
                        if has_name(ne, k2) {
                            let j = choose|j: int| 0 <= j < ne.len() && #[trigger] ne[j].0@ == k2;
                            if j < i {
                                lemma_view_at(old_e, j);
                            } else if j > i {
                                assert(ne[j] == old_e[j - 1]);
                                lemma_view_at(old_e, j - 1);
                            }
                        }
                        if m.contains_key(k2) && k2 != k {
                            let j = choose|j: int| 0 <= j < old_e.len() && #[trigger] old_e[j].0@ == k2;
                            if j < i {
                                assert(ne[j].0@ == k2);
                            } else {
                                assert(ne[j + 1].0@ == k2);
                            }
                        }
                        if k2 == k {
                            assert(ne[i as int].0@ == k2);
                        }
                    }
                    assert forall|j: int| 0 <= j < ne.len() implies m[(#[trigger] ne[j]).0@] == ne[j].1.id_lww by {
                        lemma_lex_lt_irreflexive(k);
                        if j < i {
                            lemma_view_at(old_e, j);
                        } else if j > i {
                            assert(ne[j] == old_e[j - 1]);
                            lemma_view_at(old_e, j - 1);
                        }
                    }
                    lemma_view_is(ne, m);
                }
            },
        }
        self.entries = entries;
    }

    /// Sets `name` to `id`, stamping the write with `now` (or one after
    /// the previous write, if the clock lags behind it). Returns whether
    /// anything changed: deleting an absent name, or writing the identifier
    /// a name already has, changes nothing.
    pub fn set_at(&mut self, name: &str, id: Option<UniqueIdent>, now: u64) -> (r: bool)
        ensures
            r == set_changes(old(self)@, name@, id),
            r ==> final(self)@ == old(self)@.insert(name@, (set_stamp(old(self)@, name@, now), id)),
            !r ==> final(self)@ == old(self)@,
    {
        let ts = match self.lookup(name) {
            None => {
                if id.is_none() {
                    return false;
                }
                now
            },
            Some((t, cur)) => {
                if opt_ident_eq(&cur, &id) {
                    return false;
                }
                let next = if t < u64::MAX {
                    t + 1
                } else {
                    t
                };
                if now > next {
                    now
                } else {
                    next
                }
            },
        };
        self.put(name.to_string(), (ts, id));
        true
    }

    /// Sets `name` to `id` at the current time; see `set_at`.
    pub fn set(&mut self, name: &str, id: Option<UniqueIdent>) -> (r: bool)
        ensures
            r == set_changes(old(self)@, name@, id),
            r ==> exists|now: u64| final(self)@ == old(self)@.insert(name@, (#[trigger] set_stamp(old(self)@, name@, now), id)),
            !r ==> final(self)@ == old(self)@,
    {
        let now = now_msec();
        let r = self.set_at(name, id, now);
        proof {
            if r {
                let ts = set_stamp(old(self)@, name@, now);
                assert(final(self)@ == old(self)@.insert(name@, (ts, id)));
            }
        }
        r
    }

    /// Makes `name` map to a fresh identifier `id`, stamped `now`, unless it
    /// already maps to one.
    pub fn create_with(&mut self, name: &str, id: UniqueIdent, now: u64) -> (r: CreatedResult)
        ensures
            old(self)@.contains_key(name@) && old(self)@[name@].1 is Some ==> r == CreatedResult::Existed(
                old(self)@[name@].1->0,
            ) && final(self)@ == old(self)@,
            !(old(self)@.contains_key(name@) && old(self)@[name@].1 is Some) ==> r == CreatedResult::Created(id)
                && final(self)@ == old(self)@.insert(name@, (set_stamp(old(self)@, name@, now), Some(id))),
    {
        if let Some(existing) = self.get(name) {
            return CreatedResult::Existed(existing);
        }
        self.set_at(name, Some(id), now);
        CreatedResult::Created(id)
    }

    /// Makes `name` map to a fresh identifier, unless it already maps to one.
    pub fn create(&mut self, name: &str) -> (r: CreatedResult)
        ensures
            old(self)@.contains_key(name@) && old(self)@[name@].1 is Some ==> r == CreatedResult::Existed(
                old(self)@[name@].1->0,
            ) && final(self)@ == old(self)@,
            !(old(self)@.contains_key(name@) && old(self)@[name@].1 is Some) ==> r is Created
                && final(self)@.contains_key(name@) && final(self)@[name@].1 == Some(r->Created_0)
                && final(self)@.remove(name@) == old(self)@.remove(name@),
    {
        if let Some(existing) = self.get(name) {
            return CreatedResult::Existed(existing);
        }
        let id = gen_ident();
        let now = now_msec();
        let r = self.create_with(name, id, now);
        proof {
            assert(final(self)@.remove(name@) =~= old(self)@.remove(name@));
        }
        r
    }

    /// Moves the identifier of `old_name` to `new_name`, stamping both
    /// writes with `now`: refused when `old_name` maps to nothing or
    /// `new_name` already maps to something.
    pub fn rename_at(&mut self, old_name: &str, new_name: &str, now: u64) -> (r: Result<(), RenameError>)
        ensures
            !(old(self)@.contains_key(old_name@) && old(self)@[old_name@].1 is Some) ==> r == Err::<
                (),
                RenameError,
            >(RenameError::SourceMissing) && final(self)@ == old(self)@,
            old(self)@.contains_key(old_name@) && old(self)@[old_name@].1 is Some && old(self)@.contains_key(new_name@)
                && old(self)@[new_name@].1 is Some ==> r == Err::<(), RenameError>(RenameError::TargetExists)
                && final(self)@ == old(self)@,
            old(self)@.contains_key(old_name@) && old(self)@[old_name@].1 is Some && !(old(self)@.contains_key(
                new_name@,
            ) && old(self)@[new_name@].1 is Some) ==> r is Ok && final(self)@ == old(self)@.insert(
                old_name@,
                (set_stamp(old(self)@, old_name@, now), None),
            ).insert(new_name@, (set_stamp(old(self)@, new_name@, now), old(self)@[old_name@].1)),
    {
        if let Some(mbid) = self.get(old_name) {
            if self.has(new_name) {
                return Err(RenameError::TargetExists);
            }
            let ghost m0 = self@;
            self.set_at(old_name, None, now);
            proof {
                assert(old_name@ != new_name@);
                assert(self@.contains_key(new_name@) == m0.contains_key(new_name@));
            }
            self.set_at(new_name, Some(mbid), now);
            Ok(())
        } else {
            Err(RenameError::SourceMissing)
        }
    }

    /// Moves the identifier of `old_name` to `new_name` at the current time;
    /// see `rename_at`.
    pub fn rename(&mut self, old_name: &str, new_name: &str) -> (r: Result<(), RenameError>)
        ensures
            !(old(self)@.contains_key(old_name@) && old(self)@[old_name@].1 is Some) ==> r == Err::<
                (),
                RenameError,
            >(RenameError::SourceMissing) && final(self)@ == old(self)@,
            old(self)@.contains_key(old_name@) && old(self)@[old_name@].1 is Some && old(self)@.contains_key(new_name@)
                && old(self)@[new_name@].1 is Some ==> r == Err::<(), RenameError>(RenameError::TargetExists)
                && final(self)@ == old(self)@,
            old(self)@.contains_key(old_name@) && old(self)@[old_name@].1 is Some && !(old(self)@.contains_key(
                new_name@,
            ) && old(self)@[new_name@].1 is Some) ==> r is Ok && final(self)@.dom() == old(self)@.dom().insert(
                new_name@,
            ) && final(self)@[old_name@].1 is None && final(self)@[new_name@].1 == old(self)@[old_name@].1
                && final(self)@.remove(old_name@).remove(new_name@) == old(self)@.remove(old_name@).remove(
                new_name@,
            ),
    {
        let now = now_msec();
        let r = self.rename_at(old_name, new_name, now);
        proof {
            assert(final(self)@.remove(old_name@).remove(new_name@) =~= old(self)@.remove(old_name@).remove(
                new_name@,
            ));
            assert(final(self)@.dom() =~= old(self)@.dom().insert(new_name@) || !(r is Ok));
        }
        r
    }

    /// Merges another replica's list into this one: names from either side,
    /// with the greater register where both have one.
    pub fn merge(&mut self, list2: Self)
        ensures
            final(self)@ == merge_view(old(self)@, list2@),
    {
        proof {
            use_type_invariant(&list2);
        }
        let ghost start = self@;
        let ghost other = list2.entries@;
        let mut i: usize = 0;
        while i < list2.entries.len()
            invariant
                i <= other.len(),
                other == list2.entries@,
                sorted_names(other),
                self@ == merge_view(start, entries_view(other.take(i as int))),
            decreases other.len() - i,
        {
            let name = list2.entries[i].0.clone();
            let theirs = list2.entries[i].1;
            let ghost before = self@;
            match self.lookup(name.as_str()) {
                Some(ours) => {
                    let mut e = IdentListEntry { id_lww: ours };
                    e.merge(&theirs);
                    self.put(name, e.id_lww);
                },
                None => {
                    self.put(name, theirs.id_lww);
                },
            }
            proof {
                lemma_take_push_view(other, i as int);
                let k = other[i as int].0@;
                let b = entries_view(other.take(i as int));
                assert(!b.contains_key(k)) by {
                    if b.contains_key(k) {
                        let j = choose|j: int| 0 <= j < other.take(i as int).len() && #[trigger] other.take(i as int)[j].0@ == k;
                        assert(other[j].0@ == k);
                        lemma_sorted_unique(other, j, i as int);
                    }
                }
                assert(self@ =~= merge_view(start, b.insert(k, other[i as int].1.id_lww)));
            }
            i = i + 1;
        }
        proof {
            assert(other.take(other.len() as int) =~= other);
        }
    }

    /// The names that map to an identifier, in increasing order.
    pub fn names(&self) -> (r: Vec<String>)
        ensures
            forall|i: int, j: int| 0 <= i < j < r@.len() ==> lex_lt(#[trigger] r@[i]@, #[trigger] r@[j]@),
            forall|k: Seq<char>| (exists|i: int| 0 <= i < r@.len() && #[trigger] r@[i]@ == k) <==> (
            self@.contains_key(k) && self@[k].1 is Some),
    {
        proof {
            use_type_invariant(self);
        }
        let mut out: Vec<String> = Vec::new();
        let mut i: usize = 0;
        let ghost mut src: Seq<int> = Seq::empty();
        while i < self.entries.len()
            invariant
                i <= self.entries@.len(),
                sorted_names(self.entries@),
                src.len() == out@.len(),
                forall|a: int| 0 <= a < src.len() ==> 0 <= #[trigger] src[a] < i,
                forall|a: int, b: int| 0 <= a < b < src.len() ==> #[trigger] src[a] < #[trigger] src[b],
                forall|a: int| 0 <= a < src.len() ==> (#[trigger] out@[a])@ == self.entries@[src[a]].0@,
                forall|a: int| 0 <= a < src.len() ==> (#[trigger] self.entries@[src[a]]).1.id_lww.1 is Some,
                forall|j: int| 0 <= j < i && (#[trigger] self.entries@[j]).1.id_lww.1 is Some ==> exists|a: int|
                    0 <= a < src.len() && src[a] == j,
            decreases self.entries@.len() - i,
        {
            let ghost old_src = src;
            if self.entries[i].1.id_lww.1.is_some() {
                out.push(self.entries[i].0.clone());
                proof {
                    src = src.push(i as int);
                }
            }
            proof {
                assert forall|j: int| 0 <= j < i + 1 && (#[trigger] self.entries@[j]).1.id_lww.1 is Some implies exists|a: int|
                    0 <= a < src.len() && src[a] == j by {
                    if j == i {
                        assert(src[src.len() - 1] == j);
                    } else {
                        let a = choose|a: int| 0 <= a < old_src.len() && old_src[a] == j;
                        assert(src[a] == j);
                    }
                }
            }
            i = i + 1;
        }
        proof {
            assert forall|a: int, b: int| 0 <= a < b < out@.len() implies lex_lt(#[trigger] out@[a]@, #[trigger] out@[b]@) by {
                assert(src[a] < src[b]);
                assert(lex_lt(self.entries@[src[a]].0@, self.entries@[src[b]].0@));
            }
            assert forall|k: Seq<char>| (exists|a: int| 0 <= a < out@.len() && #[trigger] out@[a]@ == k) <==> (
            self@.contains_key(k) && self@[k].1 is Some) by {
                if exists|a: int| 0 <= a < out@.len() && #[trigger] out@[a]@ == k {
                    let a = choose|a: int| 0 <= a < out@.len() && #[trigger] out@[a]@ == k;
                    lemma_view_at(self.entries@, src[a]);
                }
                if self@.contains_key(k) && self@[k].1 is Some {
                    let c = choose|c: int| 0 <= c < self.entries@.len() && #[trigger] self.entries@[c].0@ == k;
                    lemma_view_at(self.entries@, c);
                    assert(self.entries@[c].1.id_lww.1 is Some);
                    let a = choose|a: int| 0 <= a < src.len() && src[a] == c;
                    assert(out@[a]@ == k);
                }
            }
        }
        out
    }

    /// Whether `name` maps to an identifier.
    pub fn has(&self, name: &str) -> (r: bool)
        ensures
            r == (self@.contains_key(name@) && self@[name@].1 is Some),
    {
        match self.lookup(name) {
            Some((_, Some(_))) => true,
            _ => false,
        }
    }

    /// The identifier `name` maps to, if any.
    pub fn get(&self, name: &str) -> (r: Option<UniqueIdent>)
        ensures
            r == (if self@.contains_key(name@) { self@[name@].1 } else { None }),
    {
        match self.lookup(name) {
            Some((_, ident)) => ident,
            None => None,
        }
    }
}

} // verus!

verus! {

/// Register values are totally ordered: of two different values, one is
/// before the other, and never both.
proof fn lemma_lww_total(a: Lww, b: Lww)
    ensures
        !(lww_lt(a, b) && lww_lt(b, a)),
        !lww_lt(a, a),
        a != b ==> lww_lt(a, b) || lww_lt(b, a),
{
}

/// The register kept when two meet does not depend on their order, and a
/// register meeting itself is kept.
proof fn lemma_lww_max(a: Lww, b: Lww, c: Lww)
    ensures
        lww_max(a, b) == lww_max(b, a),
        lww_max(a, a) == a,
        lww_max(lww_max(a, b), c) == lww_max(a, lww_max(b, c)),
{
    lemma_lww_total(a, b);
    lemma_lww_total(b, c);
    lemma_lww_total(a, c);
}

/// Merging lists does not depend on which replica merges into which.
pub proof fn law_merge_commutative(a: Map<Seq<char>, Lww>, b: Map<Seq<char>, Lww>)
    ensures
        merge_view(a, b) == merge_view(b, a),
{
    assert forall|k: Seq<char>| a.contains_key(k) && b.contains_key(k) implies lww_max(a[k], b[k]) == lww_max(b[k], a[k]) by {
        lemma_lww_max(a[k], b[k], a[k]);
    }
    assert(merge_view(a, b) =~= merge_view(b, a));
}

/// Merging lists does not depend on how merges are grouped.
pub proof fn law_merge_associative(a: Map<Seq<char>, Lww>, b: Map<Seq<char>, Lww>, c: Map<Seq<char>, Lww>)
    ensures
        merge_view(merge_view(a, b), c) == merge_view(a, merge_view(b, c)),
{
    assert forall|k: Seq<char>| a.contains_key(k) && b.contains_key(k) && c.contains_key(k) implies lww_max(
        lww_max(a[k], b[k]),
        c[k],
    ) == lww_max(a[k], lww_max(b[k], c[k])) by {
        lemma_lww_max(a[k], b[k], c[k]);
    }
    assert(merge_view(merge_view(a, b), c) =~= merge_view(a, merge_view(b, c)));
}

/// Merging a list with itself, or receiving the same list twice, changes
/// nothing.
pub proof fn law_merge_idempotent(a: Map<Seq<char>, Lww>, b: Map<Seq<char>, Lww>)
    ensures
        merge_view(a, a) == a,
        merge_view(merge_view(a, b), b) == merge_view(a, b),
{
    assert forall|k: Seq<char>| a.contains_key(k) implies lww_max(a[k], a[k]) == a[k] by {
        lemma_lww_max(a[k], a[k], a[k]);
    }
    assert(merge_view(a, a) =~= a);
    assert forall|k: Seq<char>| a.contains_key(k) && b.contains_key(k) implies lww_max(lww_max(a[k], b[k]), b[k])
        == lww_max(a[k], b[k]) by {
        lemma_lww_max(a[k], b[k], b[k]);
        lemma_lww_max(b[k], b[k], b[k]);
    }
    assert(merge_view(merge_view(a, b), b) =~= merge_view(a, b));
}

/// A write that is newer than what another replica holds for the name
/// survives merging with that replica.
pub proof fn law_newer_write_wins(a: Map<Seq<char>, Lww>, b: Map<Seq<char>, Lww>, k: Seq<char>)
    requires
        a.contains_key(k),
        b.contains_key(k) ==> lww_lt(b[k], a[k]),
    ensures
        merge_view(a, b)[k] == a[k],
        merge_view(b, a)[k] == a[k],
{
    if b.contains_key(k) {
        lemma_lww_total(a[k], b[k]);
    }
}

/// After `set_at` writes a name, the name maps to what was written, with a
/// stamp newer than the one it had.
pub proof fn law_set_then_get(m: Map<Seq<char>, Lww>, k: Seq<char>, id: Option<UniqueIdent>, now: u64)
    requires
        m.contains_key(k) ==> m[k].0 < u64::MAX,
    ensures
        ({
            let m2 = m.insert(k, (set_stamp(m, k, now), id));
            &&& m2[k].1 == id
            &&& m.contains_key(k) ==> m2[k].0 > m[k].0
        }),
{
}

/// A name written by `set_at` keeps the written identifier when the list
/// is merged, in either order, with the list as it was before the write.
pub proof fn law_set_survives_merge(m: Map<Seq<char>, Lww>, k: Seq<char>, id: Option<UniqueIdent>, now: u64)
    requires
        m.contains_key(k) ==> m[k].0 < u64::MAX,
    ensures
        ({
            let m2 = m.insert(k, (set_stamp(m, k, now), id));
            &&& merge_view(m, m2)[k].1 == id
            &&& merge_view(m2, m)[k].1 == id
        }),
{
    let m2 = m.insert(k, (set_stamp(m, k, now), id));
    law_newer_write_wins(m2, m, k);
}

} // verus!
