//! The state of a DAV collection (calendar or addressbook): the files it
//! holds and the partial synchronization graph that WebDAV sync tokens
//! are resolved against.
use vstd::prelude::*;

use crate::bayou::history::BayouState;
use vstd::set_lib::*;

use super::ordered::{
    ancestor_map_clone, ancestor_map_get, ancestor_map_insert, ancestor_map_new, ancestor_map_view,
    blob_table_clone, blob_table_get, blob_table_insert, blob_table_len, blob_table_new, blob_table_remove,
    blob_table_to_vec, blob_table_view, change_map_clone, change_map_get, change_map_insert, change_map_new,
    change_map_view, filename_index_clone, filename_index_get, filename_index_insert, filename_index_new,
    filename_index_remove, filename_index_view, token_set_clone, token_set_contains, token_set_insert,
    token_set_is_subset, token_set_new, token_set_relative_complement, token_set_remove, token_set_to_vec,
    token_set_view, FileName, IndexEntry, SyncChange,
};
use super::unique_ident::{gen_ident, ident_lt, UniqueIdent};

verus! {

/// A sync token: the identifier of an operation of the log.
pub type Token = UniqueIdent;
/// The heads an operation was made on top of.
pub type Parents = Vec<Token>;
/// Where an operation sits in the graph: its parents and its own token.
pub type SyncDesc = (Parents, Token);
/// The identifier of a stored file.
pub type BlobId = UniqueIdent;
/// An entity tag.
pub type Etag = String;

/// An operation of the collection's log.
#[derive(Debug)]
pub enum DavDagOp {
    /// Joins several heads into one; changes no file.
    Merge(SyncDesc),
    /// Adds (or replaces) a file.
    Put(SyncDesc, IndexEntry),
    /// Deletes a file.
    Delete(SyncDesc, BlobId),
}

/// The position of an operation in the graph, as sets.
pub open spec fn op_desc(op: DavDagOp) -> (Seq<Token>, Token) {
    match op {
        DavDagOp::Merge(d) => (d.0@, d.1),
        DavDagOp::Put(d, _) => (d.0@, d.1),
        DavDagOp::Delete(d, _) => (d.0@, d.1),
    }
}

impl DavDagOp {
    /// The operation's own sync token.
    pub fn token(&self) -> (r: Token)
        ensures
            r == op_desc(*self).1,
    {
        match self {
            Self::Merge((_, t)) => *t,
            Self::Put((_, t), _) => *t,
            Self::Delete((_, t), _) => *t,
        }
    }
}

/// A copy of a recorded change.
pub fn copy_change(c: &SyncChange) -> (r: SyncChange)
    ensures
        r == *c,
{
    match c {
        SyncChange::Found(f) => SyncChange::Found(f.clone()),
        SyncChange::NotFound(f) => SyncChange::NotFound(f.clone()),
    }
}

/// The collection state as mathematical maps and sets.
pub struct DagView {
    /// The files, by blob: the source of trust.
    pub table: Map<BlobId, IndexEntry>,
    /// The blob of each file name.
    pub by_filename: Map<Seq<char>, BlobId>,
    /// The parents of each known operation.
    pub ancestors: Map<Token, Set<Token>>,
    /// Every known operation.
    pub all_nodes: Set<Token>,
    /// The operations no known operation builds on.
    pub heads: Set<Token>,
    /// The operations that have no parent.
    pub origins: Set<Token>,
    /// What each operation did to a file.
    pub change: Map<Token, SyncChange>,
}

/// The state with no file and no operation.
pub open spec fn empty_view() -> DagView {
    DagView {
        table: Map::empty(),
        by_filename: Map::empty(),
        ancestors: Map::empty(),
        all_nodes: Set::empty(),
        heads: Set::empty(),
        origins: Set::empty(),
        change: Map::empty(),
    }
}

/// Records an operation in the synchronization graph: it becomes a head
/// in place of its parents, and an origin if it has none.
pub open spec fn view_sync_dag(v: DagView, parents: Seq<Token>, child: Token) -> DagView {
    DagView {
        ancestors: v.ancestors.insert(child, parents.to_set()),
        origins: if parents.len() == 0 {
            v.origins.insert(child)
        } else {
            v.origins
        },
        heads: v.heads.difference(parents.to_set()).insert(child),
        all_nodes: v.all_nodes.insert(child),
        ..v
    }
}

/// Registers a file (put, copy, move), noting the change at `token` if given.
pub open spec fn view_register(v: DagView, token: Option<Token>, entry: IndexEntry) -> DagView {
    DagView {
        table: v.table.insert(entry.0, entry),
        by_filename: v.by_filename.insert(entry.1@, entry.0),
        change: match token {
            Some(t) => v.change.insert(t, SyncChange::Found(entry.1)),
            None => v.change,
        },
        ..v
    }
}

/// Unregisters a file (delete, move), noting the change at `token`; an
/// unknown blob changes nothing.
pub open spec fn view_unregister(v: DagView, token: Token, blob_id: BlobId) -> DagView {
    if v.table.contains_key(blob_id) {
        let filename = v.table[blob_id].1;
        DagView {
            table: v.table.remove(blob_id),
            by_filename: v.by_filename.remove(filename@),
            change: v.change.insert(token, SyncChange::NotFound(filename)),
            ..v
        }
    } else {
        v
    }
}

/// The state after an operation.
pub open spec fn view_apply(v: DagView, op: DavDagOp) -> DagView {
    match op {
        DavDagOp::Put(d, entry) => view_register(view_sync_dag(v, d.0@, d.1), Some(d.1), entry),
        DavDagOp::Delete(d, blob_id) => view_unregister(view_sync_dag(v, d.0@, d.1), d.1, blob_id),
        DavDagOp::Merge(d) => view_sync_dag(v, d.0@, d.1),
    }
}


/// Deleting a file of the collection removes it: its blob leaves the
/// table, its file name leaves the name index (so the name no longer leads
/// to a blob), and the change at the operation's token records the name
/// as not found; every other file and name stays as it was. Deleting a
/// blob the collection does not hold changes no file.
pub proof fn law_delete_removes_file(v: DagView, d: SyncDesc, b: BlobId)
    ensures
        ({
            let w = view_apply(v, DavDagOp::Delete(d, b));
            if v.table.contains_key(b) {
                let n = v.table[b].1;
                &&& !w.table.contains_key(b)
                &&& !w.by_filename.contains_key(n@)
                &&& w.change.contains_key(d.1) && w.change[d.1] == SyncChange::NotFound(n)
                &&& forall|k: BlobId| k != b ==> (#[trigger] w.table.contains_key(k) == v.table.contains_key(k)
                    && (v.table.contains_key(k) ==> w.table[k] == v.table[k]))
                &&& forall|m: Seq<char>| m != n@ ==> (#[trigger] w.by_filename.contains_key(m) == v.by_filename.contains_key(m)
                    && (v.by_filename.contains_key(m) ==> w.by_filename[m] == v.by_filename[m]))
            } else {
                &&& w.table == v.table
                &&& w.by_filename == v.by_filename
            }
        }),
{
    let w = view_apply(v, DavDagOp::Delete(d, b));
    if v.table.contains_key(b) {
        let n = v.table[b].1;
        assert forall|m: Seq<char>| m != n@ implies (#[trigger] w.by_filename.contains_key(m) == v.by_filename.contains_key(m)
            && (v.by_filename.contains_key(m) ==> w.by_filename[m] == v.by_filename[m])) by {}
    }
}

/// Putting a file registers it: the table holds its entry under its blob,
/// its file name leads to that blob, and the change at the operation's
/// token records the name as found; every other blob and name stays.
pub proof fn law_put_registers_file(v: DagView, d: SyncDesc, e: IndexEntry)
    ensures
        ({
            let w = view_apply(v, DavDagOp::Put(d, e));
            &&& w.table.contains_key(e.0) && w.table[e.0] == e
            &&& w.by_filename.contains_key(e.1@) && w.by_filename[e.1@] == e.0
            &&& w.change.contains_key(d.1) && w.change[d.1] == SyncChange::Found(e.1)
            &&& forall|k: BlobId| k != e.0 ==> (#[trigger] w.table.contains_key(k) == v.table.contains_key(k)
                && (v.table.contains_key(k) ==> w.table[k] == v.table[k]))
            &&& forall|m: Seq<char>| m != e.1@ ==> (#[trigger] w.by_filename.contains_key(m) == v.by_filename.contains_key(m)
                && (v.by_filename.contains_key(m) ==> w.by_filename[m] == v.by_filename[m]))
        }),
{
}

/// A merge changes no file.
pub proof fn law_merge_keeps_files(v: DagView, d: SyncDesc)
    ensures
        view_apply(v, DavDagOp::Merge(d)).table == v.table,
        view_apply(v, DavDagOp::Merge(d)).by_filename == v.by_filename,
{
}

/// Whether `p` walks from operation to parent in the graph.
pub open spec fn is_parent_path(anc: Map<Token, Set<Token>>, p: Seq<Token>) -> bool {
    &&& p.len() > 0
    &&& forall|i: int|
        0 <= i < p.len() - 1 ==> anc.contains_key(#[trigger] p[i]) && anc[p[i]].contains(p[i + 1])
}

/// Whether `to` is `from` or one of its ancestors.
pub open spec fn reachable(anc: Map<Token, Set<Token>>, from: Token, to: Token) -> bool {
    exists|p: Seq<Token>| is_parent_path(anc, p) && p[0] == from && #[trigger] p.last() == to
}

/// The operations a node knows of: itself and all its ancestors.
pub open spec fn known_by(anc: Map<Token, Set<Token>>, known: Token) -> Set<Token> {
    Set::new(|t: Token| reachable(anc, known, t))
}


/// What a sync token knows of: the operation itself, and with each known
/// operation all its parents; nothing else is known to a token that has no
/// parents in the graph.
pub proof fn law_known_by(anc: Map<Token, Set<Token>>, known: Token)
    ensures
        known_by(anc, known).contains(known),
        forall|t: Token, y: Token|
            #![trigger known_by(anc, known).contains(t), anc[t].contains(y)]
            known_by(anc, known).contains(t) && anc.contains_key(t) && anc[t].contains(y) ==> known_by(anc, known).contains(y),
        !anc.contains_key(known) ==> known_by(anc, known) == set![known],
{
    let p0 = seq![known];
    assert(is_parent_path(anc, p0));
    assert(p0.last() == known);
    assert forall|t: Token, y: Token|
        #![trigger known_by(anc, known).contains(t), anc[t].contains(y)]
        known_by(anc, known).contains(t) && anc.contains_key(t) && anc[t].contains(y) implies known_by(anc, known).contains(y) by {
        let p = choose|p: Seq<Token>| is_parent_path(anc, p) && p[0] == known && #[trigger] p.last() == t;
        let q = p.push(y);
        assert forall|i: int| 0 <= i < q.len() - 1 implies anc.contains_key(#[trigger] q[i]) && anc[q[i]].contains(q[i + 1]) by {
            if i < p.len() - 1 {
                assert(q[i] == p[i] && q[i + 1] == p[i + 1]);
            } else {
                assert(q[i] == t);
            }
        }
        assert(q.last() == y);
        assert(q[0] == known);
    }
    if !anc.contains_key(known) {
        assert forall|t: Token| known_by(anc, known).contains(t) <==> t == known by {
            if known_by(anc, known).contains(t) {
                let p = choose|p: Seq<Token>| is_parent_path(anc, p) && p[0] == known && #[trigger] p.last() == t;
                if p.len() > 1 {
                    assert(anc.contains_key(p[0]));
                }
            }
        }
        assert(known_by(anc, known) =~= set![known]);
    }
}

/// Why a sync token cannot be resolved.
#[derive(Debug, PartialEq, Eq, Clone, Copy)]
pub enum ResolveError {
    /// The history the token needs has been folded into a checkpoint: a
    /// full resync is needed.
    NotEnoughHistory,
}

/// The state of a DAV collection.
pub struct DavDag {
    table: im::OrdMap<BlobId, IndexEntry>,
    idx_by_filename: im::OrdMap<FileName, BlobId>,
    ancestors: im::OrdMap<Token, im::OrdSet<Token>>,
    all_nodes: im::OrdSet<Token>,
    heads: im::OrdSet<Token>,
    origins: im::OrdSet<Token>,
    change: im::OrdMap<Token, SyncChange>,
}

/// The parents of each operation, as sets.
pub open spec fn ancestors_sets(m: Map<Token, im::OrdSet<Token>>) -> Map<Token, Set<Token>> {
    m.map_values(|s: im::OrdSet<Token>| token_set_view(s))
}

impl View for DavDag {
    type V = DagView;

    closed spec fn view(&self) -> DagView {
        DagView {
            table: blob_table_view(self.table),
            by_filename: filename_index_view(self.idx_by_filename),
            ancestors: ancestors_sets(ancestor_map_view(self.ancestors)),
            all_nodes: token_set_view(self.all_nodes),
            heads: token_set_view(self.heads),
            origins: token_set_view(self.origins),
            change: change_map_view(self.change),
        }
    }
}

/// Whether the graph is finite: finitely many operations, each with
/// finitely many parents.
pub open spec fn graph_finite(anc: Map<Token, Set<Token>>) -> bool {
    &&& anc.dom().finite()
    &&& forall|k: Token| anc.contains_key(k) ==> (#[trigger] anc[k]).finite()
}

/// Whether every index entry is stored under its own blob.
pub open spec fn table_keyed(t: Map<BlobId, IndexEntry>) -> bool {
    forall|k: BlobId| t.contains_key(k) ==> (#[trigger] t[k]).0 == k
}

/// A list of entries with strictly increasing blobs that holds exactly the
/// blobs of a table is as long as the table.
proof fn lemma_sorted_distinct_len(items: Seq<IndexEntry>, t: Map<BlobId, IndexEntry>)
    requires
        forall|i: int, j: int| 0 <= i < j < items.len() ==> ident_lt(#[trigger] items[i].0, #[trigger] items[j].0),
        forall|i: int| 0 <= i < items.len() ==> t.contains_key(#[trigger] items[i].0),
        forall|k: BlobId| t.contains_key(k) ==> exists|i: int| 0 <= i < items.len() && #[trigger] items[i].0 == k,
        t.dom().finite(),
    ensures
        items.len() == t.dom().len(),
{
    let keys = items.map_values(|e: IndexEntry| e.0);
    assert(keys.no_duplicates()) by {
        assert forall|i: int, j: int| 0 <= i < keys.len() && 0 <= j < keys.len() && i != j implies keys[i] != keys[j] by {
            if i < j {
                assert(ident_lt(items[i].0, items[j].0));
            } else {
                assert(ident_lt(items[j].0, items[i].0));
            }
        }
    }
    keys.unique_seq_to_set();
    assert forall|k: BlobId| keys.to_set().contains(k) <==> t.dom().contains(k) by {
        if t.contains_key(k) {
            let i = choose|i: int| 0 <= i < items.len() && #[trigger] items[i].0 == k;
            assert(keys[i] == k);
        }
        if keys.to_set().contains(k) {
            let i = choose|i: int| 0 <= i < keys.len() && keys[i] == k;
            assert(items[i].0 == k);
        }
    }
    assert(keys.to_set() =~= t.dom());
}

/// The table built by registering `items` in order.
pub open spec fn entries_table(items: Seq<IndexEntry>) -> Map<BlobId, IndexEntry>
    decreases items.len(),
{
    if items.len() == 0 {
        Map::empty()
    } else {
        entries_table(items.drop_last()).insert(items.last().0, items.last())
    }
}

/// The file name index built by registering `items` in order.
pub open spec fn entries_by_filename(items: Seq<IndexEntry>) -> Map<Seq<char>, BlobId>
    decreases items.len(),
{
    if items.len() == 0 {
        Map::empty()
    } else {
        entries_by_filename(items.drop_last()).insert(items.last().1@, items.last().0)
    }
}

/// The table built from a list is finite and keyed by blob.
proof fn lemma_entries_table_props(items: Seq<IndexEntry>)
    ensures
        entries_table(items).dom().finite(),
        table_keyed(entries_table(items)),
    decreases items.len(),
{
    if items.len() > 0 {
        lemma_entries_table_props(items.drop_last());
    }
}

/// Every node a walk from `known` can meet.
pub open spec fn universe(anc: Map<Token, Set<Token>>, known: Token) -> Set<Token> {
    anc.dom().union(anc.dom().map(|k: Token| anc[k]).flatten()).insert(known)
}

/// A walk from `known` stays in its universe.
proof fn lemma_universe_finite(anc: Map<Token, Set<Token>>, known: Token)
    requires
        graph_finite(anc),
    ensures
        universe(anc, known).finite(),
{
    let vals = anc.dom().map(|k: Token| anc[k]);
    anc.dom().lemma_map_finite(|k: Token| anc[k]);
    assert forall|s: Set<Token>| vals.contains(s) implies #[trigger] s.finite() by {
        let k = choose|k: Token| anc.dom().contains(k) && s == anc[k];
    }
    vals.lemma_flatten_finite();
}


/// The fields of a `DavDag` while an operation is being applied.
struct DagParts {
    table: im::OrdMap<BlobId, IndexEntry>,
    idx_by_filename: im::OrdMap<FileName, BlobId>,
    ancestors: im::OrdMap<Token, im::OrdSet<Token>>,
    all_nodes: im::OrdSet<Token>,
    heads: im::OrdSet<Token>,
    origins: im::OrdSet<Token>,
    change: im::OrdMap<Token, SyncChange>,
}

impl View for DagParts {
    type V = DagView;

    closed spec fn view(&self) -> DagView {
        DagView {
            table: blob_table_view(self.table),
            by_filename: filename_index_view(self.idx_by_filename),
            ancestors: ancestors_sets(ancestor_map_view(self.ancestors)),
            all_nodes: token_set_view(self.all_nodes),
            heads: token_set_view(self.heads),
            origins: token_set_view(self.origins),
            change: change_map_view(self.change),
        }
    }
}

/// Recording an operation keeps the graph finite.
proof fn lemma_graph_finite_insert(anc: Map<Token, Set<Token>>, child: Token, parents: Seq<Token>)
    requires
        graph_finite(anc),
    ensures
        graph_finite(anc.insert(child, parents.to_set())),
{
    vstd::seq_lib::seq_to_set_is_finite(parents);
}

impl DagParts {

    /// Records an operation in the synchronization graph.
    fn sync_dag(&mut self, sync_desc: &SyncDesc)
        ensures
            final(self)@ == view_sync_dag(old(self)@, sync_desc.0@, sync_desc.1),
    {
        let parents = &sync_desc.0;
        let child = sync_desc.1;

        // Ancestors of the child
        let mut pset = token_set_new();
        let mut i: usize = 0;
        while i < parents.len()
            invariant
                i <= parents@.len(),
                token_set_view(pset) == parents@.take(i as int).to_set(),
                token_set_view(pset).finite(),
                self@ == old(self)@,
            decreases parents@.len() - i,
        {
            token_set_insert(&mut pset, parents[i]);
            proof {
                assert(parents@.take(i + 1) == parents@.take(i as int).push(parents@[i as int]));
                parents@.take(i as int).lemma_push_to_set_commute(parents@[i as int]);
            }
            i = i + 1;
        }
        proof {
            assert(parents@.take(parents@.len() as int) == parents@);
        }
        let ghost anc0 = ancestor_map_view(self.ancestors);
        ancestor_map_insert(&mut self.ancestors, child, pset);
        proof {
            assert(ancestors_sets(anc0.insert(child, pset)) =~= ancestors_sets(anc0).insert(child, token_set_view(pset)));
        }

        // Origins
        if parents.len() == 0 {
            token_set_insert(&mut self.origins, child);
        }

        // Heads: the parents are replaced by the child
        let ghost heads0 = token_set_view(self.heads);
        let mut j: usize = 0;
        while j < parents.len()
            invariant
                j <= parents@.len(),
                token_set_view(self.heads) == heads0.difference(parents@.take(j as int).to_set()),
                self@.ancestors == old(self)@.ancestors.insert(child, parents@.to_set()),
                self@.origins == (if parents@.len() == 0 { old(self)@.origins.insert(child) } else { old(self)@.origins }),
                self@.all_nodes == old(self)@.all_nodes,
                self@.table == old(self)@.table,
                self@.by_filename == old(self)@.by_filename,
                self@.change == old(self)@.change,
            decreases parents@.len() - j,
        {
            token_set_remove(&mut self.heads, &parents[j]);
            proof {
                assert(parents@.take(j + 1) == parents@.take(j as int).push(parents@[j as int]));
                parents@.take(j as int).lemma_push_to_set_commute(parents@[j as int]);
                assert(heads0.difference(parents@.take(j as int).to_set()).remove(parents@[j as int]) =~= heads0.difference(
                    parents@.take(j + 1).to_set(),
                ));
            }
            j = j + 1;
        }
        token_set_insert(&mut self.heads, child);

        // All nodes
        token_set_insert(&mut self.all_nodes, child);
    }

    /// Registers a file, noting the change at `sync_token` if given.
    fn register(&mut self, sync_token: Option<Token>, entry: IndexEntry)
        ensures
            final(self)@ == view_register(old(self)@, sync_token, entry),
    {
        let blob_id = entry.0;
        let filename = entry.1.clone();
        blob_table_insert(&mut self.table, blob_id, entry);
        filename_index_insert(&mut self.idx_by_filename, filename.clone(), blob_id);
        if let Some(t) = sync_token {
            change_map_insert(&mut self.change, t, SyncChange::Found(filename));
        }
    }

    /// Unregisters a file, noting the change at `sync_token`; an unknown
    /// blob changes nothing.
    fn unregister(&mut self, sync_token: Token, blob_id: &BlobId)
        ensures
            final(self)@ == view_unregister(old(self)@, sync_token, *blob_id),
    {
        let filename = match blob_table_get(&self.table, blob_id) {
            Some(v) => v.1.clone(),
            None => return,
        };
        filename_index_remove(&mut self.idx_by_filename, &filename);
        change_map_insert(&mut self.change, sync_token, SyncChange::NotFound(filename));
        blob_table_remove(&mut self.table, blob_id);
    }

}

/// A set closed under parents holds every node of a walk that starts in it.
proof fn lemma_path_in_closed(anc: Map<Token, Set<Token>>, k: Set<Token>, p: Seq<Token>)
    requires
        is_parent_path(anc, p),
        k.contains(p[0]),
        forall|x: Token, y: Token| k.contains(x) && anc.contains_key(x) && #[trigger] anc[x].contains(y) ==> k.contains(y),
    ensures
        k.contains(p.last()),
    decreases p.len(),
{
    if p.len() > 1 {
        let q = p.drop_last();
        assert(is_parent_path(anc, q)) by {
            assert forall|i: int| 0 <= i < q.len() - 1 implies anc.contains_key(#[trigger] q[i]) && anc[q[i]].contains(q[i + 1]) by {
                assert(q[i] == p[i] && q[i + 1] == p[i + 1]);
            }
        }
        lemma_path_in_closed(anc, k, q);
        assert(q.last() == p[p.len() - 2]);
        assert(anc.contains_key(p[p.len() - 2]) && anc[p[p.len() - 2]].contains(p[p.len() - 1]));
    }
}

impl DavDag {
    #[verifier::type_invariant]
    closed spec fn inv(&self) -> bool {
        &&& graph_finite(self@.ancestors)
        &&& table_keyed(self@.table)
        &&& self@.table.dom().finite()
    }

    /// The empty collection.
    pub fn new() -> (r: Self)
        ensures
            r@ == empty_view(),
    {
        let ancestors = ancestor_map_new();
        proof {
            assert(ancestors_sets(ancestor_map_view(ancestors)).dom() =~= Set::<Token>::empty());
            assert(Map::<BlobId, IndexEntry>::empty().dom() =~= Set::<BlobId>::empty());
        }
        let r = DavDag {
            table: blob_table_new(),
            idx_by_filename: filename_index_new(),
            ancestors,
            all_nodes: token_set_new(),
            heads: token_set_new(),
            origins: token_set_new(),
            change: change_map_new(),
        };
        proof {
            assert(r@.table =~= Map::<BlobId, IndexEntry>::empty());
            assert(r@.by_filename =~= Map::<Seq<char>, BlobId>::empty());
            assert(r@.ancestors =~= Map::<Token, Set<Token>>::empty());
            assert(r@.change =~= Map::<Token, SyncChange>::empty());
        }
        r
    }

    /// A copy of the state.
    pub fn clone(&self) -> (r: Self)
        ensures
            r@ == self@,
    {
        proof {
            use_type_invariant(self);
        }
        DavDag {
            table: blob_table_clone(&self.table),
            idx_by_filename: filename_index_clone(&self.idx_by_filename),
            ancestors: ancestor_map_clone(&self.ancestors),
            all_nodes: token_set_clone(&self.all_nodes),
            heads: token_set_clone(&self.heads),
            origins: token_set_clone(&self.origins),
            change: change_map_clone(&self.change),
        }
    }

    /// The number of files.
    pub fn table_len(&self) -> (r: usize)
        ensures
            r == self@.table.dom().len(),
    {
        blob_table_len(&self.table)
    }

    /// Whether the collection holds a file with this blob.
    pub fn table_contains(&self, blob_id: &BlobId) -> (r: bool)
        ensures
            r == self@.table.contains_key(*blob_id),
    {
        blob_table_get(&self.table, blob_id).is_some()
    }

    /// The index entry of a blob.
    pub fn table_get(&self, blob_id: &BlobId) -> (r: Option<IndexEntry>)
        ensures
            match r {
                Some(e) => self@.table.contains_key(*blob_id) && e == self@.table[*blob_id],
                None => !self@.table.contains_key(*blob_id),
            },
    {
        match blob_table_get(&self.table, blob_id) {
            Some(e) => Some((e.0, e.1.clone(), e.2.clone())),
            None => None,
        }
    }

    /// The blob a file name points to.
    pub fn blob_of(&self, filename: &FileName) -> (r: Option<BlobId>)
        ensures
            match r {
                Some(b) => self@.by_filename.contains_key(filename@) && b == self@.by_filename[filename@],
                None => !self@.by_filename.contains_key(filename@),
            },
    {
        filename_index_get(&self.idx_by_filename, filename)
    }

    /// The index entries of all files, by increasing blob.
    pub fn entries(&self) -> (r: Vec<(BlobId, IndexEntry)>)
        ensures
            forall|i: int, j: int| 0 <= i < j < r@.len() ==> ident_lt(#[trigger] r@[i].0, #[trigger] r@[j].0),
            forall|i: int| 0 <= i < r@.len() ==> self@.table.contains_key(#[trigger] r@[i].0)
                && self@.table[r@[i].0] == r@[i].1,
            forall|k: BlobId| self@.table.contains_key(k) ==> exists|i: int| 0 <= i < r@.len() && #[trigger] r@[i].0 == k,
    {
        blob_table_to_vec(&self.table)
    }

    /// The change recorded at a token.
    pub fn change_at(&self, token: &Token) -> (r: Option<SyncChange>)
        ensures
            match r {
                Some(c) => self@.change.contains_key(*token) && c == self@.change[*token],
                None => !self@.change.contains_key(*token),
            },
    {
        match change_map_get(&self.change, token) {
            Some(c) => Some(copy_change(c)),
            None => None,
        }
    }

    /// Whether a token is known.
    pub fn knows(&self, token: &Token) -> (r: bool)
        ensures
            r == self@.all_nodes.contains(*token),
    {
        token_set_contains(&self.all_nodes, token)
    }

    /// The heads, in increasing order.
    pub fn heads_vec(&self) -> (r: Vec<Token>)
        ensures
            forall|i: int, j: int| 0 <= i < j < r@.len() ==> ident_lt(#[trigger] r@[i], #[trigger] r@[j]),
            forall|a: Token| r@.contains(a) <==> self@.heads.contains(a),
    {
        token_set_to_vec(&self.heads)
    }


    // ---- Resolving sync tokens ----

    /// Every operation `known` knows of: itself and its ancestors in the graph.
    fn all_ancestors(&self, known: Token) -> (r: im::OrdSet<Token>)
        ensures
            token_set_view(r) == known_by(self@.ancestors, known),
    {
        proof {
            use_type_invariant(self);
        }
        let ghost anc = self@.ancestors;
        let ghost u = universe(anc, known);
        proof {
            lemma_universe_finite(anc, known);
            assert(is_parent_path(anc, seq![known]));
            assert(seq![known].last() == known);
        }
        let mut all_known = token_set_new();
        let mut to_collect: Vec<Token> = Vec::new();
        to_collect.push(known);
        while to_collect.len() > 0
            invariant
                anc == self@.ancestors,
                graph_finite(anc),
                u == universe(anc, known),
                u.finite(),
                token_set_view(all_known).subset_of(u),
                forall|i: int| 0 <= i < to_collect@.len() ==> u.contains(#[trigger] to_collect@[i]),
                forall|x: Token| token_set_view(all_known).contains(x) ==> reachable(anc, known, x),
                forall|i: int| 0 <= i < to_collect@.len() ==> reachable(anc, known, #[trigger] to_collect@[i]),
                token_set_view(all_known).contains(known) || to_collect@.contains(known),
                forall|x: Token, y: Token|
                    token_set_view(all_known).contains(x) && anc.contains_key(x) && #[trigger] anc[x].contains(y)
                        ==> token_set_view(all_known).contains(y) || to_collect@.contains(y),
            decreases u.difference(token_set_view(all_known)).len(), to_collect@.len(),
        {
            let ghost k0 = token_set_view(all_known);
            let ghost t0 = to_collect@;
            let cursor = to_collect.pop().unwrap();
            proof {
                assert(t0 == to_collect@.push(cursor));
                assert forall|y: Token| t0.contains(y) && y != cursor implies to_collect@.contains(y) by {
                    let i = choose|i: int| 0 <= i < t0.len() && t0[i] == y;
                    assert(i < to_collect@.len());
                    assert(to_collect@[i] == y);
                }
                assert(u.contains(t0[t0.len() - 1]));
                assert(reachable(anc, known, t0[t0.len() - 1]));
            }
            if token_set_insert(&mut all_known, cursor).is_some() {
                proof {
                    assert(token_set_view(all_known) =~= k0);
                }
                continue;
            }
            proof {
                u.lemma_set_insert_diff_decreases(k0, cursor);
            }
            match ancestor_map_get(&self.ancestors, &cursor) {
                None => {},
                Some(parents) => {
                    let pv = token_set_to_vec(parents);
                    let ghost pset = token_set_view(*parents);
                    proof {
                        assert(pset == anc[cursor]);
                        let vals = anc.dom().map(|k: Token| anc[k]);
                        assert(anc.dom().contains(cursor));
                        assert(vals.contains(anc[cursor])) by {
                            broadcast use vstd::set::group_set_axioms;
                        }
                        assert forall|y: Token| pset.contains(y) implies u.contains(y) by {
                            assert(vals.contains(anc[cursor]) && anc[cursor].contains(y));
                            assert(vals.flatten().contains(y));
                        }
                        let p = choose|p: Seq<Token>| is_parent_path(anc, p) && p[0] == known && #[trigger] p.last() == cursor;
                        assert forall|y: Token| pset.contains(y) implies reachable(anc, known, y) by {
                            let q = p.push(y);
                            assert(q.last() == y);
                            assert forall|i: int| 0 <= i < q.len() - 1 implies anc.contains_key(#[trigger] q[i]) && anc[q[i]].contains(q[i + 1]) by {
                                if i < p.len() - 1 {
                                    assert(q[i] == p[i] && q[i + 1] == p[i + 1]);
                                } else {
                                    assert(q[i] == cursor);
                                }
                            }
                        }
                    }
                    let ghost before = to_collect@;
                    let mut j: usize = 0;
                    while j < pv.len()
                        invariant
                            j <= pv@.len(),
                            to_collect@ == before + pv@.take(j as int),
                            forall|a: Token| pv@.contains(a) <==> pset.contains(a),
                        decreases pv@.len() - j,
                    {
                        to_collect.push(pv[j]);
                        proof {
                            assert(pv@.take(j + 1) == pv@.take(j as int).push(pv@[j as int]));
                        }
                        j = j + 1;
                    }
                    proof {
                        assert(pv@.take(pv@.len() as int) == pv@);
                        assert forall|y: Token| pset.contains(y) implies to_collect@.contains(y) by {
                            let i = choose|i: int| 0 <= i < pv@.len() && pv@[i] == y;
                            assert(to_collect@[before.len() + i] == y);
                        }
                        assert forall|i: int| 0 <= i < to_collect@.len() implies u.contains(#[trigger] to_collect@[i]) && reachable(anc, known, to_collect@[i]) by {
                            if i < before.len() {
                                assert(to_collect@[i] == before[i]);
                                assert(t0[i] == before[i]);
                            } else {
                                assert(to_collect@[i] == pv@[i - before.len()]);
                                assert(pv@.contains(pv@[i - before.len()]));
                            }
                        }
                        assert forall|y: Token| before.contains(y) implies to_collect@.contains(y) by {
                            let i = choose|i: int| 0 <= i < before.len() && before[i] == y;
                            assert(to_collect@[i] == y);
                        }
                    }
                },
            }
            proof {
                assert forall|i: int| 0 <= i < to_collect@.len() implies u.contains(#[trigger] to_collect@[i]) && reachable(anc, known, to_collect@[i]) by {
                    if !anc.contains_key(cursor) {
                        assert(to_collect@[i] == t0[i]);
                    }
                }
            }
        }
        proof {
            let kk = token_set_view(all_known);
            assert forall|t: Token| known_by(anc, known).contains(t) implies kk.contains(t) by {
                let p = choose|p: Seq<Token>| is_parent_path(anc, p) && p[0] == known && #[trigger] p.last() == t;
                lemma_path_in_closed(anc, kk, p);
            }
            assert(kk =~= known_by(anc, known));
        }
        all_known
    }

    /// Resolves a sync token: the operations the holder of `known` has not
    /// seen. Refused when `known` does not reach every origin of the graph,
    /// as happens once the history it needs is folded into a checkpoint.
    pub fn resolve(&self, known: Token) -> (r: Result<im::OrdSet<Token>, ResolveError>)
        ensures
            match r {
                Err(e) => e == ResolveError::NotEnoughHistory && !self@.origins.subset_of(
                    known_by(self@.ancestors, known),
                ),
                Ok(s) => self@.origins.subset_of(known_by(self@.ancestors, known)) && token_set_view(s)
                    == self@.all_nodes.difference(known_by(self@.ancestors, known)),
            },
    {
        let already_known = self.all_ancestors(known);
        if !token_set_is_subset(&self.origins, &already_known) {
            return Err(ResolveError::NotEnoughHistory);
        }
        Ok(token_set_relative_complement(token_set_clone(&self.all_nodes), already_known))
    }


    /// The checkpointed form of the state: the index entries by increasing
    /// blob, and the heads by increasing token. The rest of the graph is
    /// not kept.
    pub fn to_checkpoint(&self) -> (r: (Vec<IndexEntry>, Vec<Token>))
        ensures
            r.0@.len() == self@.table.dom().len(),
            forall|i: int, j: int| 0 <= i < j < r.0@.len() ==> ident_lt(#[trigger] r.0@[i].0, #[trigger] r.0@[j].0),
            forall|i: int| 0 <= i < r.0@.len() ==> self@.table.contains_key(#[trigger] r.0@[i].0)
                && self@.table[r.0@[i].0] == r.0@[i],
            forall|k: BlobId| self@.table.contains_key(k) ==> exists|i: int| 0 <= i < r.0@.len() && #[trigger] r.0@[i].0 == k,
            forall|i: int, j: int| 0 <= i < j < r.1@.len() ==> ident_lt(#[trigger] r.1@[i], #[trigger] r.1@[j]),
            forall|a: Token| r.1@.contains(a) <==> self@.heads.contains(a),
    {
        proof {
            use_type_invariant(self);
        }
        let pairs = blob_table_to_vec(&self.table);
        let mut items: Vec<IndexEntry> = Vec::new();
        let mut i: usize = 0;
        while i < pairs.len()
            invariant
                i <= pairs@.len(),
                items@.len() == i,
                forall|j: int| 0 <= j < i ==> #[trigger] items@[j] == pairs@[j].1,
            decreases pairs@.len() - i,
        {
            let e = &pairs[i].1;
            items.push((e.0, e.1.clone(), e.2.clone()));
            i = i + 1;
        }
        let heads = self.heads_vec();
        proof {
            // entries are keyed by their own blob, and each blob occurs once
            assert forall|j: int| 0 <= j < items@.len() implies (#[trigger] items@[j]).0 == pairs@[j].0 by {
                assert(self@.table.contains_key(pairs@[j].0));
            }
            assert forall|a: int, b: int| 0 <= a < b < items@.len() implies ident_lt(#[trigger] items@[a].0, #[trigger] items@[b].0) by {
                assert(items@[a].0 == pairs@[a].0);
                assert(items@[b].0 == pairs@[b].0);
            }
            assert forall|j: int| 0 <= j < items@.len() implies self@.table.contains_key(#[trigger] items@[j].0) && self@.table[items@[j].0] == items@[j] by {
                assert(items@[j].0 == pairs@[j].0);
            }
            assert forall|k: BlobId| self@.table.contains_key(k) implies exists|j: int| 0 <= j < items@.len() && #[trigger] items@[j].0 == k by {
                let j = choose|j: int| 0 <= j < pairs@.len() && #[trigger] pairs@[j].0 == k;
                assert(items@[j].0 == pairs@[j].0);
            }
            lemma_sorted_distinct_len(items@, self@.table);
        }
        (items, heads)
    }


    /// Rebuilds a state from its checkpointed form: every entry registered
    /// in order, without change records; the heads become the only known
    /// operations, each an origin of the graph.
    pub fn from_checkpoint(items: Vec<IndexEntry>, heads: Vec<Token>) -> (r: Self)
        ensures
            r@.table == entries_table(items@),
            r@.by_filename == entries_by_filename(items@),
            r@.change == Map::<Token, SyncChange>::empty(),
            r@.ancestors == Map::<Token, Set<Token>>::empty(),
            r@.heads == heads@.to_set(),
            r@.origins == heads@.to_set(),
            r@.all_nodes == heads@.to_set(),
    {
        let mut p = DagParts {
            table: blob_table_new(),
            idx_by_filename: filename_index_new(),
            ancestors: ancestor_map_new(),
            all_nodes: token_set_new(),
            heads: token_set_new(),
            origins: token_set_new(),
            change: change_map_new(),
        };
        proof {
            assert(p@.table =~= entries_table(items@.take(0)));
            assert(p@.by_filename =~= entries_by_filename(items@.take(0)));
            assert(p@.change =~= Map::<Token, SyncChange>::empty());
            assert(p@.ancestors =~= Map::<Token, Set<Token>>::empty());
        }
        let mut i: usize = 0;
        while i < items.len()
            invariant
                i <= items@.len(),
                p@.table == entries_table(items@.take(i as int)),
                p@.by_filename == entries_by_filename(items@.take(i as int)),
                p@.change == Map::<Token, SyncChange>::empty(),
                p@.ancestors == Map::<Token, Set<Token>>::empty(),
                p@.heads == Set::<Token>::empty(),
                p@.origins == Set::<Token>::empty(),
                p@.all_nodes == Set::<Token>::empty(),
            decreases items@.len() - i,
        {
            let e = &items[i];
            p.register(None, (e.0, e.1.clone(), e.2.clone()));
            proof {
                assert(items@.take(i + 1).drop_last() == items@.take(i as int));
            }
            i = i + 1;
        }
        proof {
            assert(items@.take(items@.len() as int) == items@);
        }
        let mut j: usize = 0;
        while j < heads.len()
            invariant
                j <= heads@.len(),
                p@.table == entries_table(items@),
                p@.by_filename == entries_by_filename(items@),
                p@.change == Map::<Token, SyncChange>::empty(),
                p@.ancestors == Map::<Token, Set<Token>>::empty(),
                p@.heads == heads@.take(j as int).to_set(),
                p@.origins == heads@.take(j as int).to_set(),
                p@.all_nodes == heads@.take(j as int).to_set(),
            decreases heads@.len() - j,
        {
            token_set_insert(&mut p.heads, heads[j]);
            token_set_insert(&mut p.origins, heads[j]);
            token_set_insert(&mut p.all_nodes, heads[j]);
            proof {
                assert(heads@.take(j + 1) == heads@.take(j as int).push(heads@[j as int]));
                heads@.take(j as int).lemma_push_to_set_commute(heads@[j as int]);
            }
            j = j + 1;
        }
        proof {
            assert(heads@.take(heads@.len() as int) == heads@);
            lemma_entries_table_props(items@);
        }
        DavDag {
            table: p.table,
            idx_by_filename: p.idx_by_filename,
            ancestors: p.ancestors,
            all_nodes: p.all_nodes,
            heads: p.heads,
            origins: p.origins,
            change: p.change,
        }
    }

    /// A sync descriptor with the given token: the current heads as parents.
    pub fn sync_desc_with(&self, token: Token) -> (r: SyncDesc)
        ensures
            r.1 == token,
            forall|i: int, j: int| 0 <= i < j < r.0@.len() ==> ident_lt(#[trigger] r.0@[i], #[trigger] r.0@[j]),
            r.0@.to_set() == self@.heads,
    {
        let heads = self.heads_vec();
        proof {
            assert(heads@.to_set() =~= self@.heads);
        }
        (heads, token)
    }

    /// A sync descriptor with a fresh token.
    pub fn sync_desc(&self) -> (r: SyncDesc)
        ensures
            r.0@.to_set() == self@.heads,
    {
        self.sync_desc_with(gen_ident())
    }

    /// A merge operation on top of the current heads.
    pub fn op_merge(&self) -> (r: DavDagOp)
        ensures
            r is Merge,
            op_desc(r).0.to_set() == self@.heads,
    {
        DavDagOp::Merge(self.sync_desc())
    }

    /// An operation that adds `entry`, on top of the current heads.
    pub fn op_put(&self, entry: IndexEntry) -> (r: DavDagOp)
        ensures
            r matches DavDagOp::Put(_, e) && e == entry,
            op_desc(r).0.to_set() == self@.heads,
    {
        DavDagOp::Put(self.sync_desc(), entry)
    }

    /// An operation that deletes `blob_id`, on top of the current heads.
    pub fn op_delete(&self, blob_id: BlobId) -> (r: DavDagOp)
        ensures
            r matches DavDagOp::Delete(_, b) && b == blob_id,
            op_desc(r).0.to_set() == self@.heads,
    {
        DavDagOp::Delete(self.sync_desc(), blob_id)
    }
}

} // verus!

verus! {

/// The table built from a list of entries with distinct blobs holds
/// exactly those entries.
proof fn lemma_entries_table_lookup(items: Seq<IndexEntry>)
    requires
        forall|i: int, j: int| 0 <= i < j < items.len() ==> ident_lt(#[trigger] items[i].0, #[trigger] items[j].0),
    ensures
        forall|k: BlobId| entries_table(items).contains_key(k) <==> exists|i: int| 0 <= i < items.len() && #[trigger] items[i].0 == k,
        forall|i: int| 0 <= i < items.len() ==> entries_table(items)[(#[trigger] items[i]).0] == items[i],
    decreases items.len(),
{
    if items.len() > 0 {
        let rest = items.drop_last();
        lemma_entries_table_lookup(rest);
        assert forall|k: BlobId| entries_table(items).contains_key(k) <==> exists|i: int| 0 <= i < items.len() && #[trigger] items[i].0 == k by {
            if entries_table(rest).contains_key(k) {
                let i = choose|i: int| 0 <= i < rest.len() && #[trigger] rest[i].0 == k;
                assert(items[i].0 == k);
            }
            if exists|i: int| 0 <= i < items.len() && #[trigger] items[i].0 == k {
                let i = choose|i: int| 0 <= i < items.len() && #[trigger] items[i].0 == k;
                if i < items.len() - 1 {
                    assert(rest[i].0 == k);
                }
            }
        }
        assert forall|i: int| 0 <= i < items.len() implies entries_table(items)[(#[trigger] items[i]).0] == items[i] by {
            if i < items.len() - 1 {
                assert(rest[i] == items[i]);
                assert(ident_lt(items[i].0, items[items.len() - 1].0));
            }
        }
    }
}

/// A checkpoint loses no file and no head: rebuilding a state from the
/// entries and heads that `to_checkpoint` lists gives back the same table
/// and the same heads.
pub proof fn law_checkpoint_keeps_files_and_heads(v: DagView, items: Seq<IndexEntry>, heads: Seq<Token>)
    requires
        forall|i: int, j: int| 0 <= i < j < items.len() ==> ident_lt(#[trigger] items[i].0, #[trigger] items[j].0),
        forall|i: int| 0 <= i < items.len() ==> v.table.contains_key(#[trigger] items[i].0) && v.table[items[i].0]
            == items[i],
        forall|k: BlobId| v.table.contains_key(k) ==> exists|i: int| 0 <= i < items.len() && #[trigger] items[i].0 == k,
        forall|a: Token| heads.contains(a) <==> v.heads.contains(a),
    ensures
        entries_table(items) == v.table,
        heads.to_set() == v.heads,
{
    lemma_entries_table_lookup(items);
    assert forall|k: BlobId| entries_table(items).contains_key(k) implies entries_table(items)[k] == v.table[k] by {
        let i = choose|i: int| 0 <= i < items.len() && #[trigger] items[i].0 == k;
    }
    assert(entries_table(items) =~= v.table);
    assert(heads.to_set() =~= v.heads);
}

} // verus!

verus! {

impl BayouState for DavDag {
    type Op = DavDagOp;

    type Model = DagView;

    open spec fn model(&self) -> DagView {
        self@
    }

    open spec fn initial_model() -> DagView {
        empty_view()
    }

    open spec fn step(m: DagView, op: DavDagOp) -> DagView {
        view_apply(m, op)
    }

    open spec fn accepts(m: DagView, op: DavDagOp) -> bool {
        true
    }

    fn initial() -> (r: Self) {
        DavDag::new()
    }

    fn duplicate(&self) -> (r: Self) {
        DavDag::clone(self)
    }

    /// Every operation applies.
    fn accepts_op(&self, op: &DavDagOp) -> (r: bool) {
        true
    }

    /// The state after `op`: the operation enters the graph, then its file
    /// is registered or unregistered.
    fn apply(&self, op: &DavDagOp) -> (r: Self)
    {
        proof {
            use_type_invariant(self);
        }
        let mut new = DagParts {
            table: blob_table_clone(&self.table),
            idx_by_filename: filename_index_clone(&self.idx_by_filename),
            ancestors: ancestor_map_clone(&self.ancestors),
            all_nodes: token_set_clone(&self.all_nodes),
            heads: token_set_clone(&self.heads),
            origins: token_set_clone(&self.origins),
            change: change_map_clone(&self.change),
        };
        match op {
            DavDagOp::Put(sync_desc, entry) => {
                new.sync_dag(sync_desc);
                new.register(Some(sync_desc.1), (entry.0, entry.1.clone(), entry.2.clone()));
                proof { lemma_graph_finite_insert(self@.ancestors, sync_desc.1, sync_desc.0@); }
            },
            DavDagOp::Delete(sync_desc, blob_id) => {
                new.sync_dag(sync_desc);
                new.unregister(sync_desc.1, blob_id);
                proof { lemma_graph_finite_insert(self@.ancestors, sync_desc.1, sync_desc.0@); }
            },
            DavDagOp::Merge(sync_desc) => {
                new.sync_dag(sync_desc);
                proof { lemma_graph_finite_insert(self@.ancestors, sync_desc.1, sync_desc.0@); }
            },
        }
        proof {
            assert(table_keyed(new@.table));
            assert(new@.table.dom().finite());
        }
        DavDag {
            table: new.table,
            idx_by_filename: new.idx_by_filename,
            ancestors: new.ancestors,
            all_nodes: new.all_nodes,
            heads: new.heads,
            origins: new.origins,
            change: new.change,
        }
    }
}

impl Default for DavDag {
    /// The empty collection.
    fn default() -> (r: Self)
        ensures
            r@ == empty_view(),
    {
        DavDag::new()
    }
}

} // verus!
