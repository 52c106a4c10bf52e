//! The mutable part of a mailbox: which emails it holds under which IMAP
//! UID, modification sequence, sequence number and flags. It is built by
//! replaying the mailbox's operation log.
use vstd::prelude::*;

use super::flags::Flags;
use super::mail_collections::{
    flag_map_clone, flag_map_get, flag_map_insert, flag_map_keys, flag_map_new, flag_map_remove, flag_map_view,
    ident_vector_clone, ident_vector_get, ident_vector_len, ident_vector_new, ident_vector_push_back,
    ident_vector_remove, ident_vector_view, mail_table_clone, mail_table_get, mail_table_insert, mail_table_keys,
    mail_table_len, mail_table_new, mail_table_remove, mail_table_view, modseq_index_clone, modseq_index_get,
    modseq_index_insert, modseq_index_new, modseq_index_remove, modseq_index_view, seqid_of_clone, seqid_of_get,
    seqid_of_insert, seqid_of_new, seqid_of_remove, seqid_of_view, uid_index_clone, uid_index_get,
    uid_index_get_max, uid_index_insert, uid_index_new, uid_index_remove, uid_index_view, uid_set_clone,
    uid_set_insert, uid_set_is_empty, uid_set_new, uid_set_remove, uid_set_to_vec, uid_set_view, MailEntry,
};
use super::unique_ident::UniqueIdent;
use crate::bayou::history::BayouState;

verus! {

/// A modification sequence (RFC 4551), never 0.
pub type ModSeq = u64;
/// A message sequence number, never 0.
pub type ImapSeqid = u32;
/// A message UID, never 0.
pub type ImapUid = u32;
/// The UIDVALIDITY of a mailbox, never 0.
pub type ImapUidvalidity = u32;
/// The count of MailAdd operations.
pub type InternalSeq = u32;
/// The count of MailAdd and flag operations.
pub type InternalModSeq = u64;

/// An operation of the mailbox log.
#[derive(Debug)]
pub enum UidIndexOp {
    /// Adds an email, with the counters the writer saw and its flags.
    MailAdd(UniqueIdent, InternalSeq, InternalModSeq, Flags),
    /// Deletes an email.
    MailDel(UniqueIdent),
    /// Adds flags to an email.
    FlagAdd(UniqueIdent, InternalModSeq, Flags),
    /// Removes flags from an email.
    FlagDel(UniqueIdent, InternalModSeq, Flags),
    /// Replaces the flags of an email.
    FlagSet(UniqueIdent, InternalModSeq, Flags),
}

// ---------------- The mathematical model ----------------

/// An email as the model sees it: UID, modification sequence, flag names.
pub type MailView = (u32, u64, Set<Seq<char>>);

/// The index as maps, sets and sequences.
pub struct UidView {
    pub table: Map<UniqueIdent, MailView>,
    pub by_uid: Map<u32, UniqueIdent>,
    pub by_modseq: Map<u64, UniqueIdent>,
    pub by_flag: Map<Seq<char>, Set<u32>>,
    pub by_seqid: Seq<UniqueIdent>,
    pub seqid_of: Map<UniqueIdent, u32>,
    pub uidvalidity: u32,
    pub internalseq: u32,
    pub internalmodseq: u64,
}

/// The flag index after `uid` gains `flags`.
pub open spec fn flag_insert(m: Map<Seq<char>, Set<u32>>, uid: u32, flags: Set<Seq<char>>) -> Map<Seq<char>, Set<u32>> {
    Map::new(
        |f: Seq<char>| m.contains_key(f) || flags.contains(f),
        |f: Seq<char>|
            if flags.contains(f) {
                (if m.contains_key(f) { m[f] } else { Set::empty() }).insert(uid)
            } else {
                m[f]
            },
    )
}

/// The flag index after `uid` loses `flags`; a flag left with no UID is dropped.
pub open spec fn flag_remove(m: Map<Seq<char>, Set<u32>>, uid: u32, flags: Set<Seq<char>>) -> Map<Seq<char>, Set<u32>> {
    Map::new(
        |f: Seq<char>| m.contains_key(f) && !(flags.contains(f) && m[f].remove(uid) == Set::<u32>::empty()),
        |f: Seq<char>|
            if flags.contains(f) {
                m[f].remove(uid)
            } else {
                m[f]
            },
    )
}

/// Numbers the emails at positions `from - 1 .. to - 1` of `s` with their
/// sequence numbers `from .. to`, in increasing order.
pub open spec fn renumber(m: Map<UniqueIdent, u32>, s: Seq<UniqueIdent>, from: int, to: int) -> Map<UniqueIdent, u32>
    decreases to - from,
{
    if from >= to {
        m
    } else {
        renumber(m.insert(s[from - 1], from as u32), s, from + 1, to)
    }
}

/// Registers an email in the table and every index.
pub open spec fn view_reg_email(v: UidView, ident: UniqueIdent, uid: u32, modseq: u64, flags: Set<Seq<char>>) -> UidView {
    UidView {
        table: v.table.insert(ident, (uid, modseq, flags)),
        by_uid: v.by_uid.insert(uid, ident),
        by_flag: flag_insert(v.by_flag, uid, flags),
        by_modseq: v.by_modseq.insert(modseq, ident),
        seqid_of: v.seqid_of.insert(ident, (v.by_seqid.len() + 1) as u32),
        by_seqid: v.by_seqid.push(ident),
        ..v
    }
}

/// Unregisters an email from the table and every index, renumbering the
/// emails after it; an unknown email changes nothing.
pub open spec fn view_unreg_email(v: UidView, ident: UniqueIdent) -> UidView {
    if v.table.contains_key(ident) {
        let (uid, modseq, flags) = v.table[ident];
        let seqid = v.seqid_of[ident];
        let seq2 = v.by_seqid.remove(seqid - 1);
        UidView {
            table: v.table.remove(ident),
            by_uid: v.by_uid.remove(uid),
            by_flag: flag_remove(v.by_flag, uid, flags),
            by_modseq: v.by_modseq.remove(modseq),
            by_seqid: seq2,
            seqid_of: renumber(v.seqid_of.remove(ident), seq2, seqid as int, (seq2.len() + 1) as int),
            ..v
        }
    } else {
        v
    }
}

/// The UIDVALIDITY after a writer that saw older counters: raised by the
/// number of operations it could not have seen.
pub open spec fn bumped_validity(v: UidView, iseq: u32, imodseq: u64) -> u32 {
    if iseq < v.internalseq || imodseq < v.internalmodseq {
        (v.uidvalidity + (v.internalseq - iseq) + ((v.internalmodseq - imodseq) as u32)) as u32
    } else {
        v.uidvalidity
    }
}

/// The UIDVALIDITY after a flag writer that saw an older counter.
pub open spec fn bumped_validity_flags(v: UidView, imodseq: u64) -> u32 {
    if imodseq < v.internalmodseq {
        (v.uidvalidity + ((v.internalmodseq - imodseq) as u32)) as u32
    } else {
        v.uidvalidity
    }
}

/// The model after a flag change of a known email: new modification
/// sequence, new flags, index updated.
pub open spec fn view_flag_change(
    v: UidView,
    ident: UniqueIdent,
    imodseq: u64,
    new_flags: Set<Seq<char>>,
    by_flag: Map<Seq<char>, Set<u32>>,
) -> UidView {
    let (uid, email_modseq, _) = v.table[ident];
    let modseq = (v.internalmodseq + 2) as u64;
    UidView {
        uidvalidity: bumped_validity_flags(v, imodseq),
        internalmodseq: (v.internalmodseq + 1) as u64,
        by_flag: by_flag,
        by_modseq: v.by_modseq.remove(email_modseq).insert(modseq, ident),
        table: v.table.insert(ident, (uid, modseq, new_flags)),
        ..v
    }
}

/// The model after an operation.
pub open spec fn view_apply(v: UidView, op: UidIndexOp) -> UidView {
    match op {
        UidIndexOp::MailAdd(ident, iseq, imodseq, flags) => {
            let v1 = UidView {
                uidvalidity: bumped_validity(v, iseq, imodseq),
                internalseq: (v.internalseq + 1) as u32,
                internalmodseq: (v.internalmodseq + 1) as u64,
                ..v
            };
            view_reg_email(v1, ident, (v.internalseq + 1) as u32, (v.internalmodseq + 2) as u64, flags@)
        },
        UidIndexOp::MailDel(ident) => view_unreg_email(v, ident),
        UidIndexOp::FlagAdd(ident, imodseq, flags) => {
            if v.table.contains_key(ident) {
                let (uid, _, existing) = v.table[ident];
                view_flag_change(v, ident, imodseq, existing.union(flags@), flag_insert(v.by_flag, uid, flags@))
            } else {
                v
            }
        },
        UidIndexOp::FlagDel(ident, imodseq, flags) => {
            if v.table.contains_key(ident) {
                let (uid, _, existing) = v.table[ident];
                view_flag_change(v, ident, imodseq, existing.difference(flags@), flag_remove(v.by_flag, uid, flags@))
            } else {
                v
            }
        },
        UidIndexOp::FlagSet(ident, imodseq, flags) => {
            if v.table.contains_key(ident) {
                let (uid, _, existing) = v.table[ident];
                view_flag_change(
                    v,
                    ident,
                    imodseq,
                    flags@,
                    flag_insert(flag_remove(v.by_flag, uid, existing.difference(flags@)), uid, flags@),
                )
            } else {
                v
            }
        },
    }
}

/// The model of an empty mailbox: no email, UIDVALIDITY 1, counters at 0.
pub open spec fn empty_uid_view() -> UidView {
    UidView {
        table: Map::empty(),
        by_uid: Map::empty(),
        by_modseq: Map::empty(),
        by_flag: Map::empty(),
        by_seqid: Seq::empty(),
        seqid_of: Map::empty(),
        uidvalidity: 1,
        internalseq: 0,
        internalmodseq: 0,
    }
}

} // verus!

verus! {

/// What `apply` needs of an operation besides a well-formed index: the
/// counters do not overflow, and a writer never saw counters ahead of this
/// replica's.
pub open spec fn op_ok(v: UidView, op: UidIndexOp) -> bool {
    match op {
        UidIndexOp::MailAdd(ident, iseq, imodseq, _) => {
            &&& v.internalseq < u32::MAX
            &&& v.internalmodseq + 2 <= u64::MAX
            &&& (iseq < v.internalseq || imodseq < v.internalmodseq) ==> {
                &&& iseq <= v.internalseq
                &&& imodseq <= v.internalmodseq
                &&& v.uidvalidity + (v.internalseq - iseq) + ((v.internalmodseq - imodseq) as u32) <= u32::MAX
            }
        },
        UidIndexOp::MailDel(_) => true,
        UidIndexOp::FlagAdd(ident, imodseq, _)
        | UidIndexOp::FlagDel(ident, imodseq, _)
        | UidIndexOp::FlagSet(ident, imodseq, _) => v.table.contains_key(ident) ==> {
            &&& v.internalmodseq + 2 <= u64::MAX
            &&& imodseq < v.internalmodseq ==> v.uidvalidity + ((v.internalmodseq - imodseq) as u32) <= u32::MAX
        },
    }
}

/// Whether an operation respects the rule of the mailbox log that an email
/// is added at most once: a MailAdd names an email the index does not hold.
pub open spec fn op_adds_new(v: UidView, op: UidIndexOp) -> bool {
    match op {
        UidIndexOp::MailAdd(ident, _, _, _) => !v.table.contains_key(ident),
        _ => true,
    }
}

/// What `apply` needs of the index's shape for an operation: room for one
/// more sequence number, and a sequence number for an email to delete.
pub open spec fn op_fits(v: UidView, op: UidIndexOp) -> bool {
    match op {
        UidIndexOp::MailAdd(_, _, _, _) => v.by_seqid.len() < u32::MAX,
        UidIndexOp::MailDel(ident) => {
            &&& v.by_seqid.len() <= u32::MAX
            &&& v.table.contains_key(ident) ==> v.seqid_of.contains_key(ident) && 1 <= v.seqid_of[ident]
                <= v.by_seqid.len()
        },
        _ => true,
    }
}

/// Whether every index agrees with the table, and the counters bound what
/// was handed out.
pub open spec fn uid_wf(v: UidView) -> bool {
    &&& v.table.dom().finite()
    &&& forall|id: UniqueIdent| #[trigger] v.table.contains_key(id) ==> v.by_uid.contains_key(v.table[id].0)
        && v.by_uid[v.table[id].0] == id
    &&& forall|u: u32| #[trigger] v.by_uid.contains_key(u) ==> v.table.contains_key(v.by_uid[u])
        && v.table[v.by_uid[u]].0 == u
    &&& forall|id: UniqueIdent| #[trigger] v.table.contains_key(id) ==> v.by_modseq.contains_key(v.table[id].1)
        && v.by_modseq[v.table[id].1] == id
    &&& forall|m: u64| #[trigger] v.by_modseq.contains_key(m) ==> v.table.contains_key(v.by_modseq[m])
        && v.table[v.by_modseq[m]].1 == m
    &&& v.by_seqid.no_duplicates()
    &&& forall|i: int| 0 <= i < v.by_seqid.len() ==> v.table.contains_key(#[trigger] v.by_seqid[i])
        && v.seqid_of.contains_key(v.by_seqid[i]) && v.seqid_of[v.by_seqid[i]] == i + 1
    &&& forall|id: UniqueIdent| #[trigger] v.table.contains_key(id) ==> v.by_seqid.contains(id)
    &&& forall|id: UniqueIdent| #[trigger] v.seqid_of.contains_key(id) ==> v.table.contains_key(id)
    &&& forall|f: Seq<char>, u: u32| #[trigger] v.by_flag.contains_key(f) && #[trigger] v.by_flag[f].contains(u)
        ==> v.by_uid.contains_key(u) && v.table[v.by_uid[u]].2.contains(f)
    &&& forall|id: UniqueIdent, f: Seq<char>| #[trigger] v.table.contains_key(id) && #[trigger] v.table[id].2.contains(f)
        ==> v.by_flag.contains_key(f) && v.by_flag[f].contains(v.table[id].0)
    &&& forall|f: Seq<char>| #[trigger] v.by_flag.contains_key(f) ==> v.by_flag[f] != Set::<u32>::empty()
    &&& forall|id: UniqueIdent| #[trigger] v.table.contains_key(id) ==> 1 <= v.table[id].0 <= v.internalseq
        && 2 <= v.table[id].1 <= v.internalmodseq + 1
    &&& v.by_seqid.len() <= v.internalseq
    &&& v.uidvalidity >= 1
}

/// Adding one more flag to `flag_insert` updates that flag's entry only.
proof fn lemma_flag_insert_step(m0: Map<Seq<char>, Set<u32>>, uid: u32, a: Set<Seq<char>>, k: Seq<char>)
    ensures
        ({
            let b = flag_insert(m0, uid, a);
            flag_insert(m0, uid, a.insert(k)) == b.insert(
                k,
                (if b.contains_key(k) { b[k] } else { Set::<u32>::empty() }).insert(uid),
            )
        }),
{
    let b = flag_insert(m0, uid, a);
    let lhs = flag_insert(m0, uid, a.insert(k));
    let rhs = b.insert(k, (if b.contains_key(k) { b[k] } else { Set::<u32>::empty() }).insert(uid));
    assert forall|f: Seq<char>| lhs.contains_key(f) implies lhs[f] == rhs[f] by {
        if f == k {
            if a.contains(k) {
                assert(b[k] == (if m0.contains_key(k) { m0[k] } else { Set::<u32>::empty() }).insert(uid));
                assert(b[k].insert(uid) =~= b[k]);
            }
        }
    }
    assert(lhs =~= rhs);
}

/// Removing one more flag in `flag_remove` updates that flag's entry only.
proof fn lemma_flag_remove_step(m0: Map<Seq<char>, Set<u32>>, uid: u32, a: Set<Seq<char>>, k: Seq<char>)
    requires
        !a.contains(k),
    ensures
        ({
            let b = flag_remove(m0, uid, a);
            flag_remove(m0, uid, a.insert(k)) == if b.contains_key(k) {
                if b[k].remove(uid) == Set::<u32>::empty() {
                    b.remove(k)
                } else {
                    b.insert(k, b[k].remove(uid))
                }
            } else {
                b
            }
        }),
{
    let b = flag_remove(m0, uid, a);
    let lhs = flag_remove(m0, uid, a.insert(k));
    let rhs = if b.contains_key(k) {
        if b[k].remove(uid) == Set::<u32>::empty() {
            b.remove(k)
        } else {
            b.insert(k, b[k].remove(uid))
        }
    } else {
        b
    };
    assert forall|f: Seq<char>| lhs.contains_key(f) <==> rhs.contains_key(f) by {}
    assert forall|f: Seq<char>| lhs.contains_key(f) implies lhs[f] == rhs[f] by {}
    assert(lhs =~= rhs);
}

/// The emails of a sequence-number map, in sequence order.
pub struct SeqidMap(im::Vector<UniqueIdent>);

impl View for SeqidMap {
    type V = Seq<UniqueIdent>;

    closed spec fn view(&self) -> Seq<UniqueIdent> {
        ident_vector_view(self.0)
    }
}

impl SeqidMap {
    /// An empty map.
    pub fn new() -> (r: Self)
        ensures
            r@ == Seq::<UniqueIdent>::empty(),
    {
        SeqidMap(ident_vector_new())
    }

    /// A copy of the map.
    pub fn duplicate(&self) -> (r: Self)
        ensures
            r@ == self@,
    {
        SeqidMap(ident_vector_clone(&self.0))
    }

    /// The email with sequence number `seqid`.
    pub fn get(&self, seqid: u32) -> (r: Option<UniqueIdent>)
        requires
            seqid >= 1,
        ensures
            seqid <= self@.len() ==> r == Some(self@[seqid - 1]),
            seqid > self@.len() ==> r is None,
    {
        ident_vector_get(&self.0, seqid as usize - 1)
    }

    /// Gives the next sequence number to `x`.
    pub fn push(&mut self, x: UniqueIdent)
        ensures
            final(self)@ == old(self)@.push(x),
    {
        ident_vector_push_back(&mut self.0, x)
    }

    /// Removes the email with sequence number `seqid`; the ones after it move
    /// down by one.
    pub fn remove(&mut self, seqid: u32)
        requires
            1 <= seqid <= old(self)@.len(),
        ensures
            final(self)@ == old(self)@.remove(seqid - 1),
    {
        ident_vector_remove(&mut self.0, seqid as usize - 1);
    }

    /// The number of emails.
    pub fn len(&self) -> (r: usize)
        ensures
            r == self@.len(),
    {
        ident_vector_len(&self.0)
    }

    /// The sequence number the next email gets.
    pub fn next_seqid(&self) -> (r: u32)
        requires
            self@.len() < u32::MAX,
        ensures
            r == self@.len() + 1,
    {
        ident_vector_len(&self.0) as u32 + 1
    }

    /// The last email with its sequence number, if any.
    pub fn largest(&self) -> (r: Option<(u32, UniqueIdent)>)
        requires
            self@.len() <= u32::MAX,
        ensures
            self@.len() == 0 ==> r is None,
            self@.len() > 0 ==> r == Some((self@.len() as u32, self@.last())),
    {
        let n = ident_vector_len(&self.0);
        if n == 0 {
            None
        } else {
            match ident_vector_get(&self.0, n - 1) {
                Some(x) => Some((n as u32, x)),
                None => None,
            }
        }
    }
}

/// The UIDs holding each flag.
pub struct FlagIndex(im::HashMap<String, im::OrdSet<u32>>);

/// The UID sets of a flag map, as sets.
pub open spec fn flag_sets(m: Map<Seq<char>, im::OrdSet<u32>>) -> Map<Seq<char>, Set<u32>> {
    m.map_values(|s: im::OrdSet<u32>| uid_set_view(s))
}

impl View for FlagIndex {
    type V = Map<Seq<char>, Set<u32>>;

    closed spec fn view(&self) -> Map<Seq<char>, Set<u32>> {
        flag_sets(flag_map_view(self.0))
    }
}

impl FlagIndex {
    /// An empty index.
    pub fn new() -> (r: Self)
        ensures
            r@ == Map::<Seq<char>, Set<u32>>::empty(),
    {
        let r = FlagIndex(flag_map_new());
        assert(r@ =~= Map::<Seq<char>, Set<u32>>::empty());
        r
    }

    /// A copy of the index.
    pub fn duplicate(&self) -> (r: Self)
        ensures
            r@ == self@,
    {
        FlagIndex(flag_map_clone(&self.0))
    }

    /// Records that `uid` holds every flag of `flags`.
    fn insert(&mut self, uid: u32, flags: &Flags)
        ensures
            final(self)@ == flag_insert(old(self)@, uid, flags@),
    {
        let v = flags.to_vec();
        let ghost m0 = self@;
        let mut i: usize = 0;
        proof {
            assert(flag_insert(m0, uid, crate::collections::flags::string_set(v@.take(0))) =~= m0);
        }
        while i < v.len()
            invariant
                i <= v@.len(),
                crate::collections::flags::string_set(v@) == flags@,
                self@ == flag_insert(m0, uid, crate::collections::flags::string_set(v@.take(i as int))),
            decreases v@.len() - i,
        {
            let flag = &v[i];
            let ghost before = self@;
            let ghost raw = flag_map_view(self.0);
            let mut set = match flag_map_get(&self.0, flag.as_str()) {
                Some(s) => uid_set_clone(s),
                None => uid_set_new(),
            };
            uid_set_insert(&mut set, uid);
            flag_map_insert(&mut self.0, flag.clone(), set);
            proof {
                let k = v@[i as int]@;
                assert(flag_sets(raw.insert(k, set)) =~= flag_sets(raw).insert(k, uid_set_view(set)));
                assert(uid_set_view(set) == (if before.contains_key(k) { before[k] } else { Set::<u32>::empty() }).insert(uid));
                lemma_flag_insert_step(m0, uid, crate::collections::flags::string_set(v@.take(i as int)), k);
                let a = crate::collections::flags::string_set(v@.take(i as int));
                let b = crate::collections::flags::string_set(v@.take(i + 1));
                assert forall|k: Seq<char>| b.contains(k) <==> a.insert(v@[i as int]@).contains(k) by {
                    if a.contains(k) {
                        let j = choose|j: int| 0 <= j < v@.take(i as int).len() && #[trigger] v@.take(i as int)[j]@ == k;
                        assert(v@.take(i + 1)[j]@ == k);
                    }
                    if k == v@[i as int]@ {
                        assert(v@.take(i + 1)[i as int]@ == k);
                    }
                    if b.contains(k) {
                        let j = choose|j: int| 0 <= j < v@.take(i + 1).len() && #[trigger] v@.take(i + 1)[j]@ == k;
                        if j < i {
                            assert(v@.take(i as int)[j]@ == k);
                        }
                    }
                }
                assert(b =~= a.insert(v@[i as int]@));
                assert(self@ =~= flag_insert(m0, uid, b));
            }
            i = i + 1;
        }
        proof {
            assert(v@.take(v@.len() as int) == v@);
        }
    }

    /// Records that `uid` no longer holds any flag of `flags`; a flag left
    /// with no UID is dropped.
    fn remove(&mut self, uid: u32, flags: &Flags)
        ensures
            final(self)@ == flag_remove(old(self)@, uid, flags@),
    {
        let v = flags.to_vec();
        let ghost m0 = self@;
        let mut i: usize = 0;
        proof {
            assert(flag_remove(m0, uid, crate::collections::flags::string_set(v@.take(0))) =~= m0);
        }
        while i < v.len()
            invariant
                i <= v@.len(),
                crate::collections::flags::string_set(v@) == flags@,
                crate::collections::flags::sorted_strings(v@),
                self@ == flag_remove(m0, uid, crate::collections::flags::string_set(v@.take(i as int))),
            decreases v@.len() - i,
        {
            let flag = &v[i];
            let ghost before = self@;
            let ghost raw = flag_map_view(self.0);
            match flag_map_get(&self.0, flag.as_str()) {
                Some(s) => {
                    let mut set = uid_set_clone(s);
                    uid_set_remove(&mut set, &uid);
                    if uid_set_is_empty(&set) {
                        flag_map_remove(&mut self.0, flag);
                        proof {
                            assert(flag_sets(raw.remove(flag@)) =~= flag_sets(raw).remove(flag@));
                        }
                    } else {
                        flag_map_insert(&mut self.0, flag.clone(), set);
                        proof {
                            assert(flag_sets(raw.insert(flag@, set)) =~= flag_sets(raw).insert(flag@, uid_set_view(set)));
                        }
                    }
                },
                None => {},
            }
            proof {
                let a = crate::collections::flags::string_set(v@.take(i as int));
                let b = crate::collections::flags::string_set(v@.take(i + 1));
                let k = v@[i as int]@;
                assert forall|x: Seq<char>| b.contains(x) <==> a.insert(k).contains(x) by {
                    if a.contains(x) {
                        let j = choose|j: int| 0 <= j < v@.take(i as int).len() && #[trigger] v@.take(i as int)[j]@ == x;
                        assert(v@.take(i + 1)[j]@ == x);
                    }
                    if x == k {
                        assert(v@.take(i + 1)[i as int]@ == x);
                    }
                    if b.contains(x) {
                        let j = choose|j: int| 0 <= j < v@.take(i + 1).len() && #[trigger] v@.take(i + 1)[j]@ == x;
                        if j < i {
                            assert(v@.take(i as int)[j]@ == x);
                        }
                    }
                }
                assert(b =~= a.insert(k));
                assert(!a.contains(k)) by {
                    if a.contains(k) {
                        let j = choose|j: int| 0 <= j < v@.take(i as int).len() && #[trigger] v@.take(i as int)[j]@ == k;
                        assert(v@[j]@ == k);
                        assert(crate::text::lex_lt(v@[j]@, v@[i as int]@));
                        crate::text::lemma_lex_lt_irreflexive(k);
                    }
                }
                lemma_flag_remove_step(m0, uid, a, k);
                assert(self@ =~= flag_remove(m0, uid, b));
            }
            i = i + 1;
        }
        proof {
            assert(v@.take(v@.len() as int) == v@);
        }
    }

    /// The UIDs holding `flag`, in increasing order, if any does.
    pub fn get(&self, flag: &str) -> (r: Option<Vec<u32>>)
        ensures
            match r {
                Some(v) => self@.contains_key(flag@) && (forall|i: int, j: int|
                    0 <= i < j < v@.len() ==> #[trigger] v@[i] < #[trigger] v@[j]) && (forall|u: u32|
                    v@.contains(u) <==> self@[flag@].contains(u)),
                None => !self@.contains_key(flag@),
            },
    {
        match flag_map_get(&self.0, flag) {
            Some(s) => Some(uid_set_to_vec(s)),
            None => None,
        }
    }

    /// The flags that some UID holds, each once, in no particular order.
    pub fn flags(&self) -> (r: Vec<String>)
        ensures
            forall|i: int, j: int| 0 <= i < j < r@.len() ==> (#[trigger] r@[i])@ != (#[trigger] r@[j])@,
            forall|k: Seq<char>| (exists|i: int| 0 <= i < r@.len() && (#[trigger] r@[i])@ == k) <==> self@.contains_key(k),
    {
        flag_map_keys(&self.0)
    }
}

} // verus!

verus! {

/// The emails of a table, with their flags as sets.
pub open spec fn mail_views(m: Map<UniqueIdent, MailEntry>) -> Map<UniqueIdent, MailView> {
    m.map_values(|e: MailEntry| (e.0, e.1, e.2@))
}

/// The UID index of a mailbox.
pub struct UidIndex {
    table: im::OrdMap<UniqueIdent, MailEntry>,
    idx_by_uid: im::OrdMap<ImapUid, UniqueIdent>,
    idx_by_modseq: im::OrdMap<ModSeq, UniqueIdent>,
    idx_by_flag: FlagIndex,
    idx_by_seqid: SeqidMap,
    idx_seqid_of_uuid: im::OrdMap<UniqueIdent, ImapSeqid>,
    uidvalidity: ImapUidvalidity,
    internalseq: InternalSeq,
    internalmodseq: InternalModSeq,
}

impl View for UidIndex {
    type V = UidView;

    closed spec fn view(&self) -> UidView {
        UidView {
            table: mail_views(mail_table_view(self.table)),
            by_uid: uid_index_view(self.idx_by_uid),
            by_modseq: modseq_index_view(self.idx_by_modseq),
            by_flag: self.idx_by_flag@,
            by_seqid: self.idx_by_seqid@,
            seqid_of: seqid_of_view(self.idx_seqid_of_uuid),
            uidvalidity: self.uidvalidity,
            internalseq: self.internalseq,
            internalmodseq: self.internalmodseq,
        }
    }
}

impl UidIndex {
    /// A copy of the index.
    pub fn duplicate(&self) -> (r: Self)
        ensures
            r@ == self@,
    {
        UidIndex {
            table: mail_table_clone(&self.table),
            idx_by_uid: uid_index_clone(&self.idx_by_uid),
            idx_by_modseq: modseq_index_clone(&self.idx_by_modseq),
            idx_by_flag: self.idx_by_flag.duplicate(),
            idx_by_seqid: self.idx_by_seqid.duplicate(),
            idx_seqid_of_uuid: seqid_of_clone(&self.idx_seqid_of_uuid),
            uidvalidity: self.uidvalidity,
            internalseq: self.internalseq,
            internalmodseq: self.internalmodseq,
        }
    }

    /// UIDNEXT: the UID the next email gets.
    pub fn uidnext(&self) -> (r: ImapUid)
        requires
            self@.internalseq < u32::MAX,
        ensures
            r == self@.internalseq + 1,
    {
        self.internalseq + 1
    }

    /// HIGHESTMODSEQ: one more than the count of MailAdd and flag operations,
    /// so 1 on an empty mailbox.
    pub fn highestmodseq(&self) -> (r: ModSeq)
        requires
            self@.internalmodseq < u64::MAX,
        ensures
            r == self@.internalmodseq + 1,
    {
        self.internalmodseq + 1
    }

    /// The UIDVALIDITY of the mailbox.
    pub fn uidvalidity(&self) -> (r: ImapUidvalidity)
        ensures
            r == self@.uidvalidity,
    {
        self.uidvalidity
    }


    /// Unregisters an email from the table and every index, renumbering the
    /// emails after it; an unknown email changes nothing.
    fn unreg_email(&mut self, ident: &UniqueIdent)
        requires
            old(self)@.table.contains_key(*ident) ==> old(self)@.seqid_of.contains_key(*ident) && 1 <= old(
                self,
            )@.seqid_of[*ident] <= old(self)@.by_seqid.len(),
            old(self)@.by_seqid.len() <= u32::MAX,
        ensures
            final(self)@ == view_unreg_email(old(self)@, *ident),
    {
        let ghost v0 = self@;
        let (uid, modseq, flags) = match mail_table_get(&self.table, ident) {
            Some(v) => (v.0, v.1, v.2.duplicate()),
            None => return,
        };
        uid_index_remove(&mut self.idx_by_uid, &uid);
        self.idx_by_flag.remove(uid, &flags);
        modseq_index_remove(&mut self.idx_by_modseq, &modseq);
        let seqid = seqid_of_remove(&mut self.idx_seqid_of_uuid, ident).unwrap();
        self.idx_by_seqid.remove(seqid);
        let ghost seq2 = self.idx_by_seqid@;
        let ghost m1 = seqid_of_view(self.idx_seqid_of_uuid);
        let next = self.idx_by_seqid.next_seqid();
        let mut id = seqid;
        while id < next
            invariant
                seqid <= id <= next,
                next == seq2.len() + 1,
                1 <= seqid,
                self.idx_by_seqid@ == seq2,
                renumber(seqid_of_view(self.idx_seqid_of_uuid), seq2, id as int, next as int) == renumber(
                    m1,
                    seq2,
                    seqid as int,
                    next as int,
                ),
                mail_table_view(self.table) == mail_table_view(old(self).table),
                uid_index_view(self.idx_by_uid) == v0.by_uid.remove(uid),
                modseq_index_view(self.idx_by_modseq) == v0.by_modseq.remove(modseq),
                self.idx_by_flag@ == flag_remove(v0.by_flag, uid, flags@),
                self.uidvalidity == v0.uidvalidity,
                self.internalseq == v0.internalseq,
                self.internalmodseq == v0.internalmodseq,
            decreases next - id,
        {
            let uuid = self.idx_by_seqid.get(id).unwrap();
            seqid_of_insert(&mut self.idx_seqid_of_uuid, uuid, id);
            id = id + 1;
        }
        mail_table_remove(&mut self.table, ident);
        proof {
            assert(self@.table =~= v0.table.remove(*ident));
            assert(renumber(seqid_of_view(self.idx_seqid_of_uuid), seq2, next as int, next as int) == seqid_of_view(self.idx_seqid_of_uuid));
            assert(seqid == v0.seqid_of[*ident]);
            assert(seq2 == v0.by_seqid.remove(seqid - 1));
            assert(m1 == v0.seqid_of.remove(*ident));
            let vv = view_unreg_email(v0, *ident);
            assert(self@.by_seqid == vv.by_seqid);
            assert(self@.seqid_of == vv.seqid_of);
            assert(self@.by_flag == vv.by_flag);
            assert(self@.by_uid == vv.by_uid);
            assert(self@.by_modseq == vv.by_modseq);
            assert(self@.table == vv.table);
            assert(self@.uidvalidity == vv.uidvalidity);
            assert(self@.internalseq == vv.internalseq);
            assert(self@.internalmodseq == vv.internalmodseq);
            assert(self@ == vv);
        }
    }


    /// Applies a flag change to a known email: bumps UIDVALIDITY if the
    /// writer saw an older counter, gives the email a new modification
    /// sequence and its new flags.
    fn flag_change(&mut self, ident: UniqueIdent, imodseq: InternalModSeq, new_flags: Flags, by_flag: FlagIndex)
        requires
            old(self)@.table.contains_key(ident),
            old(self)@.internalmodseq + 2 <= u64::MAX,
            imodseq < old(self)@.internalmodseq ==> old(self)@.uidvalidity + ((old(self)@.internalmodseq - imodseq) as u32)
                <= u32::MAX,
        ensures
            final(self)@ == view_flag_change(old(self)@, ident, imodseq, new_flags@, by_flag@),
    {
        let ghost v0 = self@;
        let (uid, email_modseq) = match mail_table_get(&self.table, &ident) {
            Some(e) => (e.0, e.1),
            None => return,
        };
        if imodseq < self.internalmodseq {
            let bump_modseq = (self.internalmodseq - imodseq) as u32;
            self.uidvalidity = self.uidvalidity + bump_modseq;
        }
        self.internalmodseq = self.internalmodseq + 1;
        self.idx_by_flag = by_flag;
        modseq_index_remove(&mut self.idx_by_modseq, &email_modseq);
        let modseq = self.internalmodseq + 1;
        modseq_index_insert(&mut self.idx_by_modseq, modseq, ident);
        let ghost raw0 = mail_table_view(self.table);
        let ghost entry = (uid, modseq, new_flags);
        mail_table_insert(&mut self.table, ident, (uid, modseq, new_flags));
        proof {
            assert(mail_views(raw0.insert(ident, entry)) =~= v0.table.insert(ident, (uid, modseq, new_flags@)));
            assert(self@.table == view_flag_change(v0, ident, imodseq, new_flags@, by_flag@).table);
        }
    }

    /// An empty index: no email, UIDVALIDITY 1, UIDNEXT 1, HIGHESTMODSEQ 1.
    pub fn new() -> (r: Self)
        ensures
            r@ == empty_uid_view(),
            uid_wf(r@),
    {
        let r = UidIndex {
            table: mail_table_new(),
            idx_by_uid: uid_index_new(),
            idx_by_modseq: modseq_index_new(),
            idx_by_flag: FlagIndex::new(),
            idx_by_seqid: SeqidMap::new(),
            idx_seqid_of_uuid: seqid_of_new(),
            uidvalidity: 1,
            internalseq: 0,
            internalmodseq: 0,
        };
        proof {
            assert(mail_views(mail_table_view(r.table)) =~= Map::<UniqueIdent, MailView>::empty());
            assert(uid_index_view(r.idx_by_uid) =~= Map::<u32, UniqueIdent>::empty());
            assert(modseq_index_view(r.idx_by_modseq) =~= Map::<u64, UniqueIdent>::empty());
            assert(seqid_of_view(r.idx_seqid_of_uuid) =~= Map::<UniqueIdent, u32>::empty());
            assert(r@ == empty_uid_view());
        }
        r
    }

    /// The operation that adds `ident` with `flags`, stamped with the
    /// counters this index has seen.
    pub fn op_mail_add(&self, ident: UniqueIdent, flags: Flags) -> (r: UidIndexOp)
        ensures
            r == UidIndexOp::MailAdd(ident, self@.internalseq, self@.internalmodseq, flags),
    {
        UidIndexOp::MailAdd(ident, self.internalseq, self.internalmodseq, flags)
    }

    /// The operation that deletes `ident`.
    pub fn op_mail_del(&self, ident: UniqueIdent) -> (r: UidIndexOp)
        ensures
            r == UidIndexOp::MailDel(ident),
    {
        UidIndexOp::MailDel(ident)
    }

    /// The operation that adds `flags` to `ident`.
    pub fn op_flag_add(&self, ident: UniqueIdent, flags: Flags) -> (r: UidIndexOp)
        ensures
            r == UidIndexOp::FlagAdd(ident, self@.internalmodseq, flags),
    {
        UidIndexOp::FlagAdd(ident, self.internalmodseq, flags)
    }

    /// The operation that removes `flags` from `ident`.
    pub fn op_flag_del(&self, ident: UniqueIdent, flags: Flags) -> (r: UidIndexOp)
        ensures
            r == UidIndexOp::FlagDel(ident, self@.internalmodseq, flags),
    {
        UidIndexOp::FlagDel(ident, self.internalmodseq, flags)
    }

    /// The operation that sets the flags of `ident` to `flags`.
    pub fn op_flag_set(&self, ident: UniqueIdent, flags: Flags) -> (r: UidIndexOp)
        ensures
            r == UidIndexOp::FlagSet(ident, self@.internalmodseq, flags),
    {
        UidIndexOp::FlagSet(ident, self.internalmodseq, flags)
    }

    /// The number of emails.
    pub fn table_len(&self) -> (r: usize)
        ensures
            r == self@.table.dom().len(),
    {
        let ghost raw = mail_table_view(self.table);
        proof {
            assert(mail_views(raw).dom() =~= raw.dom());
        }
        mail_table_len(&self.table)
    }

    /// The UID, modification sequence and flags of an email, if it is here.
    pub fn entry(&self, ident: &UniqueIdent) -> (r: Option<(ImapUid, ModSeq, Flags)>)
        ensures
            match r {
                Some(e) => self@.table.contains_key(*ident) && self@.table[*ident] == (e.0, e.1, e.2@),
                None => !self@.table.contains_key(*ident),
            },
    {
        match mail_table_get(&self.table, ident) {
            Some(e) => Some((e.0, e.1, e.2.duplicate())),
            None => None,
        }
    }

    /// The identifiers of the emails, in increasing order.
    pub fn idents(&self) -> (r: Vec<UniqueIdent>)
        ensures
            forall|i: int, j: int| 0 <= i < j < r@.len() ==> super::unique_ident::ident_lt(#[trigger] r@[i], #[trigger] r@[j]),
            forall|k: UniqueIdent| r@.contains(k) <==> self@.table.contains_key(k),
    {
        mail_table_keys(&self.table)
    }

    /// The email with UID `uid`, if any.
    pub fn ident_of_uid(&self, uid: ImapUid) -> (r: Option<UniqueIdent>)
        ensures
            match r {
                Some(id) => self@.by_uid.contains_key(uid) && id == self@.by_uid[uid],
                None => !self@.by_uid.contains_key(uid),
            },
    {
        uid_index_get(&self.idx_by_uid, &uid)
    }

    /// The email with modification sequence `modseq`, if any.
    pub fn ident_of_modseq(&self, modseq: ModSeq) -> (r: Option<UniqueIdent>)
        ensures
            match r {
                Some(id) => self@.by_modseq.contains_key(modseq) && id == self@.by_modseq[modseq],
                None => !self@.by_modseq.contains_key(modseq),
            },
    {
        modseq_index_get(&self.idx_by_modseq, &modseq)
    }

    /// The greatest UID in use with its email, if the mailbox is not empty.
    pub fn max_uid(&self) -> (r: Option<(ImapUid, UniqueIdent)>)
        ensures
            match r {
                Some((u, id)) => self@.by_uid.contains_key(u) && id == self@.by_uid[u] && forall|u2: u32|
                    self@.by_uid.contains_key(u2) ==> u2 <= u,
                None => self@.by_uid.dom() == Set::<u32>::empty(),
            },
    {
        uid_index_get_max(&self.idx_by_uid)
    }

    /// The email with sequence number `seqid`, if any.
    pub fn ident_of_seqid(&self, seqid: ImapSeqid) -> (r: Option<UniqueIdent>)
        requires
            seqid >= 1,
        ensures
            seqid <= self@.by_seqid.len() ==> r == Some(self@.by_seqid[seqid - 1]),
            seqid > self@.by_seqid.len() ==> r is None,
    {
        self.idx_by_seqid.get(seqid)
    }

    /// The sequence number of an email, if it is here.
    pub fn seqid_of(&self, ident: &UniqueIdent) -> (r: Option<ImapSeqid>)
        ensures
            match r {
                Some(n) => self@.seqid_of.contains_key(*ident) && n == self@.seqid_of[*ident],
                None => !self@.seqid_of.contains_key(*ident),
            },
    {
        seqid_of_get(&self.idx_seqid_of_uuid, ident)
    }

    /// The UIDs holding `flag`, in increasing order, if any does.
    pub fn flag_uids(&self, flag: &str) -> (r: Option<Vec<ImapUid>>)
        ensures
            match r {
                Some(v) => self@.by_flag.contains_key(flag@) && (forall|i: int, j: int|
                    0 <= i < j < v@.len() ==> #[trigger] v@[i] < #[trigger] v@[j]) && (forall|u: u32|
                    v@.contains(u) <==> self@.by_flag[flag@].contains(u)),
                None => !self@.by_flag.contains_key(flag@),
            },
    {
        self.idx_by_flag.get(flag)
    }

    /// The flags that some email holds, each once.
    pub fn flags(&self) -> (r: Vec<String>)
        ensures
            forall|i: int, j: int| 0 <= i < j < r@.len() ==> (#[trigger] r@[i])@ != (#[trigger] r@[j])@,
            forall|k: Seq<char>| (exists|i: int| 0 <= i < r@.len() && (#[trigger] r@[i])@ == k) <==> self@.by_flag.contains_key(k),
    {
        self.idx_by_flag.flags()
    }

    /// Registers an email in the table and every index.
    fn reg_email(&mut self, ident: UniqueIdent, uid: ImapUid, modseq: ModSeq, flags: &Flags)
        requires
            old(self)@.by_seqid.len() < u32::MAX,
        ensures
            final(self)@ == view_reg_email(old(self)@, ident, uid, modseq, flags@),
    {
        let ghost v0 = self@;
        let ghost raw0 = mail_table_view(self.table);
        let fl = flags.duplicate();
        let ghost entry = (uid, modseq, fl);
        mail_table_insert(&mut self.table, ident, (uid, modseq, fl));
        uid_index_insert(&mut self.idx_by_uid, uid, ident);
        self.idx_by_flag.insert(uid, flags);
        modseq_index_insert(&mut self.idx_by_modseq, modseq, ident);
        let next_seqid = self.idx_by_seqid.next_seqid();
        self.idx_by_seqid.push(ident);
        seqid_of_insert(&mut self.idx_seqid_of_uuid, ident, next_seqid);
        proof {
            assert(mail_views(raw0.insert(ident, entry)) =~= v0.table.insert(ident, (uid, modseq, flags@)));
            assert(self@.table =~= v0.table.insert(ident, (uid, modseq, flags@)));
        }
    }
}

} // verus!

verus! {

impl Default for UidIndex {
    /// An empty index.
    fn default() -> (r: Self)
        ensures
            r@ == empty_uid_view(),
    {
        UidIndex::new()
    }
}

} // verus!

verus! {

/// The stored form of a UID index: its emails and counters. The indexes are
/// rebuilt when it is loaded.
pub struct UidIndexSerializedRepr {
    /// Each email: UID, modification sequence, identifier, flags.
    pub mails: Vec<(ImapUid, ModSeq, UniqueIdent, Flags)>,
    pub uidvalidity: ImapUidvalidity,
    pub internalseq: InternalSeq,
    pub internalmodseq: InternalModSeq,
}

/// An empty index with the given counters.
pub open spec fn view_with_counters(uidvalidity: u32, internalseq: u32, internalmodseq: u64) -> UidView {
    UidView { uidvalidity, internalseq, internalmodseq, ..empty_uid_view() }
}

/// The model after registering `mails` one after the other.
pub open spec fn view_load(base: UidView, mails: Seq<(u32, u64, UniqueIdent, Flags)>) -> UidView
    decreases mails.len(),
{
    if mails.len() == 0 {
        base
    } else {
        let m = mails.last();
        view_reg_email(view_load(base, mails.drop_last()), m.2, m.0, m.1, m.3@)
    }
}

/// Registering emails gives each the next sequence number.
proof fn lemma_view_load_len(base: UidView, mails: Seq<(u32, u64, UniqueIdent, Flags)>)
    ensures
        view_load(base, mails).by_seqid.len() == base.by_seqid.len() + mails.len(),
    decreases mails.len(),
{
    if mails.len() > 0 {
        lemma_view_load_len(base, mails.drop_last());
    }
}

/// Whether `mails` lists the emails of `v` once each, with their entries.
pub open spec fn lists_table(v: UidView, mails: Seq<(u32, u64, UniqueIdent, Flags)>) -> bool {
    &&& forall|i: int, j: int| 0 <= i < j < mails.len() ==> #[trigger] mails[i].2 != #[trigger] mails[j].2
    &&& forall|i: int|
        0 <= i < mails.len() ==> v.table.contains_key(#[trigger] mails[i].2) && v.table[mails[i].2] == (
            mails[i].0,
            mails[i].1,
            mails[i].3@,
        )
    &&& forall|id: UniqueIdent| #[trigger] v.table.contains_key(id) ==> exists|i: int| 0 <= i < mails.len() && #[trigger] mails[i].2 == id
}

impl UidIndex {
    /// Rebuilds an index from its stored form: the counters as stored, then
    /// each email registered in the order given.
    pub fn from_serialized(repr: &UidIndexSerializedRepr) -> (r: Self)
        requires
            repr.mails@.len() < u32::MAX,
        ensures
            r@ == view_load(
                view_with_counters(repr.uidvalidity, repr.internalseq, repr.internalmodseq),
                repr.mails@,
            ),
    {
        let mut idx = UidIndex::new();
        idx.uidvalidity = repr.uidvalidity;
        idx.internalseq = repr.internalseq;
        idx.internalmodseq = repr.internalmodseq;
        let ghost base = view_with_counters(repr.uidvalidity, repr.internalseq, repr.internalmodseq);
        proof {
            assert(idx@ == view_load(base, repr.mails@.take(0)));
        }
        let mut i: usize = 0;
        while i < repr.mails.len()
            invariant
                i <= repr.mails@.len() < u32::MAX,
                base == view_with_counters(repr.uidvalidity, repr.internalseq, repr.internalmodseq),
                idx@ == view_load(base, repr.mails@.take(i as int)),
            decreases repr.mails@.len() - i,
        {
            proof {
                lemma_view_load_len(base, repr.mails@.take(i as int));
                assert(base.by_seqid.len() == 0);
                assert(repr.mails@.take(i as int).len() == i);
            }
            let m = &repr.mails[i];
            idx.reg_email(m.2, m.0, m.1, &m.3);
            proof {
                assert(repr.mails@.take(i + 1).drop_last() == repr.mails@.take(i as int));
            }
            i = i + 1;
        }
        proof {
            assert(repr.mails@.take(repr.mails@.len() as int) == repr.mails@);
        }
        idx
    }

    /// The stored form of the index: every email in increasing identifier
    /// order, and the counters.
    pub fn to_serialized(&self) -> (r: UidIndexSerializedRepr)
        ensures
            r.uidvalidity == self@.uidvalidity,
            r.internalseq == self@.internalseq,
            r.internalmodseq == self@.internalmodseq,
            forall|i: int, j: int|
                0 <= i < j < r.mails@.len() ==> super::unique_ident::ident_lt(
                    #[trigger] r.mails@[i].2,
                    #[trigger] r.mails@[j].2,
                ),
            forall|i: int|
                0 <= i < r.mails@.len() ==> self@.table.contains_key(#[trigger] r.mails@[i].2) && self@.table[r.mails@[
                    i
                ].2] == (r.mails@[i].0, r.mails@[i].1, r.mails@[i].3@),
            forall|id: UniqueIdent|
                #[trigger] self@.table.contains_key(id) ==> exists|i: int|
                    0 <= i < r.mails@.len() && #[trigger] r.mails@[i].2 == id,
            lists_table(self@, r.mails@),
    {
        let keys = mail_table_keys(&self.table);
        let mut mails: Vec<(ImapUid, ModSeq, UniqueIdent, Flags)> = Vec::new();
        let mut i: usize = 0;
        while i < keys.len()
            invariant
                i <= keys@.len(),
                mails@.len() == i,
                forall|a: int, b: int| 0 <= a < b < keys@.len() ==> super::unique_ident::ident_lt(#[trigger] keys@[a], #[trigger] keys@[b]),
                forall|k: UniqueIdent| keys@.contains(k) <==> mail_table_view(self.table).contains_key(k),
                forall|a: int| 0 <= a < i ==> #[trigger] mails@[a].2 == keys@[a],
                forall|a: int|
                    0 <= a < i ==> self@.table.contains_key(#[trigger] mails@[a].2) && self@.table[mails@[a].2] == (
                        mails@[a].0,
                        mails@[a].1,
                        mails@[a].3@,
                    ),
            decreases keys@.len() - i,
        {
            let k = keys[i];
            assert(keys@.contains(k));
            match mail_table_get(&self.table, &k) {
                Some(e) => {
                    mails.push((e.0, e.1, k, e.2.duplicate()));
                },
                None => {},
            }
            i = i + 1;
        }
        let r = UidIndexSerializedRepr {
            mails,
            uidvalidity: self.uidvalidity,
            internalseq: self.internalseq,
            internalmodseq: self.internalmodseq,
        };
        proof {
            assert forall|a: int, b: int| 0 <= a < b < r.mails@.len() implies #[trigger] r.mails@[a].2 != #[trigger] r.mails@[b].2 by {}
            assert forall|id: UniqueIdent| #[trigger] self@.table.contains_key(id) implies exists|a: int|
                0 <= a < r.mails@.len() && #[trigger] r.mails@[a].2 == id by {
                assert(mail_views(mail_table_view(self.table)).contains_key(id));
                assert(keys@.contains(id));
                let a = choose|a: int| 0 <= a < keys@.len() && keys@[a] == id;
                assert(r.mails@[a].2 == id);
            }
        }
        r
    }
}

} // verus!

verus! {

impl BayouState for UidIndex {
    type Op = UidIndexOp;

    type Model = UidView;

    open spec fn model(&self) -> UidView {
        self@
    }

    open spec fn initial_model() -> UidView {
        empty_uid_view()
    }

    open spec fn step(m: UidView, op: UidIndexOp) -> UidView {
        view_apply(m, op)
    }

    open spec fn accepts(m: UidView, op: UidIndexOp) -> bool {
        op_ok(m, op) && op_fits(m, op)
    }

    fn initial() -> (r: Self) {
        UidIndex::new()
    }

    fn duplicate(&self) -> (r: Self) {
        UidIndex::duplicate(self)
    }

    /// Whether the counters leave room for the operation and the index has
    /// the sequence number of an email to delete.
    fn accepts_op(&self, op: &UidIndexOp) -> (r: bool) {
        match op {
            UidIndexOp::MailAdd(_, iseq, imodseq, _) => {
                if !(self.internalseq < u32::MAX) || !(self.internalmodseq <= u64::MAX - 2) {
                    return false;
                }
                if *iseq < self.internalseq || *imodseq < self.internalmodseq {
                    if !(*iseq <= self.internalseq && *imodseq <= self.internalmodseq) {
                        return false;
                    }
                    let bump_uid = (self.internalseq - *iseq) as u64;
                    let bump_modseq = ((self.internalmodseq - *imodseq) as u32) as u64;
                    if (self.uidvalidity as u64) + bump_uid + bump_modseq > u32::MAX as u64 {
                        return false;
                    }
                }
                self.idx_by_seqid.len() < u32::MAX as usize
            },
            UidIndexOp::MailDel(ident) => {
                let n = self.idx_by_seqid.len();
                if n > u32::MAX as usize {
                    return false;
                }
                match mail_table_get(&self.table, ident) {
                    None => true,
                    Some(_) => match seqid_of_get(&self.idx_seqid_of_uuid, ident) {
                        Some(sq) => 1 <= sq && (sq as usize) <= n,
                        None => false,
                    },
                }
            },
            UidIndexOp::FlagAdd(ident, imodseq, _)
            | UidIndexOp::FlagDel(ident, imodseq, _)
            | UidIndexOp::FlagSet(ident, imodseq, _) => {
                match mail_table_get(&self.table, ident) {
                    None => true,
                    Some(_) => {
                        if !(self.internalmodseq <= u64::MAX - 2) {
                            return false;
                        }
                        if *imodseq < self.internalmodseq {
                            let bump_modseq = ((self.internalmodseq - *imodseq) as u32) as u64;
                            (self.uidvalidity as u64) + bump_modseq <= u32::MAX as u64
                        } else {
                            true
                        }
                    },
                }
            },
        }
    }

    /// The index after `op`.
    fn apply(&self, op: &UidIndexOp) -> (r: Self)
    {
        let mut new = self.duplicate();
        match op {
            UidIndexOp::MailAdd(ident, iseq, imodseq, flags) => {
                // Change UIDVALIDITY if there is a UID or a MODSEQ conflict
                if *iseq < new.internalseq || *imodseq < new.internalmodseq {
                    let bump_uid = new.internalseq - *iseq;
                    let bump_modseq = (new.internalmodseq - *imodseq) as u32;
                    new.uidvalidity = new.uidvalidity + bump_uid + bump_modseq;
                }
                // The UID of the email is UIDNEXT; then the counter moves on.
                let new_uid = new.uidnext();
                new.internalseq = new.internalseq + 1;
                // The counter moves on first, then the email gets HIGHESTMODSEQ.
                new.internalmodseq = new.internalmodseq + 1;
                let new_modseq = new.highestmodseq();
                new.reg_email(*ident, new_uid, new_modseq, flags);
            },
            UidIndexOp::MailDel(ident) => {
                new.unreg_email(ident);
            },
            UidIndexOp::FlagAdd(ident, imodseq, new_flags) => {
                if let Some(e) = mail_table_get(&new.table, ident) {
                    let uid = e.0;
                    let merged = e.2.union(new_flags);
                    let mut by_flag = new.idx_by_flag.duplicate();
                    by_flag.insert(uid, new_flags);
                    new.flag_change(*ident, *imodseq, merged, by_flag);
                }
            },
            UidIndexOp::FlagDel(ident, imodseq, rm_flags) => {
                if let Some(e) = mail_table_get(&new.table, ident) {
                    let uid = e.0;
                    let kept = e.2.difference(rm_flags);
                    let mut by_flag = new.idx_by_flag.duplicate();
                    by_flag.remove(uid, rm_flags);
                    new.flag_change(*ident, *imodseq, kept, by_flag);
                }
            },
            UidIndexOp::FlagSet(ident, imodseq, new_flags) => {
                if let Some(e) = mail_table_get(&new.table, ident) {
                    let uid = e.0;
                    let rm_flags = e.2.difference(new_flags);
                    let mut by_flag = new.idx_by_flag.duplicate();
                    by_flag.remove(uid, &rm_flags);
                    by_flag.insert(uid, new_flags);
                    new.flag_change(*ident, *imodseq, new_flags.duplicate(), by_flag);
                }
            },
        }
        new
    }


}

} // verus!
