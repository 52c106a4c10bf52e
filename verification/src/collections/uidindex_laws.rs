//! What every operation of the UID index keeps: the indexes agree with the
//! table, and the counters only move forward.
use vstd::prelude::*;

use super::uidindex::{
    lists_table, view_load, view_with_counters, MailView,
    bumped_validity, bumped_validity_flags, flag_insert, flag_remove, op_adds_new, op_fits, op_ok, renumber, uid_wf, view_apply,
    view_flag_change, view_reg_email, view_unreg_email, UidIndexOp, UidView,
};
use super::unique_ident::UniqueIdent;

verus! {

/// `renumber` gives the emails of its range their sequence numbers and
/// leaves every other entry as it was.
proof fn lemma_renumber(m: Map<UniqueIdent, u32>, s: Seq<UniqueIdent>, from: int, to: int)
    requires
        1 <= from,
        to <= s.len() + 1,
        to <= u32::MAX,
        s.no_duplicates(),
    ensures
        forall|i: int|
            #![trigger s[i]]
            from - 1 <= i < to - 1 ==> renumber(m, s, from, to).contains_key(s[i]) && renumber(m, s, from, to)[s[i]]
                == i + 1,
        forall|x: UniqueIdent|
            #![trigger renumber(m, s, from, to).contains_key(x)]
            #![trigger renumber(m, s, from, to)[x]]
            !s.subrange(from - 1, to - 1).contains(x) ==> (renumber(m, s, from, to).contains_key(x)
                == m.contains_key(x) && renumber(m, s, from, to)[x] == m[x]),
    decreases to - from,
{
    if from < to {
        let m1 = m.insert(s[from - 1], from as u32);
        lemma_renumber(m1, s, from + 1, to);
        let r = renumber(m, s, from, to);
        assert(r == renumber(m1, s, from + 1, to));
        assert(!s.subrange(from, to - 1).contains(s[from - 1])) by {
            if s.subrange(from, to - 1).contains(s[from - 1]) {
                let k = choose|k: int| 0 <= k < s.subrange(from, to - 1).len() && #[trigger] s.subrange(from, to - 1)[k] == s[from - 1];
                assert(s[from + k] == s[from - 1]);
            }
        }
        assert forall|x: UniqueIdent| !#[trigger] s.subrange(from - 1, to - 1).contains(x) implies !s.subrange(
            from,
            to - 1,
        ).contains(x) && x != s[from - 1] by {
            assert(s.subrange(from - 1, to - 1)[0] == s[from - 1]);
            if s.subrange(from, to - 1).contains(x) {
                let k = choose|k: int| 0 <= k < s.subrange(from, to - 1).len() && #[trigger] s.subrange(from, to - 1)[k] == x;
                assert(s.subrange(from - 1, to - 1)[k + 1] == x);
            }
        }
    }
}

/// Under the invariant, an email's sequence number is one more than its
/// position.
proof fn lemma_seqid_position(v: UidView, ident: UniqueIdent) -> (j: int)
    requires
        uid_wf(v),
        v.table.contains_key(ident),
    ensures
        0 <= j < v.by_seqid.len(),
        v.by_seqid[j] == ident,
        v.seqid_of[ident] == j + 1,
{
    assert(v.by_seqid.contains(ident));
    let j = choose|j: int| 0 <= j < v.by_seqid.len() && v.by_seqid[j] == ident;
    assert(v.table.contains_key(v.by_seqid[j]));
    j
}

/// Unregistering an email keeps the invariant.
proof fn lemma_unreg_keeps_wf(v: UidView, ident: UniqueIdent)
    requires
        uid_wf(v),
    ensures
        uid_wf(view_unreg_email(v, ident)),
{
    if v.table.contains_key(ident) {
        let (uid, modseq, flags) = v.table[ident];
        let j = lemma_seqid_position(v, ident);
        let seqid = v.seqid_of[ident];
        let seq2 = v.by_seqid.remove(j);
        let m = v.seqid_of.remove(ident);
        let w = view_unreg_email(v, ident);
        assert(seqid - 1 == j);
        assert(w.by_seqid == seq2);
        assert forall|a: int, b: int| 0 <= a < b < seq2.len() implies seq2[a] != seq2[b] by {
            let a0 = if a < j { a } else { a + 1 };
            let b0 = if b < j { b } else { b + 1 };
            assert(v.by_seqid[a0] != v.by_seqid[b0]);
        }
        assert(seq2.no_duplicates());
        lemma_renumber(m, seq2, seqid as int, (seq2.len() + 1) as int);
        assert(w.seqid_of == renumber(m, seq2, seqid as int, (seq2.len() + 1) as int));
        // Positions before the removed one keep their numbers.
        assert forall|i: int| 0 <= i < seq2.len() implies w.table.contains_key(#[trigger] seq2[i])
            && w.seqid_of.contains_key(seq2[i]) && w.seqid_of[seq2[i]] == i + 1 by {
            let i0 = if i < j { i } else { i + 1 };
            assert(seq2[i] == v.by_seqid[i0]);
            assert(v.table.contains_key(v.by_seqid[i0]));
            assert(v.by_seqid[i0] != ident);
            if i < j {
                assert(!seq2.subrange(seqid - 1, seq2.len() as int).contains(seq2[i])) by {
                    if seq2.subrange(seqid - 1, seq2.len() as int).contains(seq2[i]) {
                        let k = choose|k: int|
                            0 <= k < seq2.subrange(seqid - 1, seq2.len() as int).len() && #[trigger] seq2.subrange(seqid - 1, seq2.len() as int)[k] == seq2[i];
                        assert(seq2[seqid - 1 + k] == seq2[i]);
                    }
                }
                assert(w.seqid_of.contains_key(seq2[i]));
            }
        }
        assert forall|id: UniqueIdent| #[trigger] w.table.contains_key(id) implies w.by_seqid.contains(id) by {
            assert(v.by_seqid.contains(id));
            let k = choose|k: int| 0 <= k < v.by_seqid.len() && v.by_seqid[k] == id;
            assert(k != j);
            if k < j {
                assert(seq2[k] == id);
            } else {
                assert(seq2[k - 1] == id);
            }
        }
        assert forall|id: UniqueIdent| #[trigger] w.seqid_of.contains_key(id) implies w.table.contains_key(id) by {
            if seq2.subrange(seqid - 1, seq2.len() as int).contains(id) {
                let k = choose|k: int|
                    0 <= k < seq2.subrange(seqid - 1, seq2.len() as int).len() && #[trigger] seq2.subrange(seqid - 1, seq2.len() as int)[k] == id;
                assert(seq2[seqid - 1 + k] == id);
            } else {
                assert(m.contains_key(id));
            }
        }
        // The UID and modification sequence indexes lose exactly this email.
        assert forall|u: u32| #[trigger] w.by_uid.contains_key(u) implies w.table.contains_key(w.by_uid[u])
            && w.table[w.by_uid[u]].0 == u by {
            assert(v.by_uid.contains_key(u));
        }
        assert forall|id: UniqueIdent| #[trigger] w.table.contains_key(id) implies w.by_uid.contains_key(
            w.table[id].0,
        ) && w.by_uid[w.table[id].0] == id by {
            assert(v.by_uid[v.table[id].0] == id);
        }
        assert forall|mq: u64| #[trigger] w.by_modseq.contains_key(mq) implies w.table.contains_key(
            w.by_modseq[mq],
        ) && w.table[w.by_modseq[mq]].1 == mq by {
            assert(v.by_modseq.contains_key(mq));
        }
        assert forall|id: UniqueIdent| #[trigger] w.table.contains_key(id) implies w.by_modseq.contains_key(
            w.table[id].1,
        ) && w.by_modseq[w.table[id].1] == id by {
            assert(v.by_modseq[v.table[id].1] == id);
        }
        // The flag index loses this email's UID.
        assert forall|f: Seq<char>, u: u32| #[trigger] w.by_flag.contains_key(f) && #[trigger] w.by_flag[f].contains(
            u,
        ) implies w.by_uid.contains_key(u) && w.table[w.by_uid[u]].2.contains(f) by {
            assert(v.by_flag.contains_key(f) && v.by_flag[f].contains(u));
            if u == uid {
                assert(v.by_uid[uid] == ident);
                assert(flags.contains(f));
            }
        }
        assert forall|id: UniqueIdent, f: Seq<char>| #[trigger] w.table.contains_key(id) && #[trigger] w.table[
            id
        ].2.contains(f) implies w.by_flag.contains_key(f) && w.by_flag[f].contains(w.table[id].0) by {
            assert(v.by_flag[f].contains(v.table[id].0));
            assert(v.table[id].0 != uid);
            if flags.contains(f) {
                assert(v.by_flag[f].remove(uid).contains(v.table[id].0));
            }
        }
        assert forall|f: Seq<char>| #[trigger] w.by_flag.contains_key(f) implies w.by_flag[f] != Set::<
            u32,
        >::empty() by {
            if !flags.contains(f) {
                assert(v.by_flag[f] != Set::<u32>::empty());
            }
        }
        assert(w.table.dom() == v.table.dom().remove(ident));
    }
}

/// Registering a new email under a fresh UID and modification sequence keeps
/// the invariant.
proof fn lemma_reg_keeps_wf(v: UidView, ident: UniqueIdent, uid: u32, modseq: u64, flags: Set<Seq<char>>)
    requires
        uid_wf(v),
        !v.table.contains_key(ident),
        1 <= uid <= v.internalseq,
        2 <= modseq <= v.internalmodseq + 1,
        !v.by_uid.contains_key(uid),
        !v.by_modseq.contains_key(modseq),
        v.by_seqid.len() < v.internalseq,
    ensures
        uid_wf(view_reg_email(v, ident, uid, modseq, flags)),
{
    let w = view_reg_email(v, ident, uid, modseq, flags);
    let n = v.by_seqid.len();
    assert(!v.by_seqid.contains(ident)) by {
        if v.by_seqid.contains(ident) {
            let k = choose|k: int| 0 <= k < v.by_seqid.len() && v.by_seqid[k] == ident;
            assert(v.table.contains_key(v.by_seqid[k]));
        }
    }
    assert forall|a: int, b: int| 0 <= a < b < w.by_seqid.len() implies w.by_seqid[a] != w.by_seqid[b] by {
        if b == n {
            assert(v.table.contains_key(v.by_seqid[a]));
        }
    }
    assert forall|i: int| 0 <= i < w.by_seqid.len() implies w.table.contains_key(#[trigger] w.by_seqid[i])
        && w.seqid_of.contains_key(w.by_seqid[i]) && w.seqid_of[w.by_seqid[i]] == i + 1 by {
        if i < n {
            assert(v.table.contains_key(v.by_seqid[i]));
        }
    }
    assert forall|id: UniqueIdent| #[trigger] w.table.contains_key(id) implies w.by_seqid.contains(id) by {
        if id == ident {
            assert(w.by_seqid[n as int] == ident);
        } else {
            assert(v.by_seqid.contains(id));
            let k = choose|k: int| 0 <= k < v.by_seqid.len() && v.by_seqid[k] == id;
            assert(w.by_seqid[k] == id);
        }
    }
    assert forall|u: u32| #[trigger] w.by_uid.contains_key(u) implies w.table.contains_key(w.by_uid[u])
        && w.table[w.by_uid[u]].0 == u by {
        if u != uid {
            assert(v.table.contains_key(v.by_uid[u]));
        }
    }
    assert forall|mq: u64| #[trigger] w.by_modseq.contains_key(mq) implies w.table.contains_key(w.by_modseq[mq])
        && w.table[w.by_modseq[mq]].1 == mq by {
        if mq != modseq {
            assert(v.table.contains_key(v.by_modseq[mq]));
        }
    }
    assert forall|id: UniqueIdent| #[trigger] w.table.contains_key(id) implies w.by_uid.contains_key(w.table[id].0)
        && w.by_uid[w.table[id].0] == id && w.by_modseq.contains_key(w.table[id].1) && w.by_modseq[w.table[id].1]
        == id by {
        if id != ident {
            assert(v.by_uid[v.table[id].0] == id);
            assert(v.by_modseq[v.table[id].1] == id);
        }
    }
    assert forall|f: Seq<char>, u: u32| #[trigger] w.by_flag.contains_key(f) && #[trigger] w.by_flag[f].contains(
        u,
    ) implies w.by_uid.contains_key(u) && w.table[w.by_uid[u]].2.contains(f) by {
        if u != uid {
            assert(v.by_flag.contains_key(f) && v.by_flag[f].contains(u));
            assert(v.table.contains_key(v.by_uid[u]));
        }
    }
    assert forall|id: UniqueIdent, f: Seq<char>| #[trigger] w.table.contains_key(id) && #[trigger] w.table[
        id
    ].2.contains(f) implies w.by_flag.contains_key(f) && w.by_flag[f].contains(w.table[id].0) by {
        if id != ident {
            assert(v.by_flag[f].contains(v.table[id].0));
        }
    }
    assert forall|f: Seq<char>| #[trigger] w.by_flag.contains_key(f) implies w.by_flag[f] != Set::<u32>::empty() by {
        if flags.contains(f) {
            assert(w.by_flag[f].contains(uid));
        } else {
            assert(v.by_flag[f] != Set::<u32>::empty());
        }
    }
    assert(w.table.dom() == v.table.dom().insert(ident));
}

/// Who holds what after `flag_insert`.
proof fn lemma_flag_insert_members(m: Map<Seq<char>, Set<u32>>, uid: u32, flags: Set<Seq<char>>)
    ensures
        forall|f: Seq<char>, u: u32|
            #![trigger flag_insert(m, uid, flags).contains_key(f), flag_insert(m, uid, flags)[f].contains(u)]
            (flag_insert(m, uid, flags).contains_key(f) && flag_insert(m, uid, flags)[f].contains(u)) <==> ((
            m.contains_key(f) && m[f].contains(u)) || (flags.contains(f) && u == uid)),
        forall|f: Seq<char>|
            #![trigger flag_insert(m, uid, flags).contains_key(f)]
            flag_insert(m, uid, flags).contains_key(f) && !flags.contains(f) ==> flag_insert(m, uid, flags)[f]
                == m[f],
        forall|f: Seq<char>|
            #![trigger flag_insert(m, uid, flags).contains_key(f)]
            flag_insert(m, uid, flags).contains_key(f) && flags.contains(f) ==> flag_insert(m, uid, flags)[f].contains(
                uid,
            ),
{
}

/// Who holds what after `flag_remove`.
proof fn lemma_flag_remove_members(m: Map<Seq<char>, Set<u32>>, uid: u32, flags: Set<Seq<char>>)
    ensures
        forall|f: Seq<char>, u: u32|
            #![trigger flag_remove(m, uid, flags).contains_key(f), flag_remove(m, uid, flags)[f].contains(u)]
            (flag_remove(m, uid, flags).contains_key(f) && flag_remove(m, uid, flags)[f].contains(u)) <==> (
            m.contains_key(f) && m[f].contains(u) && !(flags.contains(f) && u == uid)),
        forall|f: Seq<char>|
            #![trigger flag_remove(m, uid, flags).contains_key(f)]
            flag_remove(m, uid, flags).contains_key(f) ==> (flag_remove(m, uid, flags)[f] != Set::<u32>::empty()
                || (!flags.contains(f) && m[f] == Set::<u32>::empty())),
{
    let r = flag_remove(m, uid, flags);
    assert forall|f: Seq<char>, u: u32|
        (m.contains_key(f) && m[f].contains(u) && !(flags.contains(f) && u == uid)) implies r.contains_key(f)
        && r[f].contains(u) by {
        if flags.contains(f) {
            assert(m[f].remove(uid).contains(u));
        }
    }
}

/// A flag change that leaves the flag index agreeing with the email's new
/// flags keeps the invariant.
proof fn lemma_flag_change_keeps_wf(
    v: UidView,
    ident: UniqueIdent,
    imodseq: u64,
    new_flags: Set<Seq<char>>,
    bf: Map<Seq<char>, Set<u32>>,
)
    requires
        uid_wf(v),
        v.table.contains_key(ident),
        v.internalmodseq + 2 <= u64::MAX,
        imodseq < v.internalmodseq ==> v.uidvalidity + ((v.internalmodseq - imodseq) as u32) <= u32::MAX,
        forall|f: Seq<char>, u: u32|
            #[trigger] bf.contains_key(f) && #[trigger] bf[f].contains(u) ==> (if u == v.table[ident].0 {
                new_flags.contains(f)
            } else {
                v.by_flag.contains_key(f) && v.by_flag[f].contains(u)
            }),
        forall|f: Seq<char>| #[trigger] new_flags.contains(f) ==> bf.contains_key(f) && bf[f].contains(v.table[ident].0),
        forall|f: Seq<char>, u: u32|
            #[trigger] v.by_flag.contains_key(f) && #[trigger] v.by_flag[f].contains(u) && u != v.table[ident].0
                ==> bf.contains_key(f) && bf[f].contains(u),
        forall|f: Seq<char>| #[trigger] bf.contains_key(f) ==> bf[f] != Set::<u32>::empty(),
    ensures
        uid_wf(view_flag_change(v, ident, imodseq, new_flags, bf)),
{
    let w = view_flag_change(v, ident, imodseq, new_flags, bf);
    let (uid, old_modseq, _) = v.table[ident];
    let modseq = (v.internalmodseq + 2) as u64;
    assert(!v.by_modseq.contains_key(modseq)) by {
        if v.by_modseq.contains_key(modseq) {
            assert(v.table.contains_key(v.by_modseq[modseq]));
        }
    }
    assert(w.table.dom() =~= v.table.dom());
    assert forall|i: int| 0 <= i < w.by_seqid.len() implies w.table.contains_key(#[trigger] w.by_seqid[i])
        && w.seqid_of.contains_key(w.by_seqid[i]) && w.seqid_of[w.by_seqid[i]] == i + 1 by {
        assert(v.table.contains_key(v.by_seqid[i]));
    }
    assert forall|u: u32| #[trigger] w.by_uid.contains_key(u) implies w.table.contains_key(w.by_uid[u])
        && w.table[w.by_uid[u]].0 == u by {
        assert(v.table.contains_key(v.by_uid[u]));
    }
    assert forall|mq: u64| #[trigger] w.by_modseq.contains_key(mq) implies w.table.contains_key(w.by_modseq[mq])
        && w.table[w.by_modseq[mq]].1 == mq by {
        if mq != modseq {
            assert(v.by_modseq.contains_key(mq));
            assert(v.table.contains_key(v.by_modseq[mq]));
            assert(v.by_modseq[mq] != ident);
        }
    }
    assert forall|id: UniqueIdent| #[trigger] w.table.contains_key(id) implies w.by_uid.contains_key(w.table[id].0)
        && w.by_uid[w.table[id].0] == id && w.by_modseq.contains_key(w.table[id].1) && w.by_modseq[w.table[id].1]
        == id by {
        assert(v.by_uid[v.table[id].0] == id);
        if id != ident {
            assert(v.by_modseq[v.table[id].1] == id);
            assert(v.table[id].1 != old_modseq);
        }
    }
    assert forall|f: Seq<char>, u: u32| #[trigger] w.by_flag.contains_key(f) && #[trigger] w.by_flag[f].contains(
        u,
    ) implies w.by_uid.contains_key(u) && w.table[w.by_uid[u]].2.contains(f) by {
        if u != uid {
            assert(v.by_flag.contains_key(f) && v.by_flag[f].contains(u));
            assert(v.table.contains_key(v.by_uid[u]));
        } else {
            assert(v.by_uid[uid] == ident);
        }
    }
    assert forall|id: UniqueIdent, f: Seq<char>| #[trigger] w.table.contains_key(id) && #[trigger] w.table[
        id
    ].2.contains(f) implies w.by_flag.contains_key(f) && w.by_flag[f].contains(w.table[id].0) by {
        if id != ident {
            assert(v.by_flag[f].contains(v.table[id].0));
            assert(v.table[id].0 != uid) by {
                assert(v.by_uid[v.table[id].0] == id);
                assert(v.by_uid[uid] == ident);
            }
        } else {
            assert(bf.contains_key(f) && bf[f].contains(uid));
        }
    }
}

/// Every operation that `apply` accepts, and that adds no email twice, keeps
/// the index well formed: each index agrees with the table and the counters
/// bound what was handed out.
pub proof fn law_apply_keeps_wf(v: UidView, op: UidIndexOp)
    requires
        uid_wf(v),
        op_ok(v, op),
        op_adds_new(v, op),
    ensures
        uid_wf(view_apply(v, op)),
{
    match op {
        UidIndexOp::MailAdd(ident, iseq, imodseq, flags) => {
            let v1 = UidView {
                uidvalidity: bumped_validity(v, iseq, imodseq),
                internalseq: (v.internalseq + 1) as u32,
                internalmodseq: (v.internalmodseq + 1) as u64,
                ..v
            };
            let uid = (v.internalseq + 1) as u32;
            let modseq = (v.internalmodseq + 2) as u64;
            assert(!v.by_uid.contains_key(uid)) by {
                if v.by_uid.contains_key(uid) {
                    assert(v.table.contains_key(v.by_uid[uid]));
                }
            }
            assert(!v.by_modseq.contains_key(modseq)) by {
                if v.by_modseq.contains_key(modseq) {
                    assert(v.table.contains_key(v.by_modseq[modseq]));
                }
            }
            assert(uid_wf(v1));
            lemma_reg_keeps_wf(v1, ident, uid, modseq, flags@);
        },
        UidIndexOp::MailDel(ident) => {
            lemma_unreg_keeps_wf(v, ident);
        },
        UidIndexOp::FlagAdd(ident, imodseq, flags) => {
            if v.table.contains_key(ident) {
                let (uid, _, existing) = v.table[ident];
                let bf = flag_insert(v.by_flag, uid, flags@);
                lemma_flag_insert_members(v.by_flag, uid, flags@);
                assert(v.by_uid[uid] == ident);
                assert forall|f: Seq<char>, u: u32| #[trigger] bf.contains_key(f) && #[trigger] bf[f].contains(u) implies (
                if u == uid {
                    existing.union(flags@).contains(f)
                } else {
                    v.by_flag.contains_key(f) && v.by_flag[f].contains(u)
                }) by {
                    if u == uid && v.by_flag.contains_key(f) && v.by_flag[f].contains(uid) {
                        assert(existing.contains(f));
                    }
                }
                assert forall|f: Seq<char>| #[trigger] existing.union(flags@).contains(f) implies bf.contains_key(f)
                    && bf[f].contains(uid) by {
                    if existing.contains(f) {
                        assert(v.by_flag[f].contains(uid));
                    }
                }
                assert forall|f: Seq<char>| #[trigger] bf.contains_key(f) implies bf[f] != Set::<u32>::empty() by {
                    if !flags@.contains(f) {
                        assert(v.by_flag[f] != Set::<u32>::empty());
                    } else {
                        assert(bf[f].contains(uid));
                    }
                }
                lemma_flag_change_keeps_wf(v, ident, imodseq, existing.union(flags@), bf);
            }
        },
        UidIndexOp::FlagDel(ident, imodseq, flags) => {
            if v.table.contains_key(ident) {
                let (uid, _, existing) = v.table[ident];
                let bf = flag_remove(v.by_flag, uid, flags@);
                lemma_flag_remove_members(v.by_flag, uid, flags@);
                assert(v.by_uid[uid] == ident);
                assert forall|f: Seq<char>, u: u32| #[trigger] bf.contains_key(f) && #[trigger] bf[f].contains(u) implies (
                if u == uid {
                    existing.difference(flags@).contains(f)
                } else {
                    v.by_flag.contains_key(f) && v.by_flag[f].contains(u)
                }) by {
                    if u == uid {
                        assert(v.by_flag.contains_key(f) && v.by_flag[f].contains(uid));
                        assert(existing.contains(f));
                    }
                }
                assert forall|f: Seq<char>| #[trigger] existing.difference(flags@).contains(f) implies bf.contains_key(
                    f,
                ) && bf[f].contains(uid) by {
                    assert(v.by_flag[f].contains(uid));
                }
                assert forall|f: Seq<char>| #[trigger] bf.contains_key(f) implies bf[f] != Set::<u32>::empty() by {
                    assert(v.by_flag[f] != Set::<u32>::empty());
                }
                assert forall|f: Seq<char>, u: u32| #[trigger] v.by_flag.contains_key(f) && #[trigger] v.by_flag[
                    f
                ].contains(u) && u != uid implies bf.contains_key(f) && bf[f].contains(u) by {
                    if flags@.contains(f) {
                        assert(v.by_flag[f].remove(uid).contains(u));
                    }
                }
                lemma_flag_change_keeps_wf(v, ident, imodseq, existing.difference(flags@), bf);
            }
        },
        UidIndexOp::FlagSet(ident, imodseq, flags) => {
            if v.table.contains_key(ident) {
                let (uid, _, existing) = v.table[ident];
                let rm = existing.difference(flags@);
                let b1 = flag_remove(v.by_flag, uid, rm);
                let bf = flag_insert(b1, uid, flags@);
                lemma_flag_remove_members(v.by_flag, uid, rm);
                lemma_flag_insert_members(b1, uid, flags@);
                assert(v.by_uid[uid] == ident);
                assert forall|f: Seq<char>, u: u32| #[trigger] bf.contains_key(f) && #[trigger] bf[f].contains(u) implies (
                if u == uid {
                    flags@.contains(f)
                } else {
                    v.by_flag.contains_key(f) && v.by_flag[f].contains(u)
                }) by {
                    if u == uid && b1.contains_key(f) && b1[f].contains(uid) {
                        assert(v.by_flag.contains_key(f) && v.by_flag[f].contains(uid));
                        assert(existing.contains(f));
                    }
                }
                assert forall|f: Seq<char>| #[trigger] flags@.contains(f) implies bf.contains_key(f) && bf[f].contains(
                    uid,
                ) by {}
                assert forall|f: Seq<char>| #[trigger] bf.contains_key(f) implies bf[f] != Set::<u32>::empty() by {
                    if flags@.contains(f) {
                        assert(bf[f].contains(uid));
                    } else {
                        assert(b1.contains_key(f));
                        assert(v.by_flag[f] != Set::<u32>::empty());
                    }
                }
                lemma_flag_change_keeps_wf(v, ident, imodseq, flags@, bf);
            }
        },
    }
}

/// No operation moves a counter backwards: UIDVALIDITY, the count of added
/// emails and the count of modifications never decrease.
pub proof fn law_apply_counters_monotone(v: UidView, op: UidIndexOp)
    requires
        op_ok(v, op),
    ensures
        view_apply(v, op).uidvalidity >= v.uidvalidity,
        view_apply(v, op).internalseq >= v.internalseq,
        view_apply(v, op).internalmodseq >= v.internalmodseq,
{
}

/// An email that another writer added without having seen every email or
/// modification this index holds makes UIDVALIDITY grow, so that clients
/// drop the UIDs they cached. (A distance of 2^32 modifications or more is
/// left out: it is cast to 32 bits.)
pub proof fn law_concurrent_add_bumps_validity(
    v: UidView,
    ident: UniqueIdent,
    iseq: u32,
    imodseq: u64,
    flags: super::flags::Flags,
)
    requires
        op_ok(v, UidIndexOp::MailAdd(ident, iseq, imodseq, flags)),
        iseq < v.internalseq || imodseq < v.internalmodseq,
        v.internalmodseq - imodseq <= u32::MAX,
    ensures
        view_apply(v, UidIndexOp::MailAdd(ident, iseq, imodseq, flags)).uidvalidity > v.uidvalidity,
{
}

/// An email added by a writer that had seen every email and modification
/// keeps UIDVALIDITY.
pub proof fn law_up_to_date_add_keeps_validity(v: UidView, ident: UniqueIdent, flags: super::flags::Flags)
    ensures
        view_apply(v, UidIndexOp::MailAdd(ident, v.internalseq, v.internalmodseq, flags)).uidvalidity
            == v.uidvalidity,
{
}

/// A new email gets a UID above every UID in use and a modification
/// sequence above every one in use, and becomes the last by sequence number.
pub proof fn law_added_email_is_newest(v: UidView, ident: UniqueIdent, iseq: u32, imodseq: u64, flags: super::flags::Flags)
    requires
        uid_wf(v),
        op_ok(v, UidIndexOp::MailAdd(ident, iseq, imodseq, flags)),
    ensures
        ({
            let w = view_apply(v, UidIndexOp::MailAdd(ident, iseq, imodseq, flags));
            &&& w.table.contains_key(ident)
            &&& w.table[ident] == ((v.internalseq + 1) as u32, (v.internalmodseq + 2) as u64, flags@)
            &&& forall|u: u32| #[trigger] v.by_uid.contains_key(u) ==> u < w.table[ident].0
            &&& forall|m: u64| #[trigger] v.by_modseq.contains_key(m) ==> m < w.table[ident].1
            &&& w.by_seqid.last() == ident
            &&& w.seqid_of[ident] == w.by_seqid.len()
        }),
{
    assert forall|u: u32| #[trigger] v.by_uid.contains_key(u) implies u < v.internalseq + 1 by {
        assert(v.table.contains_key(v.by_uid[u]));
    }
    assert forall|m: u64| #[trigger] v.by_modseq.contains_key(m) implies m < v.internalmodseq + 2 by {
        assert(v.table.contains_key(v.by_modseq[m]));
    }
}

/// The identifiers among the first `k` stored emails.
pub open spec fn stored_idents(mails: Seq<(u32, u64, UniqueIdent, super::flags::Flags)>, k: int) -> Set<UniqueIdent> {
    Set::new(|id: UniqueIdent| exists|i: int| 0 <= i < k && #[trigger] mails[i].2 == id)
}

/// The part of a UID map that points into `s`.
pub open spec fn uid_part(v: UidView, s: Set<UniqueIdent>) -> Map<u32, UniqueIdent> {
    v.by_uid.restrict(Set::new(|u: u32| v.by_uid.contains_key(u) && s.contains(v.by_uid[u])))
}

/// The part of a modification-sequence map that points into `s`.
pub open spec fn modseq_part(v: UidView, s: Set<UniqueIdent>) -> Map<u64, UniqueIdent> {
    v.by_modseq.restrict(Set::new(|m: u64| v.by_modseq.contains_key(m) && s.contains(v.by_modseq[m])))
}

/// The part of the flag index whose UIDs belong to emails of `s`; a flag
/// that none of them holds is absent.
pub open spec fn flag_part(v: UidView, s: Set<UniqueIdent>) -> Map<Seq<char>, Set<u32>> {
    Map::new(
        |f: Seq<char>| v.by_flag.contains_key(f) && exists|u: u32| #[trigger] v.by_flag[f].contains(u) && s.contains(v.by_uid[u]),
        |f: Seq<char>| v.by_flag[f].filter(|u: u32| s.contains(v.by_uid[u])),
    )
}

/// Loading the first `k` stored emails rebuilds the part of the index that
/// belongs to them.
proof fn lemma_load_prefix(v: UidView, mails: Seq<(u32, u64, UniqueIdent, super::flags::Flags)>, k: int)
    requires
        uid_wf(v),
        lists_table(v, mails),
        0 <= k <= mails.len(),
    ensures
        ({
            let w = view_load(view_with_counters(v.uidvalidity, v.internalseq, v.internalmodseq), mails.take(k));
            let s = stored_idents(mails, k);
            &&& w.table == v.table.restrict(s)
            &&& w.by_uid == uid_part(v, s)
            &&& w.by_modseq == modseq_part(v, s)
            &&& w.by_flag == flag_part(v, s)
            &&& w.by_seqid == mails.take(k).map_values(|m: (u32, u64, UniqueIdent, super::flags::Flags)| m.2)
            &&& w.uidvalidity == v.uidvalidity
            &&& w.internalseq == v.internalseq
            &&& w.internalmodseq == v.internalmodseq
        }),
    decreases k,
{
    let base = view_with_counters(v.uidvalidity, v.internalseq, v.internalmodseq);
    let s = stored_idents(mails, k);
    let w = view_load(base, mails.take(k));
    if k == 0 {
        assert(s =~= Set::<UniqueIdent>::empty());
        assert(v.table.restrict(s) =~= Map::<UniqueIdent, MailView>::empty());
        assert(uid_part(v, s) =~= Map::<u32, UniqueIdent>::empty());
        assert(modseq_part(v, s) =~= Map::<u64, UniqueIdent>::empty());
        assert(flag_part(v, s) =~= Map::<Seq<char>, Set<u32>>::empty());
        assert(mails.take(0).map_values(|m: (u32, u64, UniqueIdent, super::flags::Flags)| m.2) =~= Seq::<UniqueIdent>::empty());
    } else {
        lemma_load_prefix(v, mails, k - 1);
        let s0 = stored_idents(mails, k - 1);
        let m = mails[k - 1];
        let id = m.2;
        let uid = m.0;
        let mq = m.1;
        assert(mails.take(k).drop_last() == mails.take(k - 1));
        assert(mails.take(k).last() == m);
        let w0 = view_load(base, mails.take(k - 1));
        assert(w == view_reg_email(w0, id, uid, mq, m.3@));
        assert(s =~= s0.insert(id)) by {
            assert forall|x: UniqueIdent| s.contains(x) <==> (x == id || s0.contains(x)) by {
                if s.contains(x) {
                    let i = choose|i: int| 0 <= i < k && #[trigger] mails[i].2 == x;
                    if i < k - 1 {
                        assert(s0.contains(x));
                    }
                }
                if s0.contains(x) {
                    let i = choose|i: int| 0 <= i < k - 1 && #[trigger] mails[i].2 == x;
                    assert(s.contains(x));
                }
                if x == id {
                    assert(mails[k - 1].2 == x);
                }
            }
        }
        assert(!s0.contains(id)) by {
            if s0.contains(id) {
                let i = choose|i: int| 0 <= i < k - 1 && #[trigger] mails[i].2 == id;
                assert(mails[i].2 != mails[k - 1].2);
            }
        }
        assert(v.table.contains_key(id));
        assert(v.table[id] == (uid, mq, m.3@));
        assert(v.by_uid[uid] == id);
        assert(v.by_modseq[mq] == id);
        assert(w.table =~= v.table.restrict(s));
        assert(w.by_uid =~= uid_part(v, s)) by {
            assert forall|u: u32| #[trigger] v.by_uid.contains_key(u) && v.by_uid[u] == id implies u == uid by {
                assert(v.table[v.by_uid[u]].0 == u);
            }
        }
        assert(w.by_modseq =~= modseq_part(v, s)) by {
            assert forall|q: u64| #[trigger] v.by_modseq.contains_key(q) && v.by_modseq[q] == id implies q == mq by {
                assert(v.table[v.by_modseq[q]].1 == q);
            }
        }
        let fp0 = flag_part(v, s0);
        let fp = flag_part(v, s);
        assert(w.by_flag == flag_insert(fp0, uid, m.3@));
        assert forall|f: Seq<char>| #[trigger] w.by_flag.contains_key(f) <==> fp.contains_key(f) by {
            if m.3@.contains(f) {
                assert(v.table[id].2.contains(f));
                assert(v.by_flag[f].contains(uid));
                assert(s.contains(v.by_uid[uid]));
            }
            if fp0.contains_key(f) {
                let u = choose|u: u32| #[trigger] v.by_flag[f].contains(u) && s0.contains(v.by_uid[u]);
                assert(s.contains(v.by_uid[u]));
            }
            if fp.contains_key(f) {
                let u = choose|u: u32| #[trigger] v.by_flag[f].contains(u) && s.contains(v.by_uid[u]);
                if !s0.contains(v.by_uid[u]) {
                    assert(v.by_uid[u] == id);
                    assert(v.table[v.by_uid[u]].2.contains(f));
                }
            }
        }
        assert forall|f: Seq<char>| #[trigger] w.by_flag.contains_key(f) implies w.by_flag[f] =~= fp[f] by {
            assert forall|u: u32| w.by_flag[f].contains(u) <==> fp[f].contains(u) by {
                if v.by_flag.contains_key(f) && v.by_flag[f].contains(u) {
                    assert(v.by_uid.contains_key(u));
                    if v.by_uid[u] == id {
                        assert(v.table[v.by_uid[u]].0 == u);
                        assert(v.table[id].2.contains(f));
                    }
                }
                if m.3@.contains(f) {
                    assert(v.table[id].2.contains(f));
                    assert(v.by_flag[f].contains(uid));
                }
            }
        }
        assert(w.by_flag =~= fp);
        let g = |x: (u32, u64, UniqueIdent, super::flags::Flags)| x.2;
        assert(w.by_seqid =~= mails.take(k).map_values(g));
    }
}

/// Loading the stored form of an index gives back its emails, its UID,
/// modification-sequence and flag indexes and its counters; sequence
/// numbers follow the stored order.
pub proof fn law_reload_keeps_emails(v: UidView, mails: Seq<(u32, u64, UniqueIdent, super::flags::Flags)>)
    requires
        uid_wf(v),
        lists_table(v, mails),
    ensures
        ({
            let w = view_load(view_with_counters(v.uidvalidity, v.internalseq, v.internalmodseq), mails);
            &&& w.table == v.table
            &&& w.by_uid == v.by_uid
            &&& w.by_modseq == v.by_modseq
            &&& w.by_flag == v.by_flag
            &&& w.by_seqid == mails.map_values(|m: (u32, u64, UniqueIdent, super::flags::Flags)| m.2)
            &&& w.uidvalidity == v.uidvalidity
            &&& w.internalseq == v.internalseq
            &&& w.internalmodseq == v.internalmodseq
        }),
{
    let n = mails.len() as int;
    lemma_load_prefix(v, mails, n);
    assert(mails.take(n) == mails);
    let s = stored_idents(mails, n);
    assert(s =~= v.table.dom()) by {
        assert forall|x: UniqueIdent| s.contains(x) implies v.table.contains_key(x) by {
            let i = choose|i: int| 0 <= i < n && #[trigger] mails[i].2 == x;
        }
        assert forall|x: UniqueIdent| v.table.contains_key(x) implies s.contains(x) by {
            let i = choose|i: int| 0 <= i < n && #[trigger] mails[i].2 == x;
        }
    }
    assert(v.table.restrict(s) =~= v.table);
    assert(uid_part(v, s) =~= v.by_uid) by {
        assert forall|u: u32| v.by_uid.contains_key(u) implies s.contains(v.by_uid[u]) by {
            assert(v.table.contains_key(v.by_uid[u]));
        }
    }
    assert(modseq_part(v, s) =~= v.by_modseq) by {
        assert forall|q: u64| v.by_modseq.contains_key(q) implies s.contains(v.by_modseq[q]) by {
            assert(v.table.contains_key(v.by_modseq[q]));
        }
    }
    assert forall|f: Seq<char>| #[trigger] v.by_flag.contains_key(f) implies flag_part(v, s).contains_key(f)
        && flag_part(v, s)[f] =~= v.by_flag[f] by {
        assert(v.by_flag[f] != Set::<u32>::empty());
        assert(exists|x: u32| v.by_flag[f].contains(x)) by {
            if !(exists|x: u32| v.by_flag[f].contains(x)) {
                assert(v.by_flag[f] =~= Set::<u32>::empty());
            }
        }
        let u = v.by_flag[f].choose();
        assert(v.by_flag[f].contains(u));
        assert(v.by_uid.contains_key(u));
        assert(s.contains(v.by_uid[u]));
        assert forall|x: u32| v.by_flag[f].contains(x) implies s.contains(v.by_uid[x]) by {
            assert(v.by_uid.contains_key(x));
        }
    }
    assert(flag_part(v, s) =~= v.by_flag);
}

/// On a well-formed index, `apply` takes every operation whose counters do
/// not overflow.
pub proof fn law_wf_index_fits(v: UidView, op: UidIndexOp)
    requires
        uid_wf(v),
        op_ok(v, op),
    ensures
        op_fits(v, op),
{
    match op {
        UidIndexOp::MailDel(ident) => {
            if v.table.contains_key(ident) {
                let j = lemma_seqid_position(v, ident);
            }
        },
        _ => {},
    }
}


/// Whether the flag index lists the UID `u` under the flag `f`.
pub open spec fn flag_lists(m: Map<Seq<char>, Set<u32>>, f: Seq<char>, u: u32) -> bool {
    m.contains_key(f) && m[f].contains(u)
}

/// Removing flags from an email keeps its UID, leaves it exactly its
/// previous flags minus the removed ones, takes its UID out of the index
/// entry of every removed flag, and leaves the index entries of the other
/// flags as they were for it.
pub proof fn law_flag_del(v: UidView, ident: UniqueIdent, imodseq: u64, flags: super::flags::Flags)
    requires
        v.table.contains_key(ident),
    ensures
        ({
            let w = view_apply(v, UidIndexOp::FlagDel(ident, imodseq, flags));
            let uid = v.table[ident].0;
            &&& w.table.contains_key(ident) && w.table[ident].0 == uid
            &&& forall|f: Seq<char>| #[trigger] w.table[ident].2.contains(f) <==> (v.table[ident].2.contains(f) && !flags@.contains(f))
            &&& forall|f: Seq<char>| flags@.contains(f) ==> !#[trigger] flag_lists(w.by_flag, f, uid)
            &&& forall|f: Seq<char>, u: u32| !flags@.contains(f) || u != uid ==> (#[trigger] flag_lists(w.by_flag, f, u) == flag_lists(v.by_flag, f, u))
        }),
{
    let w = view_apply(v, UidIndexOp::FlagDel(ident, imodseq, flags));
    let uid = v.table[ident].0;
    assert forall|f: Seq<char>, u: u32| !flags@.contains(f) || u != uid implies (#[trigger] flag_lists(w.by_flag, f, u)
        == flag_lists(v.by_flag, f, u)) by {
        if flags@.contains(f) && v.by_flag.contains_key(f) && v.by_flag[f].contains(u) {
            assert(v.by_flag[f].remove(uid).contains(u));
        }
    }
}

/// Adding flags to an email keeps its UID, gives it exactly its previous
/// flags and the added ones, lists its UID under every added flag, and
/// leaves the index entries of the other flags as they were.
pub proof fn law_flag_add(v: UidView, ident: UniqueIdent, imodseq: u64, flags: super::flags::Flags)
    requires
        v.table.contains_key(ident),
    ensures
        ({
            let w = view_apply(v, UidIndexOp::FlagAdd(ident, imodseq, flags));
            let uid = v.table[ident].0;
            &&& w.table.contains_key(ident) && w.table[ident].0 == uid
            &&& forall|f: Seq<char>| #[trigger] w.table[ident].2.contains(f) <==> (v.table[ident].2.contains(f) || flags@.contains(f))
            &&& forall|f: Seq<char>| flags@.contains(f) ==> #[trigger] flag_lists(w.by_flag, f, uid)
            &&& forall|f: Seq<char>, u: u32| !flags@.contains(f) || u != uid ==> (#[trigger] flag_lists(w.by_flag, f, u) == flag_lists(v.by_flag, f, u))
        }),
{
}

/// Setting the flags of an email keeps its UID, gives it exactly the set
/// flags, lists its UID under each of them and under none of the flags it
/// loses, and leaves the index entries of other UIDs as they were.
pub proof fn law_flag_set(v: UidView, ident: UniqueIdent, imodseq: u64, flags: super::flags::Flags)
    requires
        v.table.contains_key(ident),
    ensures
        ({
            let w = view_apply(v, UidIndexOp::FlagSet(ident, imodseq, flags));
            let uid = v.table[ident].0;
            &&& w.table.contains_key(ident) && w.table[ident].0 == uid
            &&& forall|f: Seq<char>| #[trigger] w.table[ident].2.contains(f) <==> flags@.contains(f)
            &&& forall|f: Seq<char>| flags@.contains(f) ==> #[trigger] flag_lists(w.by_flag, f, uid)
            &&& forall|f: Seq<char>| v.table[ident].2.contains(f) && !flags@.contains(f) ==> !#[trigger] flag_lists(w.by_flag, f, uid)
            &&& forall|f: Seq<char>, u: u32| u != uid ==> (#[trigger] flag_lists(w.by_flag, f, u) == flag_lists(v.by_flag, f, u))
        }),
{
    let w = view_apply(v, UidIndexOp::FlagSet(ident, imodseq, flags));
    let uid = v.table[ident].0;
    let existing = v.table[ident].2;
    let r = flag_remove(v.by_flag, uid, existing.difference(flags@));
    assert forall|f: Seq<char>, u: u32| u != uid implies (#[trigger] flag_lists(w.by_flag, f, u) == flag_lists(v.by_flag, f, u)) by {
        if existing.difference(flags@).contains(f) && v.by_flag.contains_key(f) && v.by_flag[f].contains(u) {
            assert(v.by_flag[f].remove(uid).contains(u));
        }
        if flag_lists(w.by_flag, f, u) && !flags@.contains(f) {
            assert(flag_lists(r, f, u));
        }
        if flag_lists(w.by_flag, f, u) && flags@.contains(f) && r.contains_key(f) {
            assert(r[f].contains(u));
        }
    }
}

/// Deleting an email takes it out of the table and its UID out of the UID
/// index and of the index entry of each of its flags; every other email
/// stays as it was.
pub proof fn law_mail_del(v: UidView, ident: UniqueIdent)
    requires
        v.table.contains_key(ident),
    ensures
        ({
            let w = view_apply(v, UidIndexOp::MailDel(ident));
            let (uid, _, fl) = v.table[ident];
            &&& !w.table.contains_key(ident)
            &&& !w.by_uid.contains_key(uid)
            &&& forall|f: Seq<char>| fl.contains(f) ==> !#[trigger] flag_lists(w.by_flag, f, uid)
            &&& forall|k: UniqueIdent| k != ident ==> (#[trigger] w.table.contains_key(k) == v.table.contains_key(k)
                && (v.table.contains_key(k) ==> w.table[k] == v.table[k]))
        }),
{
}

/// Adding an email gives it the next UID and the given flags, and lists
/// that UID under each of its flags; every other email stays.
pub proof fn law_mail_add(v: UidView, ident: UniqueIdent, iseq: u32, imodseq: u64, flags: super::flags::Flags)
    ensures
        ({
            let w = view_apply(v, UidIndexOp::MailAdd(ident, iseq, imodseq, flags));
            let uid = (v.internalseq + 1) as u32;
            &&& w.table.contains_key(ident) && w.table[ident].0 == uid && w.table[ident].2 == flags@
            &&& w.by_uid.contains_key(uid) && w.by_uid[uid] == ident
            &&& forall|f: Seq<char>| flags@.contains(f) ==> #[trigger] flag_lists(w.by_flag, f, uid)
            &&& forall|k: UniqueIdent| k != ident ==> (#[trigger] w.table.contains_key(k) == v.table.contains_key(k)
                && (v.table.contains_key(k) ==> w.table[k] == v.table[k]))
        }),
{
}


/// A flag operation on an email gives it a fresh MODSEQ, one above the
/// highest handed out before, indexed to it in place of its old one; it
/// advances the MODSEQ counter by one, raises UIDVALIDITY by how far the
/// writer's MODSEQ was behind (not at all when it was not), and touches
/// neither UIDs nor sequence numbers.
pub proof fn law_flag_counters(v: UidView, op: UidIndexOp)
    requires
        op_ok(v, op),
    ensures
        match op {
            UidIndexOp::FlagAdd(ident, imodseq, _) | UidIndexOp::FlagDel(ident, imodseq, _) | UidIndexOp::FlagSet(
                ident,
                imodseq,
                _,
            ) => v.table.contains_key(ident) ==> {
                let w = view_apply(v, op);
                &&& w.internalmodseq == v.internalmodseq + 1
                &&& w.internalseq == v.internalseq
                &&& w.table[ident].1 == v.internalmodseq + 2
                &&& w.by_modseq.contains_key((v.internalmodseq + 2) as u64) && w.by_modseq[(v.internalmodseq + 2) as u64] == ident
                &&& (w.by_modseq.contains_key(v.table[ident].1) ==> v.table[ident].1 == v.internalmodseq + 2)
                &&& w.uidvalidity == if imodseq < v.internalmodseq {
                    v.uidvalidity + ((v.internalmodseq - imodseq) as u32)
                } else {
                    v.uidvalidity as int
                }
                &&& w.by_uid == v.by_uid
                &&& w.by_seqid == v.by_seqid
                &&& w.seqid_of == v.seqid_of
            },
            _ => true,
        },
{
}

/// Adding an email gives it the next UID and a fresh MODSEQ, one above the
/// highest handed out before, and the next sequence number after the last
/// email; it advances both counters by one and raises UIDVALIDITY by how
/// far the writer's counters were behind when either was.
pub proof fn law_mail_add_counters(v: UidView, ident: UniqueIdent, iseq: u32, imodseq: u64, flags: super::flags::Flags)
    requires
        op_ok(v, UidIndexOp::MailAdd(ident, iseq, imodseq, flags)),
        op_fits(v, UidIndexOp::MailAdd(ident, iseq, imodseq, flags)),
    ensures
        ({
            let w = view_apply(v, UidIndexOp::MailAdd(ident, iseq, imodseq, flags));
            &&& w.internalseq == v.internalseq + 1
            &&& w.internalmodseq == v.internalmodseq + 1
            &&& w.table[ident] == (w.internalseq, (v.internalmodseq + 2) as u64, flags@)
            &&& w.by_modseq.contains_key((v.internalmodseq + 2) as u64) && w.by_modseq[(v.internalmodseq + 2) as u64] == ident
            &&& w.by_seqid.len() == v.by_seqid.len() + 1 && w.by_seqid.last() == ident
            &&& forall|i: int| 0 <= i < v.by_seqid.len() ==> #[trigger] w.by_seqid[i] == v.by_seqid[i]
            &&& w.seqid_of.contains_key(ident) && w.seqid_of[ident] == w.by_seqid.len()
            &&& w.uidvalidity == if iseq < v.internalseq || imodseq < v.internalmodseq {
                v.uidvalidity + (v.internalseq - iseq) + ((v.internalmodseq - imodseq) as u32)
            } else {
                v.uidvalidity as int
            }
        }),
{
}

/// Deleting an email takes it out of the sequence: the emails after it
/// move up by one place, the others keep theirs.
pub proof fn law_mail_del_sequence(v: UidView, ident: UniqueIdent)
    requires
        v.table.contains_key(ident),
        op_fits(v, UidIndexOp::MailDel(ident)),
    ensures
        ({
            let w = view_apply(v, UidIndexOp::MailDel(ident));
            let p = v.seqid_of[ident] - 1;
            &&& w.by_seqid.len() == v.by_seqid.len() - 1
            &&& forall|i: int| 0 <= i < p ==> #[trigger] w.by_seqid[i] == v.by_seqid[i]
            &&& forall|i: int| p <= i < w.by_seqid.len() ==> #[trigger] w.by_seqid[i] == v.by_seqid[i + 1]
            &&& w.internalseq == v.internalseq && w.internalmodseq == v.internalmodseq && w.uidvalidity == v.uidvalidity
        }),
{
    let w = view_apply(v, UidIndexOp::MailDel(ident));
    let seqid = v.seqid_of[ident];
    let seq2 = v.by_seqid.remove(seqid - 1);
    assert(w.by_seqid == seq2);
}

} // verus!
