//! The local copy of an operation log: a checkpointed state, then the
//! operations after it, some of them with the state they lead to.
use vstd::prelude::*;

use super::timestamp::{ts_less, ts_lt, Timestamp};

verus! {

/// Every this many operations, the history keeps the state an operation
/// leads to, so that a replay never starts far back.
pub const KEEP_STATE_EVERY: usize = 64;

/// A state that a log of operations builds.
pub trait BayouState: Sized {
    /// An operation of the log.
    type Op;

    /// What the state stands for.
    type Model;

    /// The model of this state.
    spec fn model(&self) -> Self::Model;

    /// The model of the state before any operation.
    spec fn initial_model() -> Self::Model;

    /// The model after an operation.
    spec fn step(m: Self::Model, op: Self::Op) -> Self::Model;

    /// Whether `apply` can take the operation in this model.
    spec fn accepts(m: Self::Model, op: Self::Op) -> bool;

    /// The state before any operation.
    fn initial() -> (r: Self)
        ensures
            r.model() == Self::initial_model(),
    ;

    /// A copy of the state.
    fn duplicate(&self) -> (r: Self)
        ensures
            r.model() == self.model(),
    ;

    /// Whether `apply` can take the operation.
    fn accepts_op(&self, op: &Self::Op) -> (r: bool)
        ensures
            r == Self::accepts(self.model(), *op),
    ;

    /// The state after the operation.
    fn apply(&self, op: &Self::Op) -> (r: Self)
        requires
            Self::accepts(self.model(), *op),
        ensures
            r.model() == Self::step(self.model(), *op),
    ;
}

/// The model after the operations, one after the other.
pub open spec fn fold<S: BayouState>(m: S::Model, ops: Seq<S::Op>) -> S::Model
    decreases ops.len(),
{
    if ops.len() == 0 {
        m
    } else {
        S::step(fold::<S>(m, ops.drop_last()), ops.last())
    }
}

/// Whether each operation is accepted in the model the ones before it lead to.
pub open spec fn accepted<S: BayouState>(m: S::Model, ops: Seq<S::Op>) -> bool
    decreases ops.len(),
{
    ops.len() == 0 || (accepted::<S>(m, ops.drop_last()) && S::accepts(fold::<S>(m, ops.drop_last()), ops.last()))
}

/// An entry of the history: when, what, and possibly the state it leads to.
pub type Entry<S> = (Timestamp, <S as BayouState>::Op, Option<S>);

/// The operations of a list of entries.
pub open spec fn op_seq<S: BayouState>(ops: Seq<Entry<S>>) -> Seq<S::Op> {
    ops.map_values(|e: Entry<S>| e.1)
}

/// The history of a log: a checkpoint (its timestamp and state), then the
/// operations after it in timestamp order.
pub struct History<S: BayouState> {
    pub checkpoint: (Timestamp, S),
    pub ops: Vec<Entry<S>>,
}

/// Whether the last entry, if any, holds its state.
pub open spec fn last_saved<S: BayouState>(ops: Seq<Entry<S>>) -> bool {
    ops.len() > 0 ==> ops.last().2 is Some
}

/// The model of the current state: that of the last entry, or of the
/// checkpoint when there is none.
pub open spec fn current_model<S: BayouState>(h: &History<S>) -> S::Model {
    if h.ops@.len() == 0 {
        h.checkpoint.1.model()
    } else {
        match h.ops@.last().2 {
            Some(s) => s.model(),
            None => h.checkpoint.1.model(),
        }
    }
}

/// The timestamp of the last entry, or the checkpoint's.
pub open spec fn current_ts<S: BayouState>(h: &History<S>) -> Timestamp {
    if h.ops@.len() == 0 {
        h.checkpoint.0
    } else {
        h.ops@.last().0
    }
}

/// Whether the history agrees with its log: the entries are in timestamp
/// order and none is before the checkpoint, every operation is accepted in
/// turn, every kept state is the replay of the checkpoint up to its entry,
/// and the last entry keeps its state.
pub open spec fn consistent<S: BayouState>(h: &History<S>) -> bool {
    let ck = h.checkpoint.1.model();
    let ops = h.ops@;
    &&& forall|i: int| 0 <= i < ops.len() ==> !ts_lt(#[trigger] ops[i].0, h.checkpoint.0)
    &&& forall|i: int, j: int| 0 <= i < j < ops.len() ==> !ts_lt(#[trigger] ops[j].0, #[trigger] ops[i].0)
    &&& accepted::<S>(ck, op_seq::<S>(ops))
    &&& forall|i: int|
        0 <= i < ops.len() ==> match #[trigger] ops[i].2 {
            Some(s) => s.model() == fold::<S>(ck, op_seq::<S>(ops).take(i + 1)),
            None => true,
        }
    &&& last_saved::<S>(ops)
}

/// Replaying one more operation steps the replay.
pub proof fn lemma_fold_push<S: BayouState>(m: S::Model, ops: Seq<S::Op>, op: S::Op)
    ensures
        fold::<S>(m, ops.push(op)) == S::step(fold::<S>(m, ops), op),
        accepted::<S>(m, ops.push(op)) == (accepted::<S>(m, ops) && S::accepts(fold::<S>(m, ops), op)),
{
    assert(ops.push(op).drop_last() == ops);
}

/// A replay over a prefix, then over the rest, is the replay over the whole.
pub proof fn lemma_fold_append<S: BayouState>(m: S::Model, a: Seq<S::Op>, b: Seq<S::Op>)
    ensures
        fold::<S>(m, a + b) == fold::<S>(fold::<S>(m, a), b),
        accepted::<S>(m, a + b) == (accepted::<S>(m, a) && accepted::<S>(fold::<S>(m, a), b)),
    decreases b.len(),
{
    if b.len() == 0 {
        assert(a + b == a);
    } else {
        lemma_fold_append::<S>(m, a, b.drop_last());
        assert((a + b).drop_last() == a + b.drop_last());
        assert((a + b).last() == b.last());
    }
}

/// In a consistent history the current state is the replay of the whole
/// log from the checkpoint.
pub proof fn law_current_state_is_replay<S: BayouState>(h: &History<S>)
    requires
        consistent(h),
    ensures
        current_model(h) == fold::<S>(h.checkpoint.1.model(), op_seq::<S>(h.ops@)),
{
    let n = h.ops@.len();
    if n > 0 {
        let e = h.ops@[n - 1];
        assert(op_seq::<S>(h.ops@).take(n as int) == op_seq::<S>(h.ops@));
    }
}

/// Recording an accepted operation keeps the history consistent.
proof fn lemma_push_keeps_consistent<S: BayouState>(old: &History<S>, new: &History<S>, ts: Timestamp, op: S::Op)
    requires
        consistent(old),
        S::accepts(current_model(old), op),
        !ts_lt(ts, current_ts(old)),
        new.checkpoint == old.checkpoint,
        new.ops@.len() == old.ops@.len() + 1,
        forall|i: int| 0 <= i < old.ops@.len() ==> #[trigger] new.ops@[i].1 == old.ops@[i].1,
        forall|i: int| 0 <= i < old.ops@.len() ==> #[trigger] new.ops@[i].0 == old.ops@[i].0,
        new.ops@.last().0 == ts,
        forall|i: int|
            0 <= i < old.ops@.len() ==> #[trigger] new.ops@[i].2 == old.ops@[i].2 || new.ops@[i].2 is None,
        new.ops@.last().1 == op,
        match new.ops@.last().2 {
            Some(s) => s.model() == S::step(current_model(old), op),
            None => false,
        },
    ensures
        consistent(new),
{
    let ck = old.checkpoint.1.model();
    let n = old.ops@.len();
    law_current_state_is_replay(old);
    assert forall|i: int, j: int| 0 <= i < j < new.ops@.len() implies !ts_lt(
        #[trigger] new.ops@[j].0,
        #[trigger] new.ops@[i].0,
    ) by {
        if j == n && i < n - 1 {
            assert(!ts_lt(old.ops@[n - 1].0, old.ops@[i].0));
        }
    }
    assert(op_seq::<S>(new.ops@) =~= op_seq::<S>(old.ops@).push(op));
    lemma_fold_push::<S>(ck, op_seq::<S>(old.ops@), op);
    assert forall|i: int| 0 <= i < new.ops@.len() implies match #[trigger] new.ops@[i].2 {
        Some(s) => s.model() == fold::<S>(ck, op_seq::<S>(new.ops@).take(i + 1)),
        None => true,
    } by {
        if i < n {
            assert(op_seq::<S>(new.ops@).take(i + 1) =~= op_seq::<S>(old.ops@).take(i + 1));
            if new.ops@[i].2 is Some {
                assert(new.ops@[i].2 == old.ops@[i].2);
            }
        } else {
            assert(op_seq::<S>(new.ops@).take(i + 1) =~= op_seq::<S>(new.ops@));
        }
    }
}

impl<S: BayouState> History<S> {
    /// An empty history: the zero timestamp and the initial state.
    pub fn new() -> (r: Self)
        ensures
            r.checkpoint.0.msec == 0 && r.checkpoint.0.rand == 0,
            r.checkpoint.1.model() == S::initial_model(),
            r.ops@.len() == 0,
            consistent(&r),
    {
        History { checkpoint: (Timestamp::zero(), S::initial()), ops: Vec::new() }
    }

    /// The current state: that of the last operation, or the checkpoint's.
    pub fn current_state(&self) -> (r: &S)
        requires
            last_saved::<S>(self.ops@),
        ensures
            self.ops@.len() == 0 ==> *r == self.checkpoint.1,
            self.ops@.len() > 0 ==> Some(*r) == self.ops@.last().2,
            r.model() == current_model(self),
            consistent(self) ==> r.model() == fold::<S>(self.checkpoint.1.model(), op_seq::<S>(self.ops@)),
    {
        proof {
            if consistent(self) {
                law_current_state_is_replay(self);
            }
        }
        let n = self.ops.len();
        if n == 0 {
            &self.checkpoint.1
        } else {
            match &self.ops[n - 1].2 {
                Some(s) => s,
                None => &self.checkpoint.1,
            }
        }
    }

    /// The timestamp of the last operation, or the checkpoint's.
    pub fn current_timestamp(&self) -> (r: Timestamp)
        ensures
            r == if self.ops@.len() == 0 {
                self.checkpoint.0
            } else {
                self.ops@.last().0
            },
    {
        let n = self.ops.len();
        if n == 0 {
            self.checkpoint.0
        } else {
            self.ops[n - 1].0
        }
    }

    /// Records an operation made here: it is applied to the current state,
    /// which the new entry keeps; the entry before it drops its state unless
    /// its position is a multiple of `KEEP_STATE_EVERY`.
    pub fn push_op(&mut self, ts: Timestamp, op: S::Op)
        requires
            last_saved::<S>(old(self).ops@),
            S::accepts(current_model(old(self)), op),
        ensures
            final(self).checkpoint == old(self).checkpoint,
            final(self).ops@.len() == old(self).ops@.len() + 1,
            forall|i: int| 0 <= i < old(self).ops@.len() - 1 ==> #[trigger] final(self).ops@[i] == old(self).ops@[i],
            old(self).ops@.len() >= 1 ==> {
                let k = old(self).ops@.len() - 1;
                &&& final(self).ops@[k].0 == old(self).ops@[k].0
                &&& final(self).ops@[k].1 == old(self).ops@[k].1
                &&& final(self).ops@[k].2 == if (k + 1) % (KEEP_STATE_EVERY as int) == 0 {
                    old(self).ops@[k].2
                } else {
                    None
                }
            },
            final(self).ops@.last().0 == ts,
            final(self).ops@.last().1 == op,
            match final(self).ops@.last().2 {
                Some(s) => s.model() == S::step(current_model(old(self)), op),
                None => false,
            },
            consistent(old(self)) && !ts_lt(ts, current_ts(old(self))) ==> consistent(final(self)),
    {
        let ghost old_h = *self;
        let new_state = self.current_state().apply(&op);
        let n = self.ops.len();
        if n >= 1 && n % KEEP_STATE_EVERY != 0 {
            let last = self.ops.pop().unwrap();
            self.ops.push((last.0, last.1, None));
        }
        self.ops.push((ts, op, Some(new_state)));
        proof {
            if consistent(&old_h) && !ts_lt(ts, current_ts(&old_h)) {
                lemma_push_keeps_consistent(&old_h, &*self, ts, op);
            }
        }
    }
}

} // verus!
