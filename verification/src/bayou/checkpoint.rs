//! When to write a checkpoint, what it holds, which old ones to drop, and
//! the storage keys checkpoints live under.
use vstd::prelude::*;

use super::history::{accepted, consistent, fold, op_seq, BayouState, Entry, History};
use super::sort::{sort_by_ts, ts_sort};
use super::sync::{last_state_pos, model_at, SyncError};
use super::timestamp::{hex_lower, ts_bytes, ts_lt, ts_parse, Timestamp};
use crate::text::{chars_of, chars_to_string, lex_lt, push_char, seq_compare, starts_with};

verus! {

/// A checkpoint is not made less than this many milliseconds (six hours)
/// after the last one, nor at an operation younger than that.
pub const CHECKPOINT_INTERVAL_MS: u64 = 21600000;

/// A checkpoint is not made when fewer operations than this are old enough.
pub const CHECKPOINT_MIN_OPS: usize = 16;

/// How many checkpoints are kept in storage, so that replicas syncing while
/// another checkpoints still find theirs.
pub const CHECKPOINTS_TO_KEEP: usize = 3;

/// Whether an operation stamped `t` is old enough at time `now` to be
/// checkpointed.
pub open spec fn old_enough(t: Timestamp, now: u64) -> bool {
    now - t.msec >= CHECKPOINT_INTERVAL_MS
}

/// Whether `i` is the last entry old enough at time `now`.
pub open spec fn is_checkpoint_index<S: BayouState>(ops: Seq<Entry<S>>, now: u64, i: int) -> bool {
    &&& 0 <= i < ops.len()
    &&& old_enough(ops[i].0, now)
    &&& forall|k: int| i < k < ops.len() ==> !old_enough(#[trigger] ops[k].0, now)
}

/// Where the current time allows a checkpoint, if anywhere: the last
/// operation that is at least `CHECKPOINT_INTERVAL_MS` old, provided at least
/// `CHECKPOINT_MIN_OPS` operations come before it and the newest stored
/// checkpoint is at least that much older than it.
pub open spec fn checkpoint_plan<S: BayouState>(
    ops: Seq<Entry<S>>,
    now: u64,
    existing: Seq<(Timestamp, String)>,
) -> Option<(usize, Timestamp)> {
    if exists|i: int| is_checkpoint_index::<S>(ops, now, i) {
        let i = choose|i: int| is_checkpoint_index::<S>(ops, now, i);
        if i < CHECKPOINT_MIN_OPS {
            None
        } else if existing.len() > 0 && ops[i].0.msec - existing.last().0.msec < CHECKPOINT_INTERVAL_MS {
            None
        } else {
            Some((i as usize, ops[i].0))
        }
    } else {
        None
    }
}

impl<S: BayouState> History<S> {
    /// The last entry that is at least `CHECKPOINT_INTERVAL_MS` old at time
    /// `now`, if any.
    pub fn checkpoint_index(&self, now: u64) -> (r: Option<usize>)
        ensures
            match r {
                Some(i) => is_checkpoint_index::<S>(self.ops@, now, i as int),
                None => !exists|i: int| is_checkpoint_index::<S>(self.ops@, now, i),
            },
    {
        let mut i: usize = self.ops.len();
        while i > 0
            invariant
                i <= self.ops@.len(),
                forall|k: int| i <= k < self.ops@.len() ==> !old_enough(#[trigger] self.ops@[k].0, now),
            decreases i,
        {
            let t = self.ops[i - 1].0;
            if (now as i128) - (t.msec as i128) >= CHECKPOINT_INTERVAL_MS as i128 {
                return Some(i - 1);
            }
            i = i - 1;
        }
        proof {
            assert forall|j: int| !is_checkpoint_index::<S>(self.ops@, now, j) by {
                if 0 <= j < self.ops@.len() {
                    assert(!old_enough(self.ops@[j].0, now));
                }
            }
        }
        None
    }

    /// Where to checkpoint at time `now`, given the stored checkpoints in
    /// timestamp order: the index and timestamp of the operation, or none.
    pub fn plan_checkpoint(&self, now: u64, existing: &Vec<(Timestamp, String)>) -> (r: Option<(usize, Timestamp)>)
        ensures
            r == checkpoint_plan::<S>(self.ops@, now, existing@),
    {
        let i_cp = match self.checkpoint_index(now) {
            Some(i) => i,
            None => return None,
        };
        proof {
            let c = choose|i: int| is_checkpoint_index::<S>(self.ops@, now, i);
            assert(c == i_cp as int) by {
                if c < i_cp {
                    assert(!old_enough(self.ops@[i_cp as int].0, now));
                } else if c > i_cp {
                    assert(!old_enough(self.ops@[c].0, now));
                }
            }
        }
        if i_cp < CHECKPOINT_MIN_OPS {
            return None;
        }
        let ts_cp = self.ops[i_cp].0;
        let n = existing.len();
        if n > 0 {
            let last = existing[n - 1].0;
            if (ts_cp.msec as i128) - (last.msec as i128) < CHECKPOINT_INTERVAL_MS as i128 {
                return None;
            }
        }
        Some((i_cp, ts_cp))
    }

    /// The state a checkpoint at entry `i_cp` holds: that after the entries
    /// before it, rebuilt from the last kept state among them. An operation
    /// that cannot be applied is an error.
    pub fn state_at(&self, i_cp: usize) -> (r: Result<S, SyncError>)
        requires
            i_cp <= self.ops@.len(),
        ensures
            ({
                let j = last_state_pos::<S>(self.ops@, i_cp as int);
                let start = model_at(self, j);
                let ops = op_seq::<S>(self.ops@.subrange(j, i_cp as int));
                if accepted::<S>(start, ops) {
                    r matches Ok(s) && s.model() == fold::<S>(start, ops)
                } else {
                    r == Err::<S, SyncError>(SyncError::Rejected)
                }
            }),
            consistent(self) ==> (r matches Ok(s) && s.model() == fold::<S>(
                self.checkpoint.1.model(),
                op_seq::<S>(self.ops@).take(i_cp as int),
            )),
    {
        let mut last: usize = 0;
        let mut i: usize = 0;
        while i < i_cp
            invariant
                i <= i_cp <= self.ops@.len(),
                last <= i,
                last_state_pos::<S>(self.ops@, i as int) == last as int,
            decreases i_cp - i,
        {
            if self.ops[i].2.is_some() {
                last = i + 1;
            }
            i = i + 1;
        }
        let mut state = if last == 0 {
            self.checkpoint.1.duplicate()
        } else {
            match &self.ops[last - 1].2 {
                Some(s) => s.duplicate(),
                None => self.checkpoint.1.duplicate(),
            }
        };
        let ghost start = state.model();
        let ghost all = op_seq::<S>(self.ops@.subrange(last as int, i_cp as int));
        proof {
            assert(all.take(0) == Seq::<S::Op>::empty());
            assert(start == model_at(self, last as int));
        }
        let mut k: usize = last;
        while k < i_cp
            invariant
                last <= k <= i_cp <= self.ops@.len(),
                last == last_state_pos::<S>(self.ops@, i_cp as int),
                start == model_at(self, last as int),
                all == op_seq::<S>(self.ops@.subrange(last as int, i_cp as int)),
                accepted::<S>(start, all.take(k - last)),
                state.model() == fold::<S>(start, all.take(k - last)),
            decreases i_cp - k,
        {
            proof {
                assert(all[k - last] == self.ops@[k as int].1);
                super::sync::lemma_step::<S>(start, all, k - last);
            }
            if !state.accepts_op(&self.ops[k].1) {
                proof {
                    if consistent(self) {
                        lemma_state_at_consistent(self, i_cp as int, last as int);
                    }
                }
                return Err(SyncError::Rejected);
            }
            state = state.apply(&self.ops[k].1);
            k = k + 1;
        }
        proof {
            assert(all.take(i_cp - last) == all);
            if consistent(self) {
                lemma_state_at_consistent(self, i_cp as int, last as int);
            }
        }
        Ok(state)
    }
}

/// In a consistent history, the replay from the last kept state before
/// `i` is accepted and is the replay of the first `i` operations.
proof fn lemma_state_at_consistent<S: BayouState>(h: &History<S>, i: int, j: int)
    requires
        consistent(h),
        0 <= i <= h.ops@.len(),
        j == last_state_pos::<S>(h.ops@, i),
    ensures
        accepted::<S>(model_at(h, j), op_seq::<S>(h.ops@.subrange(j, i))),
        fold::<S>(model_at(h, j), op_seq::<S>(h.ops@.subrange(j, i))) == fold::<S>(
            h.checkpoint.1.model(),
            op_seq::<S>(h.ops@).take(i),
        ),
{
    super::sync::lemma_last_state_pos::<S>(h.ops@, i);
    let ck = h.checkpoint.1.model();
    let all = op_seq::<S>(h.ops@);
    assert(model_at(h, j) == fold::<S>(ck, all.take(j))) by {
        if j > 0 {
            assert(h.ops@[j - 1].2 is Some);
        } else {
            assert(all.take(0) == Seq::<S::Op>::empty());
        }
    }
    assert(all.take(i) == all.take(j) + op_seq::<S>(h.ops@.subrange(j, i)));
    super::history::lemma_fold_append::<S>(ck, all.take(j), op_seq::<S>(h.ops@.subrange(j, i)));
    assert(all.take(i) + all.skip(i) == all);
    super::history::lemma_fold_append::<S>(ck, all.take(i), all.skip(i));
}

proof fn lemma_lead_before_at<S: BayouState>(ops: Seq<Entry<S>>, i_cp: int, i: int)
    requires
        0 <= i <= i_cp < ops.len(),
        forall|a: int, b: int| 0 <= a < b < ops.len() ==> ts_lt(#[trigger] ops[a].0, #[trigger] ops[b].0),
    ensures
        super::sync::lead_before::<S>(ops, ops[i_cp].0, i) == i_cp,
    decreases i_cp - i,
{
    if i < i_cp {
        assert(ts_lt(ops[i].0, ops[i_cp].0));
        lemma_lead_before_at::<S>(ops, i_cp, i + 1);
    }
}


/// Where a checkpoint is planned at time `now`: at the last operation at
/// least `CHECKPOINT_INTERVAL_MS` old, with at least `CHECKPOINT_MIN_OPS`
/// operations before it, and only when the newest stored checkpoint (the
/// last in timestamp order) is at least `CHECKPOINT_INTERVAL_MS` older than
/// that operation; the older stored checkpoints play no part. No
/// checkpoint is planned when no operation is old enough.
pub proof fn law_checkpoint_plan<S: BayouState>(ops: Seq<Entry<S>>, now: u64, existing: Seq<(Timestamp, String)>)
    requires
        ops.len() <= usize::MAX,
    ensures
        forall|i: int|
            0 <= i < ops.len() && now - ops[i].0.msec >= CHECKPOINT_INTERVAL_MS && (forall|k: int|
                i < k < ops.len() ==> now - (#[trigger] ops[k]).0.msec < CHECKPOINT_INTERVAL_MS) ==> (
            #[trigger] checkpoint_plan::<S>(ops, now, existing) == if i < CHECKPOINT_MIN_OPS {
                None
            } else if existing.len() > 0 && ops[i].0.msec - existing[existing.len() - 1].0.msec
                < CHECKPOINT_INTERVAL_MS {
                None
            } else {
                Some((i as usize, ops[i].0))
            }),
        (forall|i: int| 0 <= i < ops.len() ==> now - (#[trigger] ops[i]).0.msec < CHECKPOINT_INTERVAL_MS) ==> checkpoint_plan::<S>(
            ops,
            now,
            existing,
        ) is None,
        checkpoint_plan::<S>(ops, now, existing) matches Some((i, t)) ==> {
            &&& i < ops.len()
            &&& t == ops[i as int].0
            &&& now - t.msec >= CHECKPOINT_INTERVAL_MS
            &&& i >= CHECKPOINT_MIN_OPS
            &&& existing.len() > 0 ==> t.msec - existing[existing.len() - 1].0.msec >= CHECKPOINT_INTERVAL_MS
        },
{
    assert forall|i: int|
        0 <= i < ops.len() && now - ops[i].0.msec >= CHECKPOINT_INTERVAL_MS && (forall|k: int|
            i < k < ops.len() ==> now - (#[trigger] ops[k]).0.msec < CHECKPOINT_INTERVAL_MS) implies (
        #[trigger] checkpoint_plan::<S>(ops, now, existing) == if i < CHECKPOINT_MIN_OPS {
            None
        } else if existing.len() > 0 && ops[i].0.msec - existing[existing.len() - 1].0.msec < CHECKPOINT_INTERVAL_MS {
            None
        } else {
            Some((i as usize, ops[i].0))
        }) by {
        assert(is_checkpoint_index::<S>(ops, now, i));
        let c = choose|c: int| is_checkpoint_index::<S>(ops, now, c);
        assert(c == i) by {
            if c < i {
                assert(!old_enough(ops[i].0, now));
            } else if c > i {
                assert(!old_enough(ops[c].0, now));
            }
        }
    }
    if checkpoint_plan::<S>(ops, now, existing) is Some {
        let c = choose|c: int| is_checkpoint_index::<S>(ops, now, c);
        assert(is_checkpoint_index::<S>(ops, now, c));
        assert(checkpoint_plan::<S>(ops, now, existing) == Some((c as usize, ops[c].0)));
        assert((c as usize) as int == c);
        if existing.len() > 0 {
            assert(existing.last() == existing[existing.len() - 1]);
        }
    }
    if forall|i: int| 0 <= i < ops.len() ==> now - (#[trigger] ops[i]).0.msec < CHECKPOINT_INTERVAL_MS {
        assert forall|c: int| !is_checkpoint_index::<S>(ops, now, c) by {
            if 0 <= c < ops.len() {
                assert(now - ops[c].0.msec < CHECKPOINT_INTERVAL_MS);
            }
        }
    }
}

/// A checkpoint written at entry `i_cp` of a consistent history whose
/// timestamps are distinct replaces exactly the entries before that entry:
/// the state `state_at(i_cp)` gives is the replay of the operations that
/// adopting the checkpoint at that entry's timestamp drops, which is what
/// `adopt_checkpoint` needs to keep the history consistent.
pub proof fn law_checkpoint_replaces_prefix<S: BayouState>(h: &History<S>, i_cp: int)
    requires
        consistent(h),
        0 <= i_cp < h.ops@.len(),
        forall|a: int, b: int| 0 <= a < b < h.ops@.len() ==> ts_lt(#[trigger] h.ops@[a].0, #[trigger] h.ops@[b].0),
    ensures
        super::sync::lead_before::<S>(h.ops@, h.ops@[i_cp].0, 0) == i_cp,
        op_seq::<S>(h.ops@.take(i_cp)) == op_seq::<S>(h.ops@).take(i_cp),
        !ts_lt(h.ops@[i_cp].0, h.checkpoint.0),
{
    lemma_lead_before_at::<S>(h.ops@, i_cp, 0);
    assert(op_seq::<S>(h.ops@.take(i_cp)) =~= op_seq::<S>(h.ops@).take(i_cp));
}

/// The stored checkpoints to drop once a new one is written, and the
/// timestamp before which stored operations go with them: only when more
/// than `CHECKPOINTS_TO_KEEP` would remain; then the oldest ones go, and the
/// operations before the oldest one kept.
pub fn checkpoints_to_drop(existing: &Vec<(Timestamp, String)>) -> (r: Option<(Vec<String>, Timestamp)>)
    ensures
        existing@.len() + 1 <= CHECKPOINTS_TO_KEEP ==> r is None,
        existing@.len() + 1 > CHECKPOINTS_TO_KEEP ==> {
            let last_to_keep = existing@.len() + 1 - CHECKPOINTS_TO_KEEP;
            r matches Some((keys, ts)) && keys@.len() == last_to_keep && (forall|i: int|
                0 <= i < last_to_keep ==> #[trigger] keys@[i] == existing@[i].1) && ts == existing@[last_to_keep].0
        },
{
    let n = existing.len();
    if n < CHECKPOINTS_TO_KEEP {
        return None;
    }
    let last_to_keep = n - (CHECKPOINTS_TO_KEEP - 1);
    let mut keys: Vec<String> = Vec::new();
    let mut i: usize = 0;
    while i < last_to_keep
        invariant
            i <= last_to_keep < existing@.len(),
            keys@.len() == i,
            forall|k: int| 0 <= k < i ==> #[trigger] keys@[k] == existing@[k].1,
        decreases last_to_keep - i,
    {
        keys.push(existing[i].1.clone());
        i = i + 1;
    }
    Some((keys, existing[last_to_keep].0))
}

/// The earliest time, after a try at `last_try` (milliseconds), at which
/// another checkpoint is tried: a fifth of the interval later.
pub const CHECKPOINT_RETRY_MS: u64 = 4320000;

/// Whether a checkpoint should be tried at time `now` (milliseconds on a
/// clock that does not go back), given when the last successful try was.
pub fn should_try_checkpoint(last_try: Option<u64>, now: u64) -> (r: bool)
    ensures
        r == match last_try {
            Some(t) => !(now >= t && now - t < CHECKPOINT_RETRY_MS) && !(now < t),
            None => true,
        },
{
    match last_try {
        Some(t) => {
            let elapsed: u64 = if now >= t { now - t } else { 0 };
            !(elapsed < CHECKPOINT_RETRY_MS)
        },
        None => true,
    }
}

/// The prefix of the storage keys of a log's checkpoints.
pub open spec fn checkpoint_prefix_of(path: Seq<char>) -> Seq<char> {
    path + seq!['/', 'c', 'h', 'e', 'c', 'k', 'p', 'o', 'i', 'n', 't', '/']
}

/// The prefix of the storage keys of the checkpoints of the log at `path`:
/// the path, then `/checkpoint/`.
pub fn checkpoint_prefix(path: &str) -> (r: String)
    ensures
        r@ == checkpoint_prefix_of(path@),
{
    let cs = chars_of(path);
    let mut r = chars_to_string(&cs, 0, cs.len());
    proof {
        assert(cs@.subrange(0, cs@.len() as int) == cs@);
    }
    let tail = "/checkpoint/";
    let ts = chars_of(tail);
    proof {
        reveal_strlit("/checkpoint/");
    }
    let mut i: usize = 0;
    while i < ts.len()
        invariant
            i <= ts@.len(),
            ts@ == seq!['/', 'c', 'h', 'e', 'c', 'k', 'p', 'o', 'i', 'n', 't', '/'],
            r@ == path@ + ts@.take(i as int),
        decreases ts@.len() - i,
    {
        push_char(&mut r, ts[i]);
        proof {
            assert(ts@.take(i + 1) == ts@.take(i as int).push(ts@[i as int]));
        }
        i = i + 1;
    }
    proof {
        assert(ts@.take(ts@.len() as int) == ts@);
    }
    r
}

/// The storage key of the checkpoint at `ts` of the log at `path`.
pub fn checkpoint_key(path: &str, ts: &Timestamp) -> (r: String)
    ensures
        r@ == checkpoint_prefix_of(path@) + hex_lower(ts_bytes(*ts)),
{
    let mut r = checkpoint_prefix(path);
    let t = ts.to_string();
    let cs = chars_of(t.as_str());
    let mut i: usize = 0;
    let ghost p = r@;
    while i < cs.len()
        invariant
            i <= cs@.len(),
            cs@ == hex_lower(ts_bytes(*ts)),
            p == checkpoint_prefix_of(path@),
            r@ == p + cs@.take(i as int),
        decreases cs@.len() - i,
    {
        push_char(&mut r, cs[i]);
        proof {
            assert(cs@.take(i + 1) == cs@.take(i as int).push(cs@[i as int]));
        }
        i = i + 1;
    }
    proof {
        assert(cs@.take(cs@.len() as int) == cs@);
    }
    r
}

/// The checkpoint a storage key names, if it names one: the key starts
/// with the prefix and the rest is a timestamp.
pub open spec fn checkpoint_of_key(prefix: Seq<char>, key: String) -> Option<(Timestamp, String)> {
    if prefix.len() <= key@.len() && key@.take(prefix.len() as int) == prefix {
        match ts_parse(vstd::utf8::encode_utf8(key@.skip(prefix.len() as int))) {
            Some(t) => Some((t, key)),
            None => None,
        }
    } else {
        None
    }
}

/// The checkpoints among storage keys, in key order.
pub open spec fn checkpoints_of_keys(prefix: Seq<char>, keys: Seq<String>) -> Seq<(Timestamp, String)>
    decreases keys.len(),
{
    if keys.len() == 0 {
        Seq::empty()
    } else {
        let prev = checkpoints_of_keys(prefix, keys.drop_last());
        match checkpoint_of_key(prefix, keys.last()) {
            Some(c) => prev.push(c),
            None => prev,
        }
    }
}


/// The checkpoints among the stored keys under `prefix`, by timestamp: the
/// keys that start with the prefix and go on with a timestamp, each with
/// its timestamp. Other keys are skipped.
pub fn list_checkpoints(prefix: &str, keys: Vec<String>) -> (r: Vec<(Timestamp, String)>)
    ensures
        r@ == ts_sort(checkpoints_of_keys(prefix@, keys@)),
{
    let pcs = chars_of(prefix);
    let ghost all = keys@;
    let mut rest = keys;
    let mut acc: Vec<(Timestamp, String)> = Vec::new();
    let mut k: usize = 0;
    assert(all.len() == rest.len());
    proof {
        assert(all.take(0) == Seq::<String>::empty());
    }
    while rest.len() > 0
        invariant
            k <= all.len() <= usize::MAX,
            pcs@ == prefix@,
            rest@ == all.skip(k as int),
            acc@ == checkpoints_of_keys(prefix@, all.take(k as int)),
        decreases rest@.len(),
    {
        let key = rest.remove(0);
        proof {
            assert(all.take(k + 1).drop_last() == all.take(k as int));
            assert(all.take(k + 1).last() == key);
            assert(all.skip(k as int).skip(1) == all.skip(k + 1));
        }
        let kcs = chars_of(key.as_str());
        if starts_with(&kcs, &pcs) {
            let rest_key = chars_to_string(&kcs, pcs.len(), kcs.len());
            proof {
                assert(kcs@.subrange(pcs@.len() as int, kcs@.len() as int) == key@.skip(prefix@.len() as int));
            }
            let rk = rest_key.as_str();
            match Timestamp::from_str(rk) {
                Ok(t) => {
                    acc.push((t, key));
                },
                Err(_) => {},
            }
        }
        k = k + 1;
    }
    proof {
        assert(all.take(all.len() as int) == all);
    }
    sort_by_ts(acc)
}

/// What the watcher of a log does with a batch of updated operation keys,
/// given the stored checkpoints in timestamp order: where to poll from next
/// (the newest checkpoint's key, or unchanged when there is none), and
/// whether to tell the replicas. It does not tell them when every updated
/// key sorts before the newest checkpoint's key: such updates are the
/// deletions that follow a checkpoint.
pub fn watch_decision(updated: &Vec<String>, checkpoints: &Vec<(Timestamp, String)>) -> (r: (Option<String>, bool))
    ensures
        checkpoints@.len() == 0 ==> r.0 is None && r.1,
        checkpoints@.len() > 0 ==> {
            let last = checkpoints@.last().1;
            &&& r.0 == Some(last)
            &&& r.1 == !(forall|i: int| 0 <= i < updated@.len() ==> lex_lt((#[trigger] updated@[i])@, last@))
        },
{
    let n = checkpoints.len();
    if n == 0 {
        return (None, true);
    }
    let last = checkpoints[n - 1].1.clone();
    let lcs = chars_of(last.as_str());
    let mut i: usize = 0;
    while i < updated.len()
        invariant
            i <= updated@.len(),
            checkpoints@.len() > 0,
            lcs@ == last@,
            last == checkpoints@.last().1,
            forall|k: int| 0 <= k < i ==> lex_lt((#[trigger] updated@[k])@, last@),
        decreases updated@.len() - i,
    {
        let ucs = chars_of(updated[i].as_str());
        if !(seq_compare(&ucs, &lcs) < 0) {
            return (Some(last), true);
        }
        i = i + 1;
    }
    (Some(last), false)
}

} // verus!
