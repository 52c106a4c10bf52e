//! Bringing the history up to date with what storage holds: which
//! checkpoint to use, which stored operations to take, and the replay.
use vstd::prelude::*;

use super::history::{
    accepted, consistent, current_model, fold, lemma_fold_append, lemma_fold_push, op_seq, BayouState, Entry,
    History, KEEP_STATE_EVERY,
};
use super::sort::{lemma_ts_sort, sort_by_ts, ts_sort, ts_sorted};
use super::timestamp::{ts_less, ts_lt, ts_parse, Timestamp};

verus! {

/// Why a sync failed.
#[derive(Debug)]
pub enum SyncError {
    /// The checkpoint in use is more recent than the newest stored one.
    CheckpointAhead,
    /// A stored operation's key is not a timestamp; the key is given.
    InvalidTimestamp(String),
    /// A stored operation does not have exactly one value; the count is given.
    BadValueCount(usize),
    /// A stored operation could not be read.
    Undecodable,
    /// Storage lists fewer operations than the history holds.
    OpsDisappeared,
    /// The first stored operation is not at the checkpoint's timestamp.
    CheckpointMismatch,
    /// An operation cannot be applied to the state it follows.
    Rejected,
}

/// A value stored under an operation's key, as storage gives it back.
pub enum RowValue<O> {
    /// An operation, read from its stored bytes.
    Value(O),
    /// Stored bytes that do not read as an operation.
    Undecodable,
    /// A deleted value.
    Tombstone,
}

/// Which checkpoint a sync uses.
#[derive(Debug)]
pub enum CheckpointChoice {
    /// Storage holds no checkpoint: the zero timestamp.
    Absent,
    /// The newest stored checkpoint is the one in use.
    Current(Timestamp),
    /// The newest stored checkpoint must be fetched from this key.
    Fetch(Timestamp, String),
}

/// Whether a timestamp is the zero one.
pub open spec fn is_zero(t: Timestamp) -> bool {
    t.msec == 0 && t.rand == 0
}

/// The number of leading entries stamped strictly before `t`, from `i` on.
pub open spec fn lead_before<S: BayouState>(ops: Seq<Entry<S>>, t: Timestamp, i: int) -> int
    decreases ops.len() - i,
{
    if 0 <= i < ops.len() && ts_lt(ops[i].0, t) {
        lead_before::<S>(ops, t, i + 1)
    } else {
        i
    }
}

proof fn lemma_lead_before<S: BayouState>(ops: Seq<Entry<S>>, t: Timestamp, i: int)
    requires
        0 <= i <= ops.len(),
    ensures
        i <= lead_before::<S>(ops, t, i) <= ops.len(),
        forall|k: int| i <= k < lead_before::<S>(ops, t, i) ==> ts_lt(#[trigger] ops[k].0, t),
        lead_before::<S>(ops, t, i) < ops.len() ==> !ts_lt(ops[lead_before::<S>(ops, t, i)].0, t),
    decreases ops.len() - i,
{
    if i < ops.len() && ts_lt(ops[i].0, t) {
        lemma_lead_before::<S>(ops, t, i + 1);
    }
}

/// The operations of the parsed rows, in row order; the first bad row
/// decides the error.
pub open spec fn parse_rows<O>(rows: Seq<(String, Vec<RowValue<O>>)>) -> Result<Seq<(Timestamp, O)>, SyncError>
    decreases rows.len(),
{
    if rows.len() == 0 {
        Ok(Seq::empty())
    } else {
        match parse_rows(rows.drop_last()) {
            Err(e) => Err(e),
            Ok(prev) => {
                let row = rows.last();
                match ts_parse(vstd::utf8::encode_utf8(row.0@)) {
                    None => Err(SyncError::InvalidTimestamp(row.0)),
                    Some(t) => if row.1@.len() != 1 {
                        Err(SyncError::BadValueCount(row.1@.len() as usize))
                    } else {
                        match row.1@[0] {
                            RowValue::Value(op) => Ok(prev.push((t, op))),
                            RowValue::Undecodable => Err(SyncError::Undecodable),
                            RowValue::Tombstone => Ok(prev),
                        }
                    },
                }
            },
        }
    }
}

/// Reads the stored rows of operations, in the order storage gives them,
/// and sorts the operations by timestamp. A row whose key is not a
/// timestamp, that has not one value, or whose value does not read, is an
/// error; a deleted value is skipped.
pub fn collect_ops<O>(rows: Vec<(String, Vec<RowValue<O>>)>) -> (r: Result<Vec<(Timestamp, O)>, SyncError>)
    ensures
        match parse_rows(rows@) {
            Ok(p) => r matches Ok(v) && v@ == ts_sort(p),
            Err(e) => r matches Err(e2) && e2 == e,
        },
{
    let ghost all = rows@;
    let mut rest = rows;
    let mut acc: Vec<(Timestamp, O)> = Vec::new();
    let mut k: usize = 0;
    assert(all.len() == rest.len());
    proof {
        assert(all.take(0) == Seq::<(String, Vec<RowValue<O>>)>::empty());
    }
    while rest.len() > 0
        invariant
            k <= all.len() <= usize::MAX,
            all == rows@,
            rest@ == all.skip(k as int),
            parse_rows(all.take(k as int)) == Ok::<Seq<(Timestamp, O)>, SyncError>(acc@),
        decreases rest@.len(),
    {
        let row = rest.remove(0);
        proof {
            assert(all.take(k + 1).drop_last() == all.take(k as int));
            assert(all.take(k + 1).last() == row);
            assert(all.skip(k as int).skip(1) == all.skip(k + 1));
        }
        let (key, mut vals) = row;
        let key_str = key.as_str();
        let ts = match Timestamp::from_str(key_str) {
            Ok(t) => t,
            Err(_) => {
                proof {
                    assert(key_str@ == key@);
                    assert(ts_parse(vstd::utf8::encode_utf8(key@)) is None);
                    assert(parse_rows(all.take(k + 1)) == Err::<Seq<(Timestamp, O)>, SyncError>(SyncError::InvalidTimestamp(key)));
                    lemma_parse_rows_err_stays(all, k + 1);
                }
                return Err(SyncError::InvalidTimestamp(key));
            },
        };
        if vals.len() != 1 {
            proof {
                lemma_parse_rows_err_stays(all, k + 1);
            }
            return Err(SyncError::BadValueCount(vals.len()));
        }
        let v = vals.pop().unwrap();
        match v {
            RowValue::Value(op) => {
                acc.push((ts, op));
            },
            RowValue::Undecodable => {
                proof {
                    lemma_parse_rows_err_stays(all, k + 1);
                }
                return Err(SyncError::Undecodable);
            },
            RowValue::Tombstone => {},
        }
        k = k + 1;
    }
    proof {
        assert(all.take(all.len() as int) == all);
    }
    Ok(sort_by_ts(acc))
}

/// Once the rows up to `k` give an error, all rows give the same one.
proof fn lemma_parse_rows_err_stays<O>(rows: Seq<(String, Vec<RowValue<O>>)>, k: int)
    requires
        0 <= k <= rows.len(),
        parse_rows(rows.take(k)) is Err,
    ensures
        parse_rows(rows) == parse_rows(rows.take(k)),
    decreases rows.len() - k,
{
    if k < rows.len() {
        assert(rows.take(k + 1).drop_last() == rows.take(k));
        lemma_parse_rows_err_stays(rows, k + 1);
    } else {
        assert(rows.take(k) == rows);
    }
}

impl<S: BayouState> History<S> {
    /// Which checkpoint to use, given the stored checkpoints in timestamp
    /// order: none if there is none, else the newest, to be fetched unless
    /// it is the one in use.
    pub fn choose_checkpoint(&self, listed: &Vec<(Timestamp, String)>) -> (r: CheckpointChoice)
        ensures
            listed@.len() == 0 ==> r is Absent,
            listed@.len() > 0 ==> {
                let last = listed@.last();
                if last.0 == self.checkpoint.0 {
                    r == CheckpointChoice::Current(last.0)
                } else {
                    r == CheckpointChoice::Fetch(last.0, last.1)
                }
            },
    {
        let n = listed.len();
        if n == 0 {
            CheckpointChoice::Absent
        } else {
            let (ts, key) = (listed[n - 1].0, listed[n - 1].1.clone());
            if ts.msec == self.checkpoint.0.msec && ts.rand == self.checkpoint.0.rand {
                CheckpointChoice::Current(ts)
            } else {
                CheckpointChoice::Fetch(ts, key)
            }
        }
    }

    /// Moves the history onto the checkpoint at `ts` (with its state when it
    /// was fetched), then drops the leading entries stamped before the
    /// checkpoint in use. A checkpoint older than the one in use is an error
    /// and changes nothing.
    ///
    /// The checkpoint's state is taken as the replay of the entries it
    /// replaces: storage is trusted not to have changed operations before a
    /// checkpoint. Under that trust the history stays consistent.
    pub fn adopt_checkpoint(&mut self, ts: Timestamp, loaded: Option<S>) -> (r: Result<(), SyncError>)
        ensures
            ts_lt(ts, old(self).checkpoint.0) <==> r is Err,
            r is Err ==> r == Err::<(), SyncError>(SyncError::CheckpointAhead) && *final(self) == *old(self),
            r is Ok ==> {
                &&& final(self).checkpoint == match loaded {
                    Some(s) => (ts, s),
                    None => old(self).checkpoint,
                }
                &&& final(self).ops@ == old(self).ops@.skip(
                    lead_before::<S>(old(self).ops@, final(self).checkpoint.0, 0),
                )
            },
            r is Ok && consistent(old(self)) && match loaded {
                Some(s) => s.model() == fold::<S>(
                    old(self).checkpoint.1.model(),
                    op_seq::<S>(old(self).ops@.take(lead_before::<S>(old(self).ops@, ts, 0))),
                ),
                None => true,
            } ==> consistent(final(self)),
    {
        if ts_less(&ts, &self.checkpoint.0) {
            return Err(SyncError::CheckpointAhead);
        }
        let ghost old_h = *self;
        let ghost loaded_g = loaded;
        match loaded {
            Some(s) => {
                self.checkpoint = (ts, s);
            },
            None => {},
        }
        let ck_ts = self.checkpoint.0;
        let mut k: usize = 0;
        proof {
            lemma_lead_before::<S>(old_h.ops@, ck_ts, 0);
        }
        while k < self.ops.len() && ts_less(&self.ops[k].0, &ck_ts)
            invariant
                k <= self.ops@.len(),
                self.ops@ == old_h.ops@,
                lead_before::<S>(self.ops@, ck_ts, 0) == lead_before::<S>(self.ops@, ck_ts, k as int),
            decreases self.ops@.len() - k,
        {
            k = k + 1;
        }
        let rest = self.ops.split_off(k);
        self.ops = rest;
        proof {
            assert(old_h.ops@.subrange(k as int, old_h.ops@.len() as int) == old_h.ops@.skip(k as int));
            let ghost h = *self;
            if consistent(&old_h) && match loaded_g {
                Some(s) => s.model() == fold::<S>(
                    old_h.checkpoint.1.model(),
                    op_seq::<S>(old_h.ops@.take(lead_before::<S>(old_h.ops@, ts, 0))),
                ),
                None => true,
            } {
                lemma_adopt_keeps_consistent(&old_h, &h, k as int);
            }
        }
        Ok(())
    }
}

/// Dropping a prefix of entries older than a checkpoint whose state is the
/// replay of that prefix keeps the history consistent.
proof fn lemma_adopt_keeps_consistent<S: BayouState>(old: &History<S>, new: &History<S>, d: int)
    requires
        consistent(old),
        !ts_lt(new.checkpoint.0, old.checkpoint.0),
        d == lead_before::<S>(old.ops@, new.checkpoint.0, 0),
        new.ops@ == old.ops@.skip(d),
        new.checkpoint == old.checkpoint || new.checkpoint.1.model() == fold::<S>(
            old.checkpoint.1.model(),
            op_seq::<S>(old.ops@.take(d)),
        ),
    ensures
        consistent(new),
{
    lemma_lead_before::<S>(old.ops@, new.checkpoint.0, 0);
    let ck = old.checkpoint.1.model();
    let all = op_seq::<S>(old.ops@);
    if new.checkpoint == old.checkpoint {
        if d > 0 {
            assert(ts_lt(old.ops@[0].0, old.checkpoint.0));
            assert(!ts_lt(old.ops@[0].0, old.checkpoint.0));
        }
        assert(new.ops@ == old.ops@);
    } else {
        assert(all.take(d) + all.skip(d) == all);
        lemma_fold_append::<S>(ck, all.take(d), all.skip(d));
        assert(op_seq::<S>(old.ops@.take(d)) == all.take(d));
        assert(op_seq::<S>(new.ops@) == all.skip(d));
        let ck2 = new.checkpoint.1.model();
        assert forall|i: int| 0 <= i < new.ops@.len() implies !ts_lt(#[trigger] new.ops@[i].0, new.checkpoint.0) by {
            assert(new.ops@[i] == old.ops@[i + d]);
            assert(!ts_lt(old.ops@[d].0, new.checkpoint.0));
            if i > 0 {
                assert(!ts_lt(old.ops@[i + d].0, old.ops@[d].0));
            }
        }
        assert forall|i: int, j: int| 0 <= i < j < new.ops@.len() implies !ts_lt(
            #[trigger] new.ops@[j].0,
            #[trigger] new.ops@[i].0,
        ) by {
            assert(new.ops@[i] == old.ops@[i + d]);
            assert(new.ops@[j] == old.ops@[j + d]);
        }
        assert forall|i: int| 0 <= i < new.ops@.len() implies match #[trigger] new.ops@[i].2 {
            Some(s) => s.model() == fold::<S>(ck2, op_seq::<S>(new.ops@).take(i + 1)),
            None => true,
        } by {
            assert(new.ops@[i] == old.ops@[i + d]);
            if old.ops@[i + d].2 is Some {
                assert(all.take(i + d + 1) == all.take(d) + all.skip(d).take(i + 1));
                lemma_fold_append::<S>(ck, all.take(d), all.skip(d).take(i + 1));
            }
        }
    }
}

/// The operations of timestamped pairs.
pub open spec fn pair_ops<O>(s: Seq<(Timestamp, O)>) -> Seq<O> {
    s.map_values(|p: (Timestamp, O)| p.1)
}

/// How many leading entries of the history and of the stored list agree on
/// their timestamps, counting from `i`.
pub open spec fn common_len<S: BayouState>(a: Seq<Entry<S>>, b: Seq<(Timestamp, S::Op)>, i: int) -> int
    decreases a.len() - i,
{
    if 0 <= i < a.len() && i < b.len() && a[i].0 == b[i].0 {
        common_len::<S>(a, b, i + 1)
    } else {
        i
    }
}

proof fn lemma_common_len<S: BayouState>(a: Seq<Entry<S>>, b: Seq<(Timestamp, S::Op)>, i: int)
    requires
        0 <= i <= a.len(),
        i <= b.len(),
    ensures
        i <= common_len::<S>(a, b, i) <= a.len(),
        common_len::<S>(a, b, i) <= b.len(),
        forall|k: int| i <= k < common_len::<S>(a, b, i) ==> #[trigger] a[k].0 == b[k].0,
    decreases a.len() - i,
{
    if i < a.len() && i < b.len() && a[i].0 == b[i].0 {
        lemma_common_len::<S>(a, b, i + 1);
    }
}

/// The position after the last entry before `k` that keeps its state, or 0.
pub open spec fn last_state_pos<S: BayouState>(ops: Seq<Entry<S>>, k: int) -> int
    decreases k,
{
    if k <= 0 {
        0
    } else if ops[k - 1].2 is Some {
        k
    } else {
        last_state_pos::<S>(ops, k - 1)
    }
}

/// Where the last kept state before `k` is, and that it is kept.
pub(crate) proof fn lemma_last_state_pos<S: BayouState>(ops: Seq<Entry<S>>, k: int)
    requires
        0 <= k <= ops.len(),
    ensures
        0 <= last_state_pos::<S>(ops, k) <= k,
        last_state_pos::<S>(ops, k) > 0 ==> ops[last_state_pos::<S>(ops, k) - 1].2 is Some,
    decreases k,
{
    if k > 0 && ops[k - 1].2 is None {
        lemma_last_state_pos::<S>(ops, k - 1);
    }
}

/// The model kept at position `j`: the checkpoint's at 0, else that of
/// entry `j - 1`.
pub open spec fn model_at<S: BayouState>(h: &History<S>, j: int) -> S::Model {
    if j <= 0 {
        h.checkpoint.1.model()
    } else {
        match h.ops@[j - 1].2 {
            Some(s) => s.model(),
            None => h.checkpoint.1.model(),
        }
    }
}

/// How many leading entries a replay keeps.
pub open spec fn replay_prefix<S: BayouState>(h: &History<S>, ops: Seq<(Timestamp, S::Op)>) -> int {
    common_len::<S>(h.ops@, ops, 0)
}

/// Where a replay starts: after the last kept state in the kept entries.
pub open spec fn replay_from<S: BayouState>(h: &History<S>, ops: Seq<(Timestamp, S::Op)>) -> int {
    last_state_pos::<S>(h.ops@, replay_prefix(h, ops))
}

/// The operations a replay applies: the history's from its start to the
/// end of the kept entries, then the stored ones after them.
pub open spec fn replay_ops<S: BayouState>(h: &History<S>, ops: Seq<(Timestamp, S::Op)>) -> Seq<S::Op> {
    op_seq::<S>(h.ops@.subrange(replay_from(h, ops), replay_prefix(h, ops))) + pair_ops(
        ops.subrange(replay_prefix(h, ops), ops.len() as int),
    )
}

/// Whether the entry at position `i` of a history of `n` entries keeps its
/// state after a replay: every `KEEP_STATE_EVERY`-th one, and the last.
pub open spec fn keeps_state(i: int, n: int) -> bool {
    (i + 1) % (KEEP_STATE_EVERY as int) == 0 || i == n - 1
}

/// What a replay that went through leaves: the kept entries, then the
/// stored operations with the states they lead to where kept.
pub open spec fn replayed<S: BayouState>(old: &History<S>, new: &History<S>, ops: Seq<(Timestamp, S::Op)>) -> bool {
    let i0 = replay_prefix(old, ops);
    let j = replay_from(old, ops);
    let all = replay_ops(old, ops);
    let start = model_at(old, j);
    &&& new.checkpoint == old.checkpoint
    &&& new.ops@.len() == ops.len()
    &&& forall|i: int| 0 <= i < i0 ==> #[trigger] new.ops@[i] == old.ops@[i]
    &&& forall|i: int|
        i0 <= i < ops.len() ==> {
            &&& (#[trigger] new.ops@[i]).0 == ops[i].0
            &&& new.ops@[i].1 == ops[i].1
            &&& (new.ops@[i].2 is Some <==> keeps_state(i, ops.len() as int))
            &&& match new.ops@[i].2 {
                Some(s) => s.model() == fold::<S>(start, all.take(i - j + 1)),
                None => true,
            }
        }
}

/// A prefix of an accepted list is accepted.
proof fn lemma_accepted_prefix<S: BayouState>(m: S::Model, s: Seq<S::Op>, k: int)
    requires
        accepted::<S>(m, s),
        0 <= k <= s.len(),
    ensures
        accepted::<S>(m, s.take(k)),
{
    assert(s.take(k) + s.skip(k) == s);
    lemma_fold_append::<S>(m, s.take(k), s.skip(k));
}

/// One more step of a replay.
pub(crate) proof fn lemma_step<S: BayouState>(m: S::Model, s: Seq<S::Op>, n: int)
    requires
        0 <= n < s.len(),
    ensures
        s.take(n + 1) == s.take(n).push(s[n]),
        fold::<S>(m, s.take(n + 1)) == S::step(fold::<S>(m, s.take(n)), s[n]),
        accepted::<S>(m, s.take(n + 1)) == (accepted::<S>(m, s.take(n)) && S::accepts(fold::<S>(m, s.take(n)), s[n])),
        !S::accepts(fold::<S>(m, s.take(n)), s[n]) ==> !accepted::<S>(m, s),
{
    assert(s.take(n + 1) == s.take(n).push(s[n]));
    lemma_fold_push::<S>(m, s.take(n), s[n]);
    if !S::accepts(fold::<S>(m, s.take(n)), s[n]) && accepted::<S>(m, s) {
        lemma_accepted_prefix::<S>(m, s, n + 1);
    }
}

/// A replay that went through, on a consistent history and stored
/// operations in timestamp order, leaves a consistent history whose state
/// is the one returned.
proof fn lemma_replay_keeps_consistent<S: BayouState>(old: &History<S>, new: &History<S>, ops: Seq<(Timestamp, S::Op)>)
    requires
        consistent(old),
        ts_sorted(ops),
        ops.len() >= old.ops@.len(),
        is_zero(old.checkpoint.0) || ops[0].0 == old.checkpoint.0,
        replay_prefix(old, ops) < ops.len(),
        accepted::<S>(model_at(old, replay_from(old, ops)), replay_ops(old, ops)),
        replayed(old, new, ops),
    ensures
        consistent(new),
        fold::<S>(model_at(old, replay_from(old, ops)), replay_ops(old, ops)) == fold::<S>(
            new.checkpoint.1.model(),
            op_seq::<S>(new.ops@),
        ),
{
    let ck = old.checkpoint.1.model();
    let i0 = replay_prefix(old, ops);
    let j = replay_from(old, ops);
    let all = replay_ops(old, ops);
    let start = model_at(old, j);
    let n = ops.len() as int;
    let olds = op_seq::<S>(old.ops@);
    let news = op_seq::<S>(new.ops@);
    lemma_common_len::<S>(old.ops@, ops, 0);
    lemma_last_state_pos::<S>(old.ops@, i0);
    // The replay starts from the replay of the first `j` operations.
    assert(start == fold::<S>(ck, olds.take(j))) by {
        if j > 0 {
            assert(old.ops@[j - 1].2 is Some);
        } else {
            assert(olds.take(0) == Seq::<S::Op>::empty());
        }
    }
    lemma_accepted_prefix::<S>(ck, olds, j);
    assert(news == olds.take(j) + all) by {
        assert forall|i: int| 0 <= i < news.len() implies news[i] == (olds.take(j) + all)[i] by {
            if i < j {
            } else if i < i0 {
                assert(all[i - j] == old.ops@[i].1);
            } else {
                assert(all[i - j] == ops[i].1);
            }
        }
    }
    lemma_fold_append::<S>(ck, olds.take(j), all);
    // Every entry carries the timestamp of the stored operation at its place.
    assert forall|i: int| 0 <= i < n implies #[trigger] new.ops@[i].0 == ops[i].0 by {
        if i < i0 {
            assert(new.ops@[i] == old.ops@[i]);
        }
    }
    assert forall|i: int| 0 <= i < new.ops@.len() implies !ts_lt(#[trigger] new.ops@[i].0, new.checkpoint.0) by {
        assert(new.ops@[i].0 == ops[i].0);
        if !is_zero(old.checkpoint.0) && i > 0 {
            assert(!ts_lt(ops[i].0, ops[0].0));
        }
    }
    assert forall|a: int, b: int| 0 <= a < b < new.ops@.len() implies !ts_lt(
        #[trigger] new.ops@[b].0,
        #[trigger] new.ops@[a].0,
    ) by {
        assert(new.ops@[a].0 == ops[a].0);
        assert(new.ops@[b].0 == ops[b].0);
    }
    assert forall|i: int| 0 <= i < new.ops@.len() implies match #[trigger] new.ops@[i].2 {
        Some(s) => s.model() == fold::<S>(ck, news.take(i + 1)),
        None => true,
    } by {
        if i < i0 {
            assert(new.ops@[i] == old.ops@[i]);
            assert(news.take(i + 1) == olds.take(i + 1));
        } else if new.ops@[i].2 is Some {
            assert(news.take(i + 1) == olds.take(j) + all.take(i - j + 1));
            lemma_fold_append::<S>(ck, olds.take(j), all.take(i - j + 1));
        }
    }
    assert(new.ops@[n - 1].2 is Some);
}

impl<S: BayouState> History<S> {
    /// Brings the history up to the stored operations, given in timestamp
    /// order: the entries that agree with storage on their timestamps are
    /// kept, the state is rebuilt from the last kept state among them, and
    /// the stored operations after them are applied and recorded, each
    /// `KEEP_STATE_EVERY`-th one and the last keeping its state. Returns the
    /// state reached. Fewer stored operations than entries, a first stored
    /// operation that is not at the checkpoint, or an operation that cannot
    /// be applied is an error and changes nothing.
    pub fn replay(&mut self, ops: Vec<(Timestamp, S::Op)>) -> (r: Result<S, SyncError>)
        requires
            crate::bayou::history::last_saved::<S>(old(self).ops@),
            ops@.len() == 0 && old(self).ops@.len() == 0 ==> is_zero(old(self).checkpoint.0),
        ensures
            ops@.len() < old(self).ops@.len() ==> r == Err::<S, SyncError>(SyncError::OpsDisappeared),
            ops@.len() >= old(self).ops@.len() && !is_zero(old(self).checkpoint.0) && ops@[0].0
                != old(self).checkpoint.0 ==> r == Err::<S, SyncError>(SyncError::CheckpointMismatch),
            r is Err ==> *final(self) == *old(self),
            ops@.len() >= old(self).ops@.len() && (is_zero(old(self).checkpoint.0) || ops@[0].0
                == old(self).checkpoint.0) ==> {
                let start = model_at(old(self), replay_from(old(self), ops@));
                let all = replay_ops(old(self), ops@);
                if replay_prefix(old(self), ops@) == ops@.len() {
                    &&& r matches Ok(s) && s.model() == current_model(old(self))
                    &&& *final(self) == *old(self)
                } else if !accepted::<S>(start, all) {
                    r == Err::<S, SyncError>(SyncError::Rejected)
                } else {
                    &&& r matches Ok(s) && s.model() == fold::<S>(start, all)
                    &&& replayed(old(self), final(self), ops@)
                }
            },
            r is Ok && consistent(old(self)) && ts_sorted(ops@) ==> consistent(final(self)) && (r matches Ok(s)
                && s.model() == fold::<S>(final(self).checkpoint.1.model(), op_seq::<S>(final(self).ops@))),
    {
        let ghost old_h = *self;
        let ghost ops_g = ops@;
        if ops.len() < self.ops.len() {
            return Err(SyncError::OpsDisappeared);
        }
        let ck_ts = self.checkpoint.0;
        if !(ck_ts.msec == 0 && ck_ts.rand == 0) {
            let first = ops[0].0;
            if !(first.msec == ck_ts.msec && first.rand == ck_ts.rand) {
                return Err(SyncError::CheckpointMismatch);
            }
        }
        let mut i0: usize = 0;
        while i0 < self.ops.len() && i0 < ops.len() && self.ops[i0].0.msec == ops[i0].0.msec && self.ops[i0].0.rand
            == ops[i0].0.rand
            invariant
                i0 <= self.ops@.len(),
                i0 <= ops@.len(),
                common_len::<S>(self.ops@, ops@, 0) == common_len::<S>(self.ops@, ops@, i0 as int),
            decreases self.ops@.len() - i0,
        {
            i0 = i0 + 1;
        }
        proof {
            lemma_common_len::<S>(self.ops@, ops@, 0);
        }
        if i0 == ops.len() {
            return Ok(self.current_state().duplicate());
        }
        let mut j: usize = i0;
        while j > 0 && self.ops[j - 1].2.is_none()
            invariant
                j <= i0 <= self.ops@.len(),
                last_state_pos::<S>(self.ops@, i0 as int) == last_state_pos::<S>(self.ops@, j as int),
            decreases j,
        {
            j = j - 1;
        }
        let mut state = if j == 0 {
            self.checkpoint.1.duplicate()
        } else {
            match &self.ops[j - 1].2 {
                Some(s) => s.duplicate(),
                None => self.checkpoint.1.duplicate(),
            }
        };
        let ghost start = state.model();
        let ghost all = replay_ops(&old_h, ops_g);
        proof {
            assert(start == model_at(&old_h, replay_from(&old_h, ops_g)));
            assert(all.take(0) == Seq::<S::Op>::empty());
        }
        let mut k: usize = j;
        while k < i0
            invariant
                j <= k <= i0 <= self.ops@.len(),
                i0 < ops_g.len(),
                ops@ == ops_g,
                ops_g.len() >= old_h.ops@.len(),
                is_zero(old_h.checkpoint.0) || ops_g[0].0 == old_h.checkpoint.0,
                *self == old_h,
                j == replay_from(&old_h, ops_g),
                i0 == replay_prefix(&old_h, ops_g),
                all == replay_ops(&old_h, ops_g),
                start == model_at(&old_h, replay_from(&old_h, ops_g)),
                accepted::<S>(start, all.take(k - j)),
                state.model() == fold::<S>(start, all.take(k - j)),
            decreases i0 - k,
        {
            proof {
                assert(all.len() == ops_g.len() - j);
                assert(all[k - j] == self.ops@[k as int].1);
                lemma_step::<S>(start, all, k - j);
            }
            if !state.accepts_op(&self.ops[k].1) {
                return Err(SyncError::Rejected);
            }
            state = state.apply(&self.ops[k].1);
            k = k + 1;
        }
        let total = ops.len();
        let mut head = ops;
        let mut rest = head.split_off(i0);
        let mut new_entries: Vec<Entry<S>> = Vec::new();
        let mut pos: usize = i0;
        while rest.len() > 0
            invariant
                j <= i0 <= pos <= total,
                i0 <= old_h.ops@.len(),
                i0 < total,
                ops@ == ops_g,
                total == ops_g.len(),
                ops_g.len() >= old_h.ops@.len(),
                is_zero(old_h.checkpoint.0) || ops_g[0].0 == old_h.checkpoint.0,
                *self == old_h,
                j == replay_from(&old_h, ops_g),
                i0 == replay_prefix(&old_h, ops_g),
                all == replay_ops(&old_h, ops_g),
                start == model_at(&old_h, replay_from(&old_h, ops_g)),
                rest@ == ops_g.subrange(pos as int, total as int),
                new_entries@.len() == pos - i0,
                accepted::<S>(start, all.take(pos - j)),
                state.model() == fold::<S>(start, all.take(pos - j)),
                forall|q: int|
                    0 <= q < pos - i0 ==> {
                        &&& (#[trigger] new_entries@[q]).0 == ops_g[i0 + q].0
                        &&& new_entries@[q].1 == ops_g[i0 + q].1
                        &&& (new_entries@[q].2 is Some <==> keeps_state(i0 + q, total as int))
                        &&& match new_entries@[q].2 {
                            Some(s) => s.model() == fold::<S>(start, all.take(i0 + q - j + 1)),
                            None => true,
                        }
                    },
            decreases rest@.len(),
        {
            proof {
                assert(rest@[0] == ops_g[pos as int]);
                assert(all.len() == total - j);
                assert(all[pos - j] == ops_g[pos as int].1);
            }
            let (ts, op) = rest.remove(0);
            proof {
                lemma_step::<S>(start, all, pos - j);
            }
            if !state.accepts_op(&op) {
                return Err(SyncError::Rejected);
            }
            state = state.apply(&op);
            let keep = (pos + 1) % KEEP_STATE_EVERY == 0 || pos + 1 == total;
            if keep {
                new_entries.push((ts, op, Some(state.duplicate())));
            } else {
                new_entries.push((ts, op, None));
            }
            pos = pos + 1;
        }
        proof {
            assert(all.take(total - j) == all);
        }
        let ghost new_entries_g = new_entries@;
        self.ops.truncate(i0);
        self.ops.append(&mut new_entries);
        proof {
            let ghost h = *self;
            assert(replayed(&old_h, &h, ops_g)) by {
                assert forall|i: int| 0 <= i < i0 implies #[trigger] h.ops@[i] == old_h.ops@[i] by {}
                assert forall|i: int| i0 <= i < ops_g.len() implies (#[trigger] h.ops@[i]).0 == ops_g[i].0 by {
                    assert(h.ops@[i] == new_entries_g[i - i0]);
                }
            }
            if consistent(&old_h) && ts_sorted(ops_g) {
                lemma_replay_keeps_consistent(&old_h, &h, ops_g);
            }
        }
        Ok(state)
    }
}

} // verus!
