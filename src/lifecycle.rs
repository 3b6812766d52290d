use vstd::prelude::*;

use crate::ledger::{
    after_download, apply, live, LedgerMap, LedgerOp,
};

verus! {

/// The ledger after one download of `t` at each time of `nows`, in order.
pub open spec fn run_downloads(m: LedgerMap, t: Seq<char>, nows: Seq<int>) -> LedgerMap
    decreases nows.len(),
{
    if nows.len() == 0 {
        m
    } else {
        run_downloads(after_download(m, t, nows[0]), t, nows.drop_first())
    }
}

/// How many of those downloads succeed.
pub open spec fn granted(m: LedgerMap, t: Seq<char>, nows: Seq<int>) -> nat
    decreases nows.len(),
{
    if nows.len() == 0 {
        0
    } else {
        (if live(m, t, nows[0]) {
            1nat
        } else {
            0nat
        }) + granted(after_download(m, t, nows[0]), t, nows.drop_first())
    }
}

/// The ledger after a sequence of operations, in order.
pub open spec fn run_ops(m: LedgerMap, ops: Seq<LedgerOp>) -> LedgerMap
    decreases ops.len(),
{
    if ops.len() == 0 {
        m
    } else {
        run_ops(apply(m, ops[0]), ops.drop_first())
    }
}

/// Whether `op` is a lookup or a download of `t` that finds its record.
pub open spec fn finds(m: LedgerMap, op: LedgerOp, t: Seq<char>) -> bool {
    match op {
        LedgerOp::Get(k, at) => k == t && live(m, t, at),
        LedgerOp::Download(k, at) => k == t && live(m, t, at),
        _ => false,
    }
}

/// Whether `op` runs no earlier than `now` and stores nothing under `t`.
pub open spec fn later_and_not_storing(op: LedgerOp, t: Seq<char>, now: int) -> bool {
    match op {
        LedgerOp::Insert(k, _) => k != t,
        LedgerOp::Get(_, at) => at >= now,
        LedgerOp::Download(_, at) => at >= now,
        LedgerOp::Remove(_) => true,
        LedgerOp::Sweep(at) => at >= now,
    }
}

/// Under `t` there is nothing, or a record that may not be downloaded at `now`.
pub open spec fn unreachable(m: LedgerMap, t: Seq<char>, now: int) -> bool {
    m.contains_key(t) ==> !m[t].eligible(now)
}

proof fn lemma_step_keeps_unreachable(m: LedgerMap, op: LedgerOp, t: Seq<char>, now: int)
    requires
        unreachable(m, t, now),
        later_and_not_storing(op, t, now),
    ensures
        !finds(m, op, t),
        unreachable(apply(m, op), t, now),
{
}

proof fn lemma_run_keeps_unreachable(m: LedgerMap, ops: Seq<LedgerOp>, t: Seq<char>, now: int)
    requires
        unreachable(m, t, now),
        forall|i: int| 0 <= i < ops.len() ==> later_and_not_storing(#[trigger] ops[i], t, now),
    ensures
        forall|i: int| 0 <= i < ops.len() ==> !finds(#[trigger] run_ops(m, ops.take(i)), ops[i], t),
        unreachable(run_ops(m, ops), t, now),
    decreases ops.len(),
{
    if ops.len() > 0 {
        let rest = ops.drop_first();
        let next = apply(m, ops[0]);
        lemma_step_keeps_unreachable(m, ops[0], t, now);
        assert forall|i: int| 0 <= i < rest.len() implies later_and_not_storing(
            #[trigger] rest[i],
            t,
            now,
        ) by {
            assert(rest[i] == ops[i + 1]);
        }
        lemma_run_keeps_unreachable(next, rest, t, now);
        assert forall|i: int| 0 <= i < ops.len() implies !finds(
            #[trigger] run_ops(m, ops.take(i)),
            ops[i],
            t,
        ) by {
            if i == 0 {
                assert(ops.take(0) =~= Seq::<LedgerOp>::empty());
            } else {
                let pre = ops.take(i);
                assert(pre[0] == ops[0]);
                assert(pre.drop_first() =~= rest.take(i - 1));
                assert(rest[i - 1] == ops[i]);
                assert(run_ops(m, pre) == run_ops(next, rest.take(i - 1)));
            }
        }
    }
}

/// Once the record under `t` may not be downloaded at `now` (its TTL has
/// passed or its downloads are used up), no later lookup or download of `t`
/// finds it, whichever operations run in between (lookups and downloads
/// that evict lazily, explicit removals, sweeps, insertions under other
/// tokens), and each of those paths that reaches it removes it.
pub proof fn expired_stays_unreachable(m: LedgerMap, t: Seq<char>, now: int, ops: Seq<LedgerOp>)
    requires
        m.contains_key(t),
        !m[t].eligible(now),
        forall|i: int| 0 <= i < ops.len() ==> later_and_not_storing(#[trigger] ops[i], t, now),
    ensures
        forall|i: int| 0 <= i < ops.len() ==> !finds(#[trigger] run_ops(m, ops.take(i)), ops[i], t),
        forall|at: int| at >= now ==> !apply(m, LedgerOp::Get(t, at)).contains_key(t),
        forall|at: int| at >= now ==> !apply(m, LedgerOp::Download(t, at)).contains_key(t),
        forall|at: int| at >= now ==> !apply(m, LedgerOp::Sweep(at)).contains_key(t),
        !apply(m, LedgerOp::Remove(t)).contains_key(t),
{
    lemma_run_keeps_unreachable(m, ops, t, now);
}

/// Removing a token twice: the second removal finds nothing and changes
/// nothing.
pub proof fn remove_is_idempotent(m: LedgerMap, t: Seq<char>)
    ensures
        !m.remove(t).contains_key(t),
        m.remove(t).remove(t) == m.remove(t),
{
    assert(m.remove(t).remove(t) =~= m.remove(t));
}

/// Downloads of an absent token all fail and leave it absent.
proof fn lemma_absent_run(m: LedgerMap, t: Seq<char>, nows: Seq<int>)
    requires
        !m.contains_key(t),
    ensures
        granted(m, t, nows) == 0,
        !run_downloads(m, t, nows).contains_key(t),
    decreases nows.len(),
{
    if nows.len() > 0 {
        assert(after_download(m, t, nows[0]) =~= m.remove(t));
        lemma_absent_run(after_download(m, t, nows[0]), t, nows.drop_first());
    }
}

/// Downloads of a record that stays fresh succeed until its limit is reached;
/// it is then removed.
proof fn lemma_fresh_run(m: LedgerMap, t: Seq<char>, nows: Seq<int>)
    requires
        m.contains_key(t),
        m[t].within_limit(),
        forall|i: int| 0 <= i < nows.len() ==> m[t].fresh(#[trigger] nows[i]),
    ensures
        granted(m, t, nows) == if nows.len() <= m[t].remaining() {
            nows.len() as int
        } else {
            m[t].remaining()
        },
        nows.len() <= m[t].remaining() ==> {
            &&& run_downloads(m, t, nows).contains_key(t)
            &&& run_downloads(m, t, nows)[t].downloads == m[t].downloads + nows.len()
        },
        nows.len() > m[t].remaining() ==> !run_downloads(m, t, nows).contains_key(t),
    decreases nows.len(),
{
    if nows.len() > 0 {
        let next = after_download(m, t, nows[0]);
        let rest = nows.drop_first();
        assert(m[t].fresh(nows[0]));
        if m[t].downloads < m[t].max_downloads {
            assert(next[t] == m[t].downloaded_once());
            assert forall|i: int| 0 <= i < rest.len() implies next[t].fresh(#[trigger] rest[i]) by {
                assert(rest[i] == nows[i + 1]);
            }
            lemma_fresh_run(next, t, rest);
        } else {
            lemma_absent_run(next, t, rest);
        }
    }
}

/// Of `N` downloads of one record that allows `M < N` downloads, all made
/// while the record is fresh and applied one at a time, exactly `M` succeed
/// and `N - M` find nothing; after the first `M` the counter is exactly `M`,
/// and the record is gone at the end.
pub proof fn downloads_stop_at_limit(m: LedgerMap, t: Seq<char>, nows: Seq<int>)
    requires
        m.contains_key(t),
        m[t].downloads == 0,
        m[t].max_downloads < nows.len(),
        forall|i: int| 0 <= i < nows.len() ==> m[t].fresh(#[trigger] nows[i]),
    ensures
        granted(m, t, nows) == m[t].max_downloads,
        nows.len() - granted(m, t, nows) == nows.len() - m[t].max_downloads,
        run_downloads(m, t, nows.take(m[t].max_downloads as int)).contains_key(t),
        run_downloads(m, t, nows.take(m[t].max_downloads as int))[t].downloads
            == m[t].max_downloads,
        !run_downloads(m, t, nows).contains_key(t),
{
    lemma_fresh_run(m, t, nows);
    let first = nows.take(m[t].max_downloads as int);
    assert forall|i: int| 0 <= i < first.len() implies m[t].fresh(#[trigger] first[i]) by {
        assert(first[i] == nows[i]);
    }
    lemma_fresh_run(m, t, first);
}

} // verus!
