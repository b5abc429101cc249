use vstd::prelude::*;

use crate::errors::ActorError;

verus! {

/// The rule selecting which siblings are restarted when one child fails.
#[derive(Clone, Copy, Debug, PartialEq, Eq, Structural)]
pub enum SupervisorStrategy {
    /// Restart the failed child only.
    OneForOne,
    /// Terminate all other children in reverse start order, then restart all
    /// children in start order.
    OneForAll,
    /// Terminate the children after the failed one in reverse order, then
    /// restart the failed one and those after it in order.
    RestForOne,
}

/// When a child is restarted after it terminates.
#[derive(Clone, Copy, Debug, PartialEq, Eq, Structural)]
pub enum RestartPolicy {
    /// Always restarted, whatever the reason.
    Permanent,
    /// Restarted only after a failure, not after a normal exit or a shutdown.
    Transient,
    /// Never restarted.
    Temporary,
}

/// Why a child terminated, as the supervisor's death notification reports it.
#[derive(Clone, Copy, Debug, PartialEq, Eq, Structural)]
pub enum ExitReason {
    Normal,
    Failure,
    Shutdown,
}

/// Whether a child that exited for `reason` is restarted under `policy`:
/// `Permanent` always, `Temporary` never, `Transient` only on failure.
pub fn should_restart(policy: RestartPolicy, reason: ExitReason) -> (r: bool)
    ensures
        r == (policy is Permanent || (policy is Transient && reason is Failure)),
{
    match policy {
        RestartPolicy::Permanent => true,
        RestartPolicy::Temporary => false,
        RestartPolicy::Transient => match reason {
            ExitReason::Failure => true,
            ExitReason::Normal => false,
            ExitReason::Shutdown => false,
        },
    }
}

/// What the supervisor does after child `failed` terminated: first the
/// children in `terminate_order` are terminated, in that order, then the
/// children in `restart_order` are (re)initialized, in that order, before any
/// of them processes a further external message.
pub struct RestartPlan {
    /// Child indices to terminate, already in the order to terminate them.
    pub terminate_order: Vec<usize>,
    /// Child indices to (re)start, already in start order.
    pub restart_order: Vec<usize>,
}

/// The child indices `hi - 1, hi - 2, ..., lo`, in that (descending) order.
pub open spec fn descending(lo: int, hi: int) -> Seq<usize> {
    Seq::new((hi - lo) as nat, |a: int| (hi - 1 - a) as usize)
}

/// The child indices `lo, lo + 1, ..., hi - 1`, in that (ascending) order.
pub open spec fn ascending(lo: int, hi: int) -> Seq<usize> {
    Seq::new((hi - lo) as nat, |a: int| (lo + a) as usize)
}

/// Appends the indices `hi - 1` down to `lo`, skipping `skip`, to `out`.
fn push_descending(out: &mut Vec<usize>, lo: usize, hi: usize, skip: Option<usize>)
    requires
        lo <= hi,
    ensures
        skip is None ==> final(out)@ == old(out)@ + descending(lo as int, hi as int),
        skip matches Some(f) ==> final(out)@ == old(out)@ + descending(
            lo as int,
            hi as int,
        ).remove_value(f),
    {
        let mut j: usize = hi;
        proof {
            let d = descending(hi as int, hi as int);
            assert(d =~= Seq::<usize>::empty());
            assert(out@ + d =~= out@);
            match skip {
                Some(f) => {
                    d.index_of_first_ensures(f);
                    assert(out@ + d.remove_value(f) =~= out@);
                },
                None => {},
            }
        }
        while j > lo
            invariant
                lo <= j <= hi,
                skip is None ==> out@ == old(out)@ + descending(j as int, hi as int),
                skip matches Some(f) ==> out@ == old(out)@ + descending(
                    j as int,
                    hi as int,
                ).remove_value(f),
            decreases j,
        {
            let ghost before = out@;
            let keep = match skip {
                Some(f) => j - 1 != f,
                None => true,
            };
            if keep {
                out.push(j - 1);
            }
            proof {
                lemma_descending_extend(lo as int, (j - 1) as int, hi as int, skip, before, out@, old(out)@);
            }
            j = j - 1;
        }
    }

/// One unrolling step: `descending(j, hi)` followed by `j` equals
/// `descending(j + 1, hi)` shifted down, both plainly and with one value
/// skipped.
proof fn lemma_descending_extend(
    lo: int,
    j: int,
    hi: int,
    skip: Option<usize>,
    before: Seq<usize>,
    after: Seq<usize>,
    base: Seq<usize>,
)
    requires
        0 <= lo <= j < hi <= usize::MAX,
        skip is None ==> before == base + descending(j + 1, hi),
        skip matches Some(f) ==> before == base + descending(j + 1, hi).remove_value(f),
        (match skip {
            Some(f) => j != f,
            None => true,
        }) ==> after == before.push(j as usize),
        (match skip {
            Some(f) => j == f,
            None => false,
        }) ==> after == before,
    ensures
        skip is None ==> after == base + descending(j, hi),
        skip matches Some(f) ==> after == base + descending(j, hi).remove_value(f),
{
    assert(descending(j, hi) =~= descending(j + 1, hi).push(j as usize));
    match skip {
        None => {
            assert(after =~= base + descending(j, hi));
        },
        Some(f) => {
            let d1 = descending(j + 1, hi);
            let d0 = descending(j, hi);
            if j == f {
                assert(!d1.contains(f)) by {
                    if d1.contains(f) {
                        let a = choose|a: int| 0 <= a < d1.len() && d1[a] == f;
                        assert(d1[a] == (hi - 1 - a) as usize);
                        assert(j + 1 <= hi - 1 - a <= hi - 1);
                    }
                }
            }
            lemma_remove_value_push(d1, j as usize, f);
            if j == f {
                // the skipped value sits at the very end of d0
                assert(d0.remove_value(f) == d1);
                d1.index_of_first_ensures(f);
                assert(d1.remove_value(f) == d1);
                assert(after =~= base + d0.remove_value(f));
            } else {
                assert(d0.remove_value(f) == d1.remove_value(f).push(j as usize));
                assert(after =~= base + d0.remove_value(f));
            }
        },
    }
}

/// How `remove_value` interacts with `push`: removing `f` from `q.push(v)`
/// drops the pushed `v` when `v == f` and `f` is not in `q`, and keeps it
/// (removing `f` inside `q`) otherwise.
proof fn lemma_remove_value_push(q: Seq<usize>, v: usize, f: usize)
    requires
        v == f ==> !q.contains(f),
    ensures
        v == f ==> q.push(v).remove_value(f) == q,
        v != f ==> q.push(v).remove_value(f) == q.remove_value(f).push(v),
{
    let q1 = q.push(v);
    if v == f {
        assert(!q.contains(f));
        assert(q1.index_of_first(f) == Some(q.len() as int)) by {
            q1.index_of_first_ensures(f);
            assert(q1[q.len() as int] == f);
            assert(q1.contains(f));
            let i = q1.index_of_first(f)->Some_0;
            if i < q.len() {
                assert(q[i] == f);
                assert(q.contains(f));
            }
        }
        assert(q1.remove_value(f) =~= q);
    } else {
        q.index_of_first_ensures(f);
        q1.index_of_first_ensures(f);
        if q.contains(f) {
            let i = q.index_of_first(f)->Some_0;
            assert(q1[i] == f);
            assert(q1.contains(f));
            let i1 = q1.index_of_first(f)->Some_0;
            assert(q1[i1] == q[i1]);
            assert(i1 <= i) by {
                if i < i1 {
                    assert(q1[i] == f);
                }
            }
            assert(i <= i1) by {
                if i1 < i {
                    assert(q[i1] == f);
                }
            }
            assert(q1.remove_value(f) =~= q.remove_value(f).push(v));
        } else {
            assert(!q1.contains(f)) by {
                if q1.contains(f) {
                    let i = choose|i: int| 0 <= i < q1.len() && q1[i] == f;
                    if i < q.len() {
                        assert(q[i] == f);
                    }
                }
            }
            assert(q1.remove_value(f) == q1);
            assert(q.remove_value(f) == q);
            assert(q.remove_value(f).push(v) =~= q1);
        }
    }
}

/// Appends the indices `lo` up to `hi - 1`, in order, to `out`.
fn push_ascending(out: &mut Vec<usize>, lo: usize, hi: usize)
    requires
        lo <= hi,
    ensures
        final(out)@ == old(out)@ + ascending(lo as int, hi as int),
{
    let mut j: usize = lo;
    while j < hi
        invariant
            lo <= j <= hi,
            out@ == old(out)@ + ascending(lo as int, j as int),
        decreases hi - j,
    {
        out.push(j);
        proof {
            assert(ascending(lo as int, j + 1) =~= ascending(lo as int, j as int).push(j as usize));
            assert(out@ =~= old(out)@ + ascending(lo as int, j + 1));
        }
        j = j + 1;
    }
    proof {
        assert(out@ =~= old(out)@ + ascending(lo as int, hi as int));
    }
}

/// Computes the restart plan after child `failed` (of `child_count` children,
/// numbered in start order) terminated and its policy asks for a restart.
///
/// - `OneForOne`: nothing else is terminated; only the failed child restarts.
/// - `OneForAll`: every other child is terminated in reverse start order and
///   all children restart in start order.
/// - `RestForOne`: the children after the failed one are terminated in
///   reverse order, and the failed child and those after it restart in order.
pub fn restart_plan(strategy: SupervisorStrategy, child_count: usize, failed: usize) -> (plan:
    RestartPlan)
    requires
        failed < child_count,
    ensures
        strategy is OneForOne ==> plan.terminate_order@ == Seq::<usize>::empty()
            && plan.restart_order@ == seq![failed],
        strategy is OneForAll ==> plan.terminate_order@ == descending(
            0,
            child_count as int,
        ).remove_value(failed) && plan.restart_order@ == ascending(0, child_count as int),
        strategy is RestForOne ==> plan.terminate_order@ == descending(
            failed + 1,
            child_count as int,
        ) && plan.restart_order@ == ascending(failed as int, child_count as int),
{
    let mut terminate_order: Vec<usize> = Vec::new();
    let mut restart_order: Vec<usize> = Vec::new();
    match strategy {
        SupervisorStrategy::OneForOne => {
            restart_order.push(failed);
            proof {
                assert(restart_order@ =~= seq![failed]);
            }
        },
        SupervisorStrategy::OneForAll => {
            push_descending(&mut terminate_order, 0, child_count, Some(failed));
            push_ascending(&mut restart_order, 0, child_count);
            proof {
                assert(terminate_order@ =~= descending(0, child_count as int).remove_value(
                    failed,
                ));
                assert(restart_order@ =~= ascending(0, child_count as int));
            }
        },
        SupervisorStrategy::RestForOne => {
            push_descending(&mut terminate_order, failed + 1, child_count, None);
            push_ascending(&mut restart_order, failed, child_count);
            proof {
                assert(terminate_order@ =~= descending(failed + 1, child_count as int));
                assert(restart_order@ =~= ascending(failed as int, child_count as int));
            }
        },
    }
    RestartPlan { terminate_order, restart_order }
}

/// Law: under `OneForAll`, after any child crashes, the plan (re)initializes
/// every child — in start order — before the supervisor hands control back,
/// so none of them processes a further external message with a stale sibling.
pub proof fn lemma_one_for_all_restarts_all(plan: RestartPlan, child_count: usize, failed: usize)
    requires
        failed < child_count,
        plan.restart_order@ == ascending(0, child_count as int),
    ensures
        plan.restart_order@.len() == child_count,
        forall|j: int| 0 <= j < child_count ==> plan.restart_order@[j] == j,
        forall|j: usize| j < child_count ==> plan.restart_order@.contains(j),
{
    assert forall|j: usize| j < child_count implies plan.restart_order@.contains(j) by {
        assert(plan.restart_order@[j as int] == j);
    }
}

/// A record of recent child failures, for the restart budget: more than
/// `max_restarts` failures inside a sliding window of `within_window` time
/// units make the supervisor give up and escalate.
pub struct RestartTracker {
    max_restarts: usize,
    within_window: u64,
    /// Failure times still inside the window, oldest first.
    failures: Vec<u64>,
}

/// Whether a failure at time `t` still counts at time `now`: it does while
/// `t + window >= now`, so the failure being recorded now always counts.
pub open spec fn in_window(t: u64, now: u64, window: u64) -> bool {
    t + window >= now
}

impl RestartTracker {
    /// The recorded failure times, oldest first.
    pub closed spec fn spec_failures(&self) -> Seq<u64> {
        self.failures@
    }

    pub closed spec fn spec_max_restarts(&self) -> nat {
        self.max_restarts as nat
    }

    pub closed spec fn spec_window(&self) -> u64 {
        self.within_window
    }

    /// Recorded times are in order.
    pub open spec fn wf(&self) -> bool {
        forall|a: int, b: int|
            0 <= a < b < self.spec_failures().len() ==> self.spec_failures()[a]
                <= self.spec_failures()[b]
    }

    /// A fresh budget: no failures yet.
    pub fn new(max_restarts: usize, within_window: u64) -> (t: RestartTracker)
        ensures
            t.wf(),
            t.spec_failures() == Seq::<u64>::empty(),
            t.spec_max_restarts() == max_restarts,
            t.spec_window() == within_window,
    {
        RestartTracker { max_restarts, within_window, failures: Vec::new() }
    }

    /// Records a failure at time `now` (times are monotone: `now` is not
    /// before any recorded failure). Failures that have slid out of the
    /// window are dropped; the result says whether the budget is exceeded,
    /// in which case the supervisor terminates and escalates.
    pub fn record_failure(&mut self, now: u64) -> (escalate: bool)
        requires
            old(self).wf(),
            forall|k: int|
                0 <= k < old(self).spec_failures().len() ==> old(self).spec_failures()[k] <= now,
        ensures
            final(self).wf(),
            final(self).spec_max_restarts() == old(self).spec_max_restarts(),
            final(self).spec_window() == old(self).spec_window(),
            // what is kept: a suffix of the old record, all still in window,
            // with `now` appended
            final(self).spec_failures().len() >= 1,
            final(self).spec_failures().last() == now,
            final(self).spec_failures().drop_last() == old(self).spec_failures().subrange(
                old(self).spec_failures().len() - (final(self).spec_failures().len() - 1),
                old(self).spec_failures().len() as int,
            ),
            forall|k: int|
                0 <= k < final(self).spec_failures().len() ==> in_window(
                    final(self).spec_failures()[k],
                    now,
                    old(self).spec_window(),
                ),
            // what is dropped really was out of the window
            forall|k: int|
                0 <= k < old(self).spec_failures().len() - (final(self).spec_failures().len() - 1)
                    ==> !in_window(old(self).spec_failures()[k], now, old(self).spec_window()),
            escalate == (final(self).spec_failures().len() > old(self).spec_max_restarts()),
    {
        let ghost orig = self.failures@;
        proof {
            assert(orig.subrange(0, orig.len() as int) =~= orig);
        }
        loop
            invariant
                self.wf(),
                self.spec_max_restarts() == old(self).spec_max_restarts(),
                self.spec_window() == old(self).spec_window(),
                forall|k: int|
                    0 <= k < self.spec_failures().len() ==> self.spec_failures()[k] <= now,
                self.spec_failures().len() <= orig.len(),
                self.spec_failures() == orig.subrange(
                    orig.len() - self.spec_failures().len(),
                    orig.len() as int,
                ),
                forall|k: int|
                    0 <= k < orig.len() - self.spec_failures().len() ==> !in_window(
                        orig[k],
                        now,
                        self.spec_window(),
                    ),
            ensures
                self.spec_failures().len() == 0 || in_window(
                    self.spec_failures()[0],
                    now,
                    self.spec_window(),
                ),
            decreases self.spec_failures().len(),
        {
            if self.failures.len() == 0 {
                break ;
            }
            let head = self.failures[0];
            let out_of_window = if self.within_window > now {
                false
            } else {
                head < now - self.within_window
            };
            if out_of_window {
                let ghost before = self.failures@;
                let _ = self.failures.remove(0);
                proof {
                    let off: int = orig.len() - before.len();
                    assert(before == orig.subrange(off, orig.len() as int));
                    before.remove_ensures(0);
                    assert(self.failures@ == before.remove(0));
                    assert(self.failures@.len() == before.len() - 1);
                    assert forall|x: int|
                        0 <= x < self.failures@.len() implies self.failures@[x] == orig[off + 1
                        + x] by {
                        assert(before.remove(0)[x] == before[x + 1]);
                        assert(before[x + 1] == orig.subrange(off, orig.len() as int)[x + 1]);
                    }
                    assert(self.failures@ =~= orig.subrange(off + 1, orig.len() as int));
                    assert(self.spec_failures() == self.failures@);
                    assert forall|k: int|
                        0 <= k < orig.len() - self.spec_failures().len() implies !in_window(
                        orig[k],
                        now,
                        self.spec_window(),
                    ) by {
                        if k == off {
                            assert(orig.subrange(off, orig.len() as int)[0] == orig[off]);
                            assert(before[0] == orig[off]);
                            assert(!in_window(head, now, self.spec_window()));
                        }
                    }
                }
            } else {
                break ;
            }
        }
        proof {
            // every retained time is in the window: times are sorted, so the
            // head is the oldest
            assert forall|k: int| 0 <= k < self.spec_failures().len() implies in_window(
                self.spec_failures()[k],
                now,
                self.spec_window(),
            ) by {
                if 0 < k {
                    assert(self.spec_failures()[0] <= self.spec_failures()[k]);
                }
            }
        }
        let ghost kept = self.failures@;
        self.failures.push(now);
        proof {
            assert(self.failures@.drop_last() =~= kept);
        }
        self.failures.len() > self.max_restarts
    }
}

/// The declaration a supervisor makes at `init`: the restart strategy, the
/// per-child startup arguments and optional registered names (both in start
/// order), the restart policy, and the restart budget. Fixed at supervisor
/// init; not mutated at runtime.
pub struct SupervisorConfig {
    pub strategy: SupervisorStrategy,
    /// The plain-value startup argument handed to each child's `init`: here a
    /// string list (the broker ignores its argument; a client reads its
    /// initial topic set from it).
    pub child_args: Vec<Vec<String>>,
    pub child_names: Vec<Option<String>>,
    pub restart_policy: RestartPolicy,
    pub max_restarts: usize,
    pub within_window: u64,
}

impl SupervisorConfig {
    /// The demo supervision tree the entry point starts: a broker and one
    /// client, registered under the default names, restarted together
    /// (`OneForAll`, `Permanent`) within the given restart budget. The
    /// client's startup argument is the placeholder topic `"None"`.
    pub fn observer(max_restarts: usize, within_window: u64) -> (c: SupervisorConfig)
        ensures
            c.strategy is OneForAll,
            c.restart_policy is Permanent,
            c.max_restarts == max_restarts,
            c.within_window == within_window,
            c.child_args@.len() == 2,
            c.child_args@[0]@.len() == 0,
            c.child_args@[1]@.len() == 1 && c.child_args@[1]@[0]@ == "None"@,
            c.child_names@.len() == 2,
            c.child_names@[0] matches Some(n) && n@ == "broker_process"@,
            c.child_names@[1] matches Some(n) && n@ == "broker_client"@,
    {
        let broker_arg: Vec<String> = Vec::new();
        let mut client_arg: Vec<String> = Vec::new();
        client_arg.push("None".to_owned());
        let mut child_args: Vec<Vec<String>> = Vec::new();
        child_args.push(broker_arg);
        child_args.push(client_arg);
        let mut child_names: Vec<Option<String>> = Vec::new();
        child_names.push(Some("broker_process".to_owned()));
        child_names.push(Some("broker_client".to_owned()));
        SupervisorConfig {
            strategy: SupervisorStrategy::OneForAll,
            child_args,
            child_names,
            restart_policy: RestartPolicy::Permanent,
            max_restarts,
            within_window,
        }
    }
}

/// Reports how a sequential child startup went: children are started in
/// order, and if child `failed` refuses to initialize, the already-started
/// children `failed - 1, ..., 0` are terminated in that (reverse) order and
/// the supervisor reports `StartupError`.
pub fn startup_outcome(init_ok: &Vec<bool>) -> (r: Result<usize, (usize, Vec<usize>, ActorError)>)
    ensures
        r is Ok <==> (forall|k: int| 0 <= k < init_ok@.len() ==> init_ok@[k]),
        r matches Ok(n) ==> n == init_ok@.len(),
        r matches Err((failed, rollback, e)) ==> {
            &&& failed < init_ok@.len()
            &&& !init_ok@[failed as int]
            &&& forall|k: int| 0 <= k < failed ==> init_ok@[k]
            &&& rollback@ == descending(0, failed as int)
            &&& e == ActorError::StartupError
        },
    {
        let n = init_ok.len();
        let mut i: usize = 0;
        while i < n
            invariant
                i <= n,
                n == init_ok@.len(),
                forall|k: int| 0 <= k < i ==> init_ok@[k],
            decreases n - i,
        {
            if !init_ok[i] {
                let mut rollback: Vec<usize> = Vec::new();
                push_descending(&mut rollback, 0, i, None);
                proof {
                    assert(rollback@ =~= descending(0, i as int));
                }
                return Err((i, rollback, ActorError::StartupError));
            }
            i = i + 1;
        }
        Ok(n)
    }

} // verus!
