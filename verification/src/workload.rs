use vstd::prelude::*;

use crate::runtime::CapacityError;
use crate::runtime::Runtime;
use crate::runtime::Thread;
use crate::state::State;

verus! {

/// Sum over the user slots `1..i` of the yields each still owes:
/// `budget - done` per slot.
pub open spec fn sum_remaining(b: Seq<u64>, d: Seq<u64>, i: int) -> int
    decreases i,
{
    if i <= 1 {
        0
    } else {
        sum_remaining(b, d, i - 1) + (b[i - 1] - d[i - 1])
    }
}

/// Count of the user slots `1..i` not in state `Available`.
pub open spec fn count_active(ths: Seq<Thread>, i: int) -> int
    decreases i,
{
    if i <= 1 {
        0
    } else {
        count_active(ths, i - 1) + (if ths[i - 1].state != State::Available {
            1int
        } else {
            0int
        })
    }
}

/// Sum over the user slots `1..i` of how often each was switched into.
pub open spec fn sum_entered(e: Seq<u64>, i: int) -> int
    decreases i,
{
    if i <= 1 {
        0
    } else {
        sum_entered(e, i - 1) + e[i - 1]
    }
}

/// Sum over the spawned user slots `1..i` of yield budget plus one.
pub open spec fn sum_budget_plus_one(b: Seq<u64>, sp: Seq<bool>, i: int) -> int
    decreases i,
{
    if i <= 1 {
        0
    } else {
        sum_budget_plus_one(b, sp, i - 1) + (if sp[i - 1] {
            b[i - 1] + 1int
        } else {
            0int
        })
    }
}

/// How many entries of a trace name a user slot rather than slot 0.
pub open spec fn user_entry_count(t: Seq<usize>) -> int
    decreases t.len(),
{
    if t.len() == 0 {
        0
    } else {
        user_entry_count(t.drop_last()) + (if t.last() != 0 {
            1int
        } else {
            0int
        })
    }
}

proof fn lemma_user_entry_count_push(t: Seq<usize>, x: usize)
    ensures
        user_entry_count(t.push(x)) == user_entry_count(t) + (if x != 0 {
            1int
        } else {
            0int
        }),
{
    assert(t.push(x).drop_last() =~= t);
    assert(t.push(x).last() == x);
}

/// Two entry tables that agree on every user slot but `j` have sums that
/// differ by exactly the difference of the entries at `j`.
proof fn lemma_sum_entered_update(e1: Seq<u64>, e2: Seq<u64>, j: int, i: int)
    requires
        forall|k: int| 1 <= k < i && k != j ==> e1[k] == e2[k],
    ensures
        1 <= j < i ==> sum_entered(e2, i) == sum_entered(e1, i) + e2[j] - e1[j],
        !(1 <= j < i) ==> sum_entered(e2, i) == sum_entered(e1, i),
    decreases i,
{
    if i > 1 {
        lemma_sum_entered_update(e1, e2, j, i - 1);
    }
}

proof fn lemma_sum_remaining_nonneg(b: Seq<u64>, d: Seq<u64>, i: int)
    requires
        forall|k: int| 1 <= k < i ==> d[k] <= b[k],
    ensures
        sum_remaining(b, d, i) >= 0,
    decreases i,
{
    if i > 1 {
        lemma_sum_remaining_nonneg(b, d, i - 1);
    }
}

proof fn lemma_count_active_nonneg(ths: Seq<Thread>, i: int)
    ensures
        count_active(ths, i) >= 0,
    decreases i,
{
    if i > 1 {
        lemma_count_active_nonneg(ths, i - 1);
    }
}

/// Two budget/done tables that agree on every user slot but `j` have sums
/// that differ by exactly the difference of the terms at `j`.
proof fn lemma_sum_remaining_update(b1: Seq<u64>, d1: Seq<u64>, b2: Seq<u64>, d2: Seq<u64>, j: int, i: int)
    requires
        forall|k: int| 1 <= k < i && k != j ==> b1[k] == b2[k] && d1[k] == d2[k],
    ensures
        1 <= j < i ==> sum_remaining(b2, d2, i) == sum_remaining(b1, d1, i) + (b2[j] - d2[j]) - (
        b1[j] - d1[j]),
        !(1 <= j < i) ==> sum_remaining(b2, d2, i) == sum_remaining(b1, d1, i),
    decreases i,
{
    if i > 1 {
        lemma_sum_remaining_update(b1, d1, b2, d2, j, i - 1);
    }
}

/// Two pools whose user slots agree on availability everywhere but at `j`
/// have active counts that differ by the difference of the indicators at `j`.
proof fn lemma_count_active_update(t1: Seq<Thread>, t2: Seq<Thread>, j: int, i: int)
    requires
        forall|k: int|
            1 <= k < i && k != j ==> ((t1[k].state == State::Available) <==> (t2[k].state
                == State::Available)),
    ensures
        1 <= j < i ==> count_active(t2, i) == count_active(t1, i) + (if t2[j].state
            != State::Available {
            1int
        } else {
            0int
        }) - (if t1[j].state != State::Available {
            1int
        } else {
            0int
        }),
        !(1 <= j < i) ==> count_active(t2, i) == count_active(t1, i),
    decreases i,
{
    if i > 1 {
        lemma_count_active_update(t1, t2, j, i - 1);
    }
}

/// Round-robin switch total: once every spawned task has run to completion,
/// the total number of switches into user slots equals the sum of all yield
/// budgets plus the number of spawned tasks — each task was switched into
/// once per yield it performed, plus once more for the turn in which its
/// body ran to its end.
pub proof fn lemma_switch_total(e: Seq<u64>, b: Seq<u64>, sp: Seq<bool>, i: int)
    requires
        forall|u: int| 1 <= u < i && sp[u] ==> e[u] == b[u] + 1,
        forall|u: int| 1 <= u < i && !sp[u] ==> e[u] == 0,
    ensures
        sum_entered(e, i) == sum_budget_plus_one(b, sp, i),
    decreases i,
{
    if i > 1 {
        lemma_switch_total(e, b, sp, i - 1);
    }
}

/// A pool of scripted tasks driven to completion on the scheduling core.
///
/// The runtime proper cannot execute a task body without the
/// architecture-specific switch primitive; here each task's body is given by
/// its script — it yields `budget` times when run, then returns — and the
/// driver plays every spawned script against the real `spawn`, `t_yield`,
/// `t_return` and scheduling-step logic, slot states and all. What holds of
/// a whole run — termination, one completion per task, entry counts, final
/// slot states — is stated on `run` and proved.
pub struct Workload {
    /// The scheduling core being driven.
    pub rt: Runtime,
    /// Per slot: how many times its task's script calls yield.
    pub budget: Vec<u64>,
    /// Per slot: how many of those yields have happened.
    pub done: Vec<u64>,
    /// Per slot: how many times the scheduler has switched into it.
    pub entered: Vec<u64>,
    /// Per slot: how many times its task's body has run to completion.
    pub finished: Vec<u64>,
    /// Per slot: whether a task has been spawned into it.
    pub spawned: Vec<bool>,
    /// Every slot switched into, in scheduling order (slot 0 included).
    pub trace: Vec<usize>,
}

impl Workload {
    /// Number of slots in the driven pool, the control slot included.
    pub open spec fn pool_size(self) -> int {
        self.rt.pool_size()
    }

    /// The bookkeeping tables each cover the whole pool.
    pub open spec fn lens_ok(self) -> bool {
        &&& self.budget@.len() == self.pool_size()
        &&& self.done@.len() == self.pool_size()
        &&& self.entered@.len() == self.pool_size()
        &&& self.finished@.len() == self.pool_size()
        &&& self.spawned@.len() == self.pool_size()
    }

    /// The bookkeeping of user slot `u` agrees with its lifecycle state.
    ///
    /// A slot nothing was spawned into is untouched. A spawned slot owes
    /// `budget - done` yields; while it is `Ready` it has been entered once
    /// per yield done, while it is `Running` once more than that, and once
    /// it is `Available` again its script ran in full: all yields done, one
    /// completion, and `budget + 1` entries in total.
    pub open spec fn slot_ok(self, u: int) -> bool {
        if !self.spawned@[u] {
            &&& self.rt.state_of(u) == State::Available
            &&& self.budget@[u] == 0
            &&& self.done@[u] == 0
            &&& self.entered@[u] == 0
            &&& self.finished@[u] == 0
        } else {
            &&& self.budget@[u] < u64::MAX
            &&& self.done@[u] <= self.budget@[u]
            &&& match self.rt.state_of(u) {
                State::Available => {
                    &&& self.finished@[u] == 1
                    &&& self.done@[u] == self.budget@[u]
                    &&& self.entered@[u] == self.budget@[u] + 1
                },
                State::Ready => {
                    &&& u != self.rt.current
                    &&& self.entered@[u] == self.done@[u]
                    &&& self.finished@[u] == 0
                },
                State::Running => {
                    &&& u == self.rt.current
                    &&& self.entered@[u] == self.done@[u] + 1
                    &&& self.finished@[u] == 0
                },
            }
        }
    }

    /// The driver's invariant: the core is well-formed, the tables cover
    /// the pool, nothing is ever spawned into slot 0, the control slot is
    /// `Running` exactly while it is current (and `Ready` while a user task
    /// is), the current user slot is a spawned one in state `Running`, and
    /// every user slot's bookkeeping agrees with its state.
    pub open spec fn inv(self) -> bool {
        &&& self.rt.wf()
        &&& self.lens_ok()
        &&& !self.spawned@[0]
        &&& (if self.rt.current == 0 {
            self.rt.state_of(0) == State::Running
        } else {
            self.rt.state_of(0) == State::Ready
        })
        &&& self.rt.current != 0 ==> {
            &&& self.spawned@[self.rt.current as int]
            &&& self.rt.state_of(self.rt.current as int) == State::Running
        }
        &&& forall|u: int| 1 <= u < self.pool_size() ==> self.slot_ok(u)
    }

    /// Work left before the driver must stop: two for every yield still
    /// owed, two for every user slot not yet retired, one more while the
    /// control slot is current. Every driving step strictly lowers it.
    pub open spec fn measure(self) -> int {
        2 * sum_remaining(self.budget@, self.done@, self.pool_size()) + 2 * count_active(
            self.rt.threads@,
            self.pool_size(),
        ) + (if self.rt.current == 0 {
            1int
        } else {
            0int
        })
    }

    /// Builds a driver around a fresh pool of `capacity + 1` slots with
    /// empty bookkeeping and an empty trace.
    pub fn new(capacity: usize) -> (w: Workload)
        requires
            capacity < usize::MAX,
        ensures
            w.inv(),
            w.rt.current == 0,
            w.pool_size() == capacity + 1,
            forall|u: int| 0 <= u < w.pool_size() ==> !w.spawned@[u],
            forall|u: int| 0 <= u < w.pool_size() ==> w.budget@[u] == 0,
            w.trace@.len() == 0,
    {
        let rt = Runtime::new(capacity);
        let n = capacity + 1;
        let w = Workload {
            rt,
            budget: vec![0u64; n],
            done: vec![0u64; n],
            entered: vec![0u64; n],
            finished: vec![0u64; n],
            spawned: vec![false; n],
            trace: Vec::new(),
        };
        proof {
            assert forall|u: int| 1 <= u < w.pool_size() implies w.slot_ok(u) by {}
        }
        w
    }

    /// Spawns a task scripted to yield `yields` times: the lowest-index
    /// available slot is taken through the core's own `spawn`, becomes
    /// `Ready`, and its bookkeeping starts afresh. With every slot taken
    /// this reports the fatal capacity error and changes nothing at all.
    pub fn spawn_task(&mut self, yields: u64) -> (r: Result<usize, CapacityError>)
        requires
            old(self).inv(),
            old(self).rt.current == 0,
            yields < u64::MAX,
        ensures
            final(self).inv(),
            final(self).rt.current == 0,
            final(self).pool_size() == old(self).pool_size(),
            final(self).trace@ == old(self).trace@,
            match r {
                Ok(s) => {
                    &&& 1 <= s < old(self).pool_size()
                    &&& old(self).rt.state_of(s as int) == State::Available
                    &&& forall|j: int| 0 <= j < s ==> old(self).rt.state_of(j) != State::Available
                    &&& final(self).rt.state_of(s as int) == State::Ready
                    &&& forall|j: int|
                        0 <= j < old(self).pool_size() && j != s ==> final(self).rt.threads@[j]
                            == old(self).rt.threads@[j]
                    &&& final(self).budget@ == old(self).budget@.update(s as int, yields)
                    &&& final(self).done@ == old(self).done@.update(s as int, 0u64)
                    &&& final(self).entered@ == old(self).entered@.update(s as int, 0u64)
                    &&& final(self).finished@ == old(self).finished@.update(s as int, 0u64)
                    &&& final(self).spawned@ == old(self).spawned@.update(s as int, true)
                },
                Err(_) => {
                    &&& forall|j: int|
                        0 <= j < old(self).pool_size() ==> old(self).rt.state_of(j)
                            != State::Available
                    &&& final(self).rt.threads@ == old(self).rt.threads@
                    &&& final(self).budget@ == old(self).budget@
                    &&& final(self).done@ == old(self).done@
                    &&& final(self).entered@ == old(self).entered@
                    &&& final(self).finished@ == old(self).finished@
                    &&& final(self).spawned@ == old(self).spawned@
                },
            },
    {
        let r = self.rt.spawn(0, 0);
        match r {
            Ok(s) => {
                proof {
                    assert(old(self).rt.state_of(0) == State::Running);
                    assert(s >= 1);
                }
                let b = &mut self.budget[s];
                *b = yields;
                let d = &mut self.done[s];
                *d = 0;
                let e = &mut self.entered[s];
                *e = 0;
                let f = &mut self.finished[s];
                *f = 0;
                let sp = &mut self.spawned[s];
                *sp = true;
                proof {
                    assert forall|u: int| 1 <= u < self.pool_size() implies self.slot_ok(u) by {
                        if u != s as int {
                            assert(old(self).slot_ok(u));
                        }
                    }
                }
                Ok(s)
            },
            Err(e) => Err(e),
        }
    }

    /// The driving measure never goes below zero while the invariant holds.
    proof fn measure_nonneg(self)
        requires
            self.inv(),
        ensures
            self.measure() >= 0,
    {
        assert forall|k: int| 1 <= k < self.pool_size() implies self.done@[k]
            <= self.budget@[k] by {
            assert(self.slot_ok(k));
        }
        lemma_sum_remaining_nonneg(self.budget@, self.done@, self.pool_size());
        lemma_count_active_nonneg(self.rt.threads@, self.pool_size());
    }

    /// Drives the pool until the scheduling step finds no ready slot:
    /// the control slot repeatedly yields, each user task switched into
    /// plays its script — one yield per turn until its budget is spent,
    /// then its return — and every switch is appended to the trace.
    ///
    /// The run always terminates. Afterwards every user slot is `Available`
    /// and only the control slot is `Running`; every spawned task's script
    /// ran to completion exactly once, having yielded its full budget and
    /// having been switched into exactly its budget plus one times.
    pub fn run(&mut self)
        requires
            old(self).inv(),
            old(self).rt.current == 0,
        ensures
            final(self).inv(),
            final(self).rt.current == 0,
            final(self).pool_size() == old(self).pool_size(),
            final(self).rt.state_of(0) == State::Running,
            forall|u: int|
                1 <= u < final(self).pool_size() ==> final(self).rt.state_of(u)
                    == State::Available,
            final(self).budget@ == old(self).budget@,
            final(self).spawned@ == old(self).spawned@,
            forall|u: int|
                1 <= u < final(self).pool_size() && old(self).spawned@[u] ==> {
                    &&& final(self).finished@[u] == 1
                    &&& final(self).done@[u] == old(self).budget@[u]
                    &&& final(self).entered@[u] == old(self).budget@[u] + 1
                },
            forall|u: int|
                1 <= u < final(self).pool_size() && !old(self).spawned@[u] ==> {
                    &&& final(self).finished@[u] == 0
                    &&& final(self).done@[u] == 0
                    &&& final(self).entered@[u] == 0
                },
            user_entry_count(final(self).trace@) - user_entry_count(old(self).trace@)
                == sum_entered(final(self).entered@, final(self).pool_size()) - sum_entered(
                old(self).entered@,
                old(self).pool_size(),
            ),
            final(self).trace@.len() >= old(self).trace@.len(),
            forall|i: int|
                0 <= i < old(self).trace@.len() ==> final(self).trace@[i] == old(self).trace@[i],
            forall|i: int|
                #![trigger final(self).trace@[i]]
                old(self).trace@.len() < i < final(self).trace@.len() && final(self).trace@[i - 1]
                    != 0 && final(self).trace@[i] != 0
                    ==> final(self).trace@[i - 1] < final(self).trace@[i],
    {
        loop
            invariant
                self.inv(),
                self.pool_size() == old(self).pool_size(),
                self.budget@ == old(self).budget@,
                self.spawned@ == old(self).spawned@,
                user_entry_count(self.trace@) - user_entry_count(old(self).trace@)
                    == sum_entered(self.entered@, self.pool_size()) - sum_entered(
                    old(self).entered@,
                    old(self).pool_size(),
                ),
                self.trace@.len() >= old(self).trace@.len(),
                forall|i: int|
                    0 <= i < old(self).trace@.len() ==> self.trace@[i] == old(self).trace@[i],
                self.trace@.len() > old(self).trace@.len() ==> self.trace@.last()
                    == self.rt.current,
                forall|i: int|
                    #![trigger self.trace@[i]]
                    old(self).trace@.len() < i < self.trace@.len() && self.trace@[i - 1] != 0
                        && self.trace@[i] != 0 ==> self.trace@[i - 1] < self.trace@[i],
            ensures
                self.inv(),
                self.rt.current == 0,
                self.pool_size() == old(self).pool_size(),
                self.budget@ == old(self).budget@,
                self.spawned@ == old(self).spawned@,
                forall|j: int|
                    1 <= j < self.pool_size() ==> self.rt.state_of(j) != State::Ready,
                user_entry_count(self.trace@) - user_entry_count(old(self).trace@)
                    == sum_entered(self.entered@, self.pool_size()) - sum_entered(
                    old(self).entered@,
                    old(self).pool_size(),
                ),
                self.trace@.len() >= old(self).trace@.len(),
                forall|i: int|
                    0 <= i < old(self).trace@.len() ==> self.trace@[i] == old(self).trace@[i],
                self.trace@.len() > old(self).trace@.len() ==> self.trace@.last()
                    == self.rt.current,
                forall|i: int|
                    #![trigger self.trace@[i]]
                    old(self).trace@.len() < i < self.trace@.len() && self.trace@[i - 1] != 0
                        && self.trace@[i] != 0 ==> self.trace@[i - 1] < self.trace@[i],
            decreases self.measure(),
        {
            proof {
                assert forall|k: int| 1 <= k < self.pool_size() implies self.done@[k]
                    <= self.budget@[k] by {
                    assert(self.slot_ok(k));
                }
                lemma_sum_remaining_nonneg(self.budget@, self.done@, self.pool_size());
                lemma_count_active_nonneg(self.rt.threads@, self.pool_size());
            }
            let ghost pre = *self;
            let c = self.rt.current;
            if c == 0 {
                let r = self.rt.t_yield();
                match r {
                    None => {
                        proof {
                            assert forall|u: int| 1 <= u < self.pool_size() implies self.slot_ok(
                                u,
                            ) by {
                                assert(pre.slot_ok(u));
                            }
                            assert forall|j: int|
                                1 <= j < self.pool_size() implies self.rt.state_of(j)
                                != State::Ready by {
                                assert(pre.rt.state_of(j) != State::Ready);
                            }
                        }
                        break;
                    },
                    Some((op, np)) => {
                        self.trace.push(np);
                        proof {
                            assert(pre.slot_ok(np as int));
                        }
                        let e = &mut self.entered[np];
                        *e = *e + 1;
                        proof {
                            assert forall|u: int| 1 <= u < self.pool_size() implies self.slot_ok(
                                u,
                            ) by {
                                assert(pre.slot_ok(u));
                            }
                            lemma_sum_remaining_update(
                                pre.budget@,
                                pre.done@,
                                self.budget@,
                                self.done@,
                                np as int,
                                self.pool_size(),
                            );
                            lemma_count_active_update(
                                pre.rt.threads@,
                                self.rt.threads@,
                                np as int,
                                self.pool_size(),
                            );
                            self.measure_nonneg();
                            lemma_user_entry_count_push(pre.trace@, np);
                            lemma_sum_entered_update(
                                pre.entered@,
                                self.entered@,
                                np as int,
                                self.pool_size(),
                            );
                            let ghost base = old(self).trace@.len();
                            assert(self.trace@ == pre.trace@.push(np));
                            assert forall|i: int|
                                0 <= i < base implies self.trace@[i] == old(self).trace@[i] by {
                                assert(self.trace@[i] == pre.trace@[i]);
                            }
                            assert forall|i: int|
                                #![trigger self.trace@[i]]
                                base < i < self.trace@.len() && self.trace@[i - 1] != 0
                                    && self.trace@[i] != 0 implies self.trace@[i - 1]
                                < self.trace@[i] by {
                                if i < pre.trace@.len() {
                                    assert(self.trace@[i - 1] == pre.trace@[i - 1]);
                                    assert(self.trace@[i] == pre.trace@[i]);
                                } else {
                                    assert(self.trace@[i - 1] == pre.trace@.last());
                                    assert(pre.trace@.last() == pre.rt.current);
                                    assert(self.trace@[i - 1] == 0);
                                }
                            }
                        }
                    },
                }
            } else {
                let owes = self.done[c] < self.budget[c];
                if owes {
                    let d = &mut self.done[c];
                    *d = *d + 1;
                    let r = self.rt.t_yield();
                    match r {
                        None => {
                            proof {
                                assert(pre.rt.state_of(0) == State::Ready);
                                assert(false);
                            }
                        },
                        Some((op, np)) => {
                            self.trace.push(np);
                            if np != 0 {
                                proof {
                                    assert(pre.slot_ok(np as int));
                                }
                                let e = &mut self.entered[np];
                                *e = *e + 1;
                            }
                            proof {
                                assert(pre.slot_ok(c as int));
                                assert forall|u: int|
                                    1 <= u < self.pool_size() implies self.slot_ok(u) by {
                                    assert(pre.slot_ok(u));
                                }
                                lemma_sum_remaining_update(
                                    pre.budget@,
                                    pre.done@,
                                    self.budget@,
                                    self.done@,
                                    c as int,
                                    self.pool_size(),
                                );
                                lemma_count_active_update(
                                    pre.rt.threads@,
                                    self.rt.threads@,
                                    np as int,
                                    self.pool_size(),
                                );
                                self.measure_nonneg();
                                lemma_user_entry_count_push(pre.trace@, np);
                                lemma_sum_entered_update(
                                    pre.entered@,
                                    self.entered@,
                                    np as int,
                                    self.pool_size(),
                                );
                                let ghost base = old(self).trace@.len();
                                assert(self.trace@ == pre.trace@.push(np));
                                assert forall|i: int|
                                    0 <= i < base implies self.trace@[i] == old(
                                    self,
                                ).trace@[i] by {
                                    assert(self.trace@[i] == pre.trace@[i]);
                                }
                                assert forall|i: int|
                                    #![trigger self.trace@[i]]
                                    base < i < self.trace@.len() && self.trace@[i - 1] != 0
                                        && self.trace@[i] != 0 implies self.trace@[i - 1]
                                    < self.trace@[i] by {
                                    if i < pre.trace@.len() {
                                        assert(self.trace@[i - 1] == pre.trace@[i - 1]);
                                        assert(self.trace@[i] == pre.trace@[i]);
                                    } else {
                                        assert(self.trace@[i - 1] == pre.trace@.last());
                                        assert(pre.trace@.last() == pre.rt.current);
                                        assert(self.trace@[i] == np);
                                        assert(pre.rt.state_of(0) == State::Ready);
                                        assert(pre.rt.rr_offset(np as int) <= pre.rt.rr_offset(
                                            0,
                                        ));
                                        assert(np > c);
                                    }
                                }
                            }
                        },
                    }
                } else {
                    proof {
                        assert(pre.slot_ok(c as int));
                    }
                    let f = &mut self.finished[c];
                    *f = *f + 1;
                    let r = self.rt.t_return();
                    match r {
                        None => {
                            proof {
                                assert(pre.rt.state_of(0) == State::Ready);
                                assert(false);
                            }
                        },
                        Some((op, np)) => {
                            self.trace.push(np);
                            if np != 0 {
                                proof {
                                    assert(pre.slot_ok(np as int));
                                }
                                let e = &mut self.entered[np];
                                *e = *e + 1;
                            }
                            proof {
                                assert(pre.slot_ok(c as int));
                                assert forall|u: int|
                                    1 <= u < self.pool_size() implies self.slot_ok(u) by {
                                    assert(pre.slot_ok(u));
                                }
                                lemma_sum_remaining_update(
                                    pre.budget@,
                                    pre.done@,
                                    self.budget@,
                                    self.done@,
                                    c as int,
                                    self.pool_size(),
                                );
                                lemma_count_active_update(
                                    pre.rt.threads@,
                                    self.rt.threads@,
                                    c as int,
                                    self.pool_size(),
                                );
                                self.measure_nonneg();
                                lemma_user_entry_count_push(pre.trace@, np);
                                lemma_sum_entered_update(
                                    pre.entered@,
                                    self.entered@,
                                    np as int,
                                    self.pool_size(),
                                );
                                let ghost base = old(self).trace@.len();
                                assert(self.trace@ == pre.trace@.push(np));
                                assert forall|i: int|
                                    0 <= i < base implies self.trace@[i] == old(
                                    self,
                                ).trace@[i] by {
                                    assert(self.trace@[i] == pre.trace@[i]);
                                }
                                assert forall|i: int|
                                    #![trigger self.trace@[i]]
                                    base < i < self.trace@.len() && self.trace@[i - 1] != 0
                                        && self.trace@[i] != 0 implies self.trace@[i - 1]
                                    < self.trace@[i] by {
                                    if i < pre.trace@.len() {
                                        assert(self.trace@[i - 1] == pre.trace@[i - 1]);
                                        assert(self.trace@[i] == pre.trace@[i]);
                                    } else {
                                        assert(self.trace@[i - 1] == pre.trace@.last());
                                        assert(pre.trace@.last() == pre.rt.current);
                                        assert(self.trace@[i] == np);
                                        assert(pre.rt.state_of(0) == State::Ready);
                                        assert(pre.rt.rr_offset(np as int) <= pre.rt.rr_offset(
                                            0,
                                        ));
                                        assert(np > c);
                                    }
                                }
                            }
                        },
                    }
                }
            }
        }
        proof {
            assert forall|u: int|
                1 <= u < self.pool_size() implies self.rt.state_of(u) == State::Available by {
                assert(self.slot_ok(u));
            }
            assert forall|u: int|
                1 <= u < self.pool_size() && old(self).spawned@[u] implies {
                    &&& self.finished@[u] == 1
                    &&& self.done@[u] == old(self).budget@[u]
                    &&& self.entered@[u] == old(self).budget@[u] + 1
                } by {
                assert(self.slot_ok(u));
            }
            assert forall|u: int|
                1 <= u < self.pool_size() && !old(self).spawned@[u] implies {
                    &&& self.finished@[u] == 0
                    &&& self.done@[u] == 0
                    &&& self.entered@[u] == 0
                } by {
                assert(self.slot_ok(u));
            }
        }
    }
}

/// A task that never yields completes within the very scheduling turn that
/// first switches into it: when its slot has been retired its entry count
/// is one, and its body ran exactly once.
pub proof fn lemma_one_shot_task(w: Workload, u: int)
    requires
        w.inv(),
        1 <= u < w.pool_size(),
        w.spawned@[u],
        w.rt.state_of(u) == State::Available,
        w.budget@[u] == 0,
    ensures
        w.entered@[u] == 1,
        w.finished@[u] == 1,
{
    assert(w.slot_ok(u));
}

} // verus!
