use vstd::prelude::*;

use crate::context::CONTEXT_BYTES;
use crate::context::STACK_ALIGN;
use crate::context::ThreadContext;
use crate::context::initial_context;
use crate::context::initial_stack_pointer;
use crate::context::spec_initial_context;
use crate::context::spec_initial_stack_pointer;
use crate::state::State;

verus! {

/// Bytes in each slot's stack buffer.
pub const DEFAULT_STACK_SIZE: usize = 1024 * 1024 * 2;

/// The same stack size as a 64-bit word, for address arithmetic.
pub const STACK_BYTES: u64 = 1024 * 1024 * 2;

/// Default number of user task slots; the pool adds one control slot.
pub const MAX_THREADS: usize = 4;

/// The fatal capacity error: `spawn` was called with no available slot.
/// The pool never grows, so the caller must size it for its peak
/// concurrent task count (slot 0 is reserved for the control context).
#[derive(PartialEq, Eq, Structural, Clone, Copy, Debug)]
pub struct CapacityError;

/// Thread control block: one green thread's slot in the pool. It owns one
/// fixed-size stack buffer, one register context record and one lifecycle
/// state, all allocated once when the pool is built and never freed.
#[verifier::ext_equal]
pub struct Thread {
    /// Immutable slot index.
    pub id: usize,
    /// The slot's stack buffer, allocated once, zero-filled, never resized.
    pub stack: Vec<u8>,
    /// Address of the first byte of the stack buffer, registered by the
    /// embedding program; the scheduling core treats it as a plain number.
    pub stack_base: u64,
    /// Register context record saved and restored by the switch primitive.
    pub ctx: ThreadContext,
    /// Lifecycle state.
    pub state: State,
}

impl Thread {
    /// Well-formedness of the slot at index `i` of the pool: the id matches
    /// the index, the stack buffer has its fixed size, and the registered
    /// stack base leaves the whole buffer below `u64::MAX`.
    pub open spec fn wf(self, i: int) -> bool {
        &&& self.id == i
        &&& self.stack@.len() == DEFAULT_STACK_SIZE
        &&& self.stack_base + STACK_BYTES <= u64::MAX
    }

    /// Builds a fresh available slot: zeroed context, a newly allocated
    /// zero-filled stack of the fixed size, and no registered base yet.
    pub fn new(id: usize) -> (t: Thread)
        ensures
            t.id == id,
            t.state == State::Available,
            t.ctx == ThreadContext::spec_zeroed(),
            t.stack_base == 0,
            t.stack@.len() == DEFAULT_STACK_SIZE,
            forall|k: int| 0 <= k < t.stack@.len() ==> t.stack@[k] == 0,
    {
        Thread::new_with_state(id, State::Available)
    }

    /// Builds a fresh slot in a caller-chosen state; used once per pool,
    /// for slot 0, which starts `Running` as the control context.
    pub fn new_with_state(id: usize, state: State) -> (t: Thread)
        ensures
            t.id == id,
            t.state == state,
            t.ctx == ThreadContext::spec_zeroed(),
            t.stack_base == 0,
            t.stack@.len() == DEFAULT_STACK_SIZE,
            forall|k: int| 0 <= k < t.stack@.len() ==> t.stack@[k] == 0,
    {
        let stack: Vec<u8> = vec![0u8; DEFAULT_STACK_SIZE];
        Thread { id, stack, stack_base: 0, ctx: ThreadContext::zeroed(), state }
    }
}

/// The scheduling core: a fixed, ordered pool of thread control blocks and
/// the index of the one presently executing. Slot 0 is the original control
/// context that drives the pool and never runs user task code itself.
///
/// The methods that perform a scheduling step return the pair of slot
/// indices `(old, new)` to switch between instead of switching registers
/// themselves: the architecture-specific switch primitive is the embedding
/// program's, and acts on the two slots' context records.
pub struct Runtime {
    /// The pool; its length never changes after construction.
    pub threads: Vec<Thread>,
    /// Index of the slot whose context is presently executing.
    pub current: usize,
}

impl Runtime {
    /// Number of slots in the pool, the control slot included.
    pub open spec fn pool_size(self) -> int {
        self.threads@.len() as int
    }

    /// Lifecycle state of slot `i`.
    pub open spec fn state_of(self, i: int) -> State {
        self.threads@[i].state
    }

    /// Well-formedness: the pool is non-empty, `current` indexes it, and
    /// every slot is well-formed at its index.
    pub open spec fn wf(self) -> bool {
        &&& 1 <= self.pool_size()
        &&& self.current < self.pool_size()
        &&& forall|i: int| 0 <= i < self.pool_size() ==> (#[trigger] self.threads@[i]).wf(i)
    }

    /// How many steps the round-robin scan takes from `current` to reach
    /// slot `j`: slots are visited in the order `current + 1`,
    /// `current + 2`, ... wrapping at the pool size; `current` itself is
    /// the last, at distance `pool_size`.
    pub open spec fn rr_offset(self, j: int) -> int {
        if j > self.current { j - self.current } else { j - self.current + self.pool_size() }
    }

    /// Builds a pool of `capacity + 1` slots: slot 0 is the control context
    /// and starts `Running`; slots `1..=capacity` start `Available` with a
    /// zeroed context and a fresh zero-filled stack. `current` is 0.
    pub fn new(capacity: usize) -> (rt: Runtime)
        requires
            capacity < usize::MAX,
        ensures
            rt.wf(),
            rt.pool_size() == capacity + 1,
            rt.current == 0,
            rt.state_of(0) == State::Running,
            forall|i: int| 1 <= i < rt.pool_size() ==> rt.state_of(i) == State::Available,
            forall|i: int|
                0 <= i < rt.pool_size() ==> (#[trigger] rt.threads@[i]).ctx
                    == ThreadContext::spec_zeroed(),
            forall|i: int| 0 <= i < rt.pool_size() ==> (#[trigger] rt.threads@[i]).stack_base == 0,
            forall|i: int, k: int|
                0 <= i < rt.pool_size() && 0 <= k < rt.threads@[i].stack@.len()
                    ==> rt.threads@[i].stack@[k] == 0,
    {
        let mut threads: Vec<Thread> = Vec::new();
        threads.push(Thread::new_with_state(0, State::Running));
        let mut i: usize = 1;
        while i <= capacity
            invariant
                1 <= i <= capacity + 1,
                capacity < usize::MAX,
                threads@.len() == i,
                forall|j: int| 0 <= j < i ==> (#[trigger] threads@[j]).wf(j),
                threads@[0].state == State::Running,
                forall|j: int| 1 <= j < i ==> (#[trigger] threads@[j]).state == State::Available,
                forall|j: int|
                    0 <= j < i ==> (#[trigger] threads@[j]).ctx == ThreadContext::spec_zeroed(),
                forall|j: int| 0 <= j < i ==> (#[trigger] threads@[j]).stack_base == 0,
                forall|j: int, k: int|
                    0 <= j < i && 0 <= k < threads@[j].stack@.len() ==> threads@[j].stack@[k] == 0,
            decreases capacity + 1 - i,
        {
            threads.push(Thread::new(i));
            i = i + 1;
        }
        Runtime { threads, current: 0 }
    }

    /// Registers the machine address of slot `slot`'s stack buffer, so that
    /// a later `spawn` can aim the slot's initial stack pointer at it. The
    /// scheduling core never dereferences the address.
    pub fn set_stack_base(&mut self, slot: usize, base: u64)
        requires
            old(self).wf(),
            slot < old(self).pool_size(),
            base + STACK_BYTES <= u64::MAX,
        ensures
            final(self).wf(),
            final(self).current == old(self).current,
            final(self).threads@ == old(self).threads@.update(
                slot as int,
                Thread { stack_base: base, ..old(self).threads@[slot as int] },
            ),
    {
        let t = &mut self.threads[slot];
        t.stack_base = base;
    }

    /// Spawns a task: finds the lowest-index available slot, writes its
    /// context so that a first switch into it enters the task at address
    /// `entry` with the stack pointer aimed at the slot's prepared stack,
    /// and with the trampoline address `ret` as the return address, then
    /// marks the slot `Ready`. The task does not execute yet.
    ///
    /// With no available slot this is the fatal capacity error: the pool
    /// never grows, and nothing in it is touched.
    pub fn spawn(&mut self, entry: u64, ret: u64) -> (r: Result<usize, CapacityError>)
        requires
            old(self).wf(),
        ensures
            final(self).wf(),
            final(self).current == old(self).current,
            final(self).pool_size() == old(self).pool_size(),
            match r {
                Ok(s) => {
                    &&& 0 <= s < old(self).pool_size()
                    &&& old(self).state_of(s as int) == State::Available
                    &&& forall|j: int|
                        0 <= j < s ==> old(self).state_of(j) != State::Available
                    &&& final(self).threads@ == old(self).threads@.update(
                        s as int,
                        Thread {
                            state: State::Ready,
                            ctx: spec_initial_context(
                                entry,
                                ret,
                                spec_initial_stack_pointer(
                                    old(self).threads@[s as int].stack_base,
                                    STACK_BYTES,
                                ) as u64,
                            ),
                            ..old(self).threads@[s as int]
                        },
                    )
                },
                Err(_) => {
                    &&& forall|j: int|
                        0 <= j < old(self).pool_size() ==> old(self).state_of(j)
                            != State::Available
                    &&& *final(self) == *old(self)
                },
            },
    {
        let n = self.threads.len();
        let mut i: usize = 0;
        while i < n
            invariant
                self == old(self),
                self.wf(),
                n == self.pool_size(),
                i <= n,
                forall|j: int| 0 <= j < i ==> self.state_of(j) != State::Available,
            decreases n - i,
        {
            if self.threads[i].state == State::Available {
                let base = self.threads[i].stack_base;
                proof {
                    assert(self.threads@[i as int].wf(i as int));
                    assert(STACK_BYTES >= CONTEXT_BYTES + STACK_ALIGN);
                }
                let sp = initial_stack_pointer(base, STACK_BYTES);
                let ctx = initial_context(entry, ret, sp);
                let t = &mut self.threads[i];
                t.ctx = ctx;
                t.state = State::Ready;
                return Ok(i);
            }
            i = i + 1;
        }
        Err(CapacityError)
    }

    /// The round-robin scheduling step: scans the pool from the slot after
    /// `current`, wrapping, for the first `Ready` slot. Finding none — the
    /// scan came back to `current` — it changes nothing and reports no
    /// switch. Otherwise it marks the found slot `Running`, makes it
    /// `current`, and returns the pair `(old, new)` of slot indices whose
    /// context records the switch primitive must now save into and load
    /// from. `current`'s own slot is never a candidate, so a lone caller
    /// with no ready sibling is not re-entered by its own step.
    pub fn t_schedule(&mut self) -> (r: Option<(usize, usize)>)
        requires
            old(self).wf(),
        ensures
            final(self).wf(),
            final(self).pool_size() == old(self).pool_size(),
            match r {
                None => {
                    &&& *final(self) == *old(self)
                    &&& forall|j: int|
                        0 <= j < old(self).pool_size() && j != old(self).current
                            ==> old(self).state_of(j) != State::Ready
                },
                Some((op, np)) => {
                    &&& op == old(self).current
                    &&& np == final(self).current
                    &&& 0 <= np < old(self).pool_size()
                    &&& np != op
                    &&& old(self).state_of(np as int) == State::Ready
                    &&& forall|j: int|
                        0 <= j < old(self).pool_size() && j != op && old(self).state_of(j)
                            == State::Ready ==> old(self).rr_offset(np as int)
                            <= old(self).rr_offset(j)
                    &&& final(self).threads@ == old(self).threads@.update(
                        np as int,
                        Thread { state: State::Running, ..old(self).threads@[np as int] },
                    )
                },
            },
    {
        let n = self.threads.len();
        let mut pos: usize = self.current + 1;
        if pos == n {
            pos = 0;
        }
        while pos != self.current
            invariant
                self == old(self),
                self.wf(),
                n == self.pool_size(),
                pos < n,
                1 <= self.rr_offset(pos as int) <= n,
                forall|j: int|
                    0 <= j < n && j != self.current && self.rr_offset(j) < self.rr_offset(
                        pos as int,
                    ) ==> self.state_of(j) != State::Ready,
            decreases n - self.rr_offset(pos as int),
        {
            if self.threads[pos].state == State::Ready {
                let t = &mut self.threads[pos];
                t.state = State::Running;
                let old_pos = self.current;
                self.current = pos;
                return Some((old_pos, pos));
            }
            pos = pos + 1;
            if pos == n {
                pos = 0;
            }
        }
        None
    }

    /// Yields the presently executing slot: marks it `Ready`, then performs
    /// the scheduling step. With no ready sibling the step is a no-op — the
    /// slot is `Running` again and the caller continues past the yield in
    /// place, not re-entered by its own call; otherwise the found slot is
    /// `Running`, `current` moves to it, and the pair to switch between is
    /// returned.
    pub fn t_yield(&mut self) -> (r: Option<(usize, usize)>)
        requires
            old(self).wf(),
            old(self).state_of(old(self).current as int) == State::Running,
        ensures
            final(self).wf(),
            final(self).pool_size() == old(self).pool_size(),
            match r {
                None => {
                    &&& final(self).threads@ == old(self).threads@
                    &&& final(self).current == old(self).current
                    &&& forall|j: int|
                        0 <= j < old(self).pool_size() && j != old(self).current
                            ==> old(self).state_of(j) != State::Ready
                },
                Some((op, np)) => {
                    &&& op == old(self).current
                    &&& np == final(self).current
                    &&& 0 <= np < old(self).pool_size()
                    &&& np != op
                    &&& old(self).state_of(np as int) == State::Ready
                    &&& forall|j: int|
                        0 <= j < old(self).pool_size() && j != op && old(self).state_of(j)
                            == State::Ready ==> old(self).rr_offset(np as int)
                            <= old(self).rr_offset(j)
                    &&& final(self).threads@ == old(self).threads@.update(
                        op as int,
                        Thread { state: State::Ready, ..old(self).threads@[op as int] },
                    ).update(
                        np as int,
                        Thread { state: State::Running, ..old(self).threads@[np as int] },
                    )
                },
            },
    {
        let cur = self.current;
        let t = &mut self.threads[cur];
        t.state = State::Ready;
        let ghost marked = *self;
        let r = self.t_schedule();
        match r {
            None => {
                let t2 = &mut self.threads[cur];
                t2.state = State::Running;
                proof {
                    assert forall|k: int|
                        0 <= k < old(self).threads@.len() implies self.threads@[k] == old(
                        self,
                    ).threads@[k] by {
                        if k == cur as int {
                            assert(self.threads@[k] =~= old(self).threads@[k]);
                        }
                    }
                    assert(self.threads@ =~= old(self).threads@);
                    assert forall|j: int|
                        0 <= j < old(self).pool_size() && j != old(self).current implies old(
                        self,
                    ).state_of(j) != State::Ready by {
                        assert(marked.state_of(j) != State::Ready);
                    }
                }
                None
            },
            Some((op, np)) => {
                proof {
                    assert forall|j: int|
                        0 <= j < old(self).pool_size() && j != op && old(self).state_of(j)
                            == State::Ready implies old(self).rr_offset(np as int) <= old(
                        self,
                    ).rr_offset(j) by {
                        assert(marked.state_of(j) == State::Ready);
                        assert(marked.rr_offset(j) == old(self).rr_offset(j));
                        assert(marked.rr_offset(np as int) == old(self).rr_offset(np as int));
                    }
                }
                Some((op, np))
            },
        }
    }

    /// Retires the presently executing slot: its task's body has returned,
    /// so the slot is marked `Available` for a future spawn, and the
    /// scheduling step picks whom to switch to. With no ready sibling the
    /// step reports no switch and the slot stays `Available`.
    pub fn t_return(&mut self) -> (r: Option<(usize, usize)>)
        requires
            old(self).wf(),
            old(self).state_of(old(self).current as int) == State::Running,
        ensures
            final(self).wf(),
            final(self).pool_size() == old(self).pool_size(),
            match r {
                None => {
                    &&& final(self).current == old(self).current
                    &&& final(self).threads@ == old(self).threads@.update(
                        old(self).current as int,
                        Thread {
                            state: State::Available,
                            ..old(self).threads@[old(self).current as int]
                        },
                    )
                    &&& forall|j: int|
                        0 <= j < old(self).pool_size() && j != old(self).current
                            ==> old(self).state_of(j) != State::Ready
                },
                Some((op, np)) => {
                    &&& op == old(self).current
                    &&& np == final(self).current
                    &&& 0 <= np < old(self).pool_size()
                    &&& np != op
                    &&& old(self).state_of(np as int) == State::Ready
                    &&& forall|j: int|
                        0 <= j < old(self).pool_size() && j != op && old(self).state_of(j)
                            == State::Ready ==> old(self).rr_offset(np as int)
                            <= old(self).rr_offset(j)
                    &&& final(self).threads@ == old(self).threads@.update(
                        op as int,
                        Thread { state: State::Available, ..old(self).threads@[op as int] },
                    ).update(
                        np as int,
                        Thread { state: State::Running, ..old(self).threads@[np as int] },
                    )
                },
            },
    {
        let cur = self.current;
        let t = &mut self.threads[cur];
        t.state = State::Available;
        let ghost marked = *self;
        let r = self.t_schedule();
        match r {
            None => {
                proof {
                    assert(self.threads@ =~= old(self).threads@.update(
                        cur as int,
                        Thread { state: State::Available, ..old(self).threads@[cur as int] },
                    ));
                    assert forall|j: int|
                        0 <= j < old(self).pool_size() && j != old(self).current implies old(
                        self,
                    ).state_of(j) != State::Ready by {
                        assert(marked.state_of(j) != State::Ready);
                    }
                }
                None
            },
            Some((op, np)) => {
                proof {
                    assert forall|j: int|
                        0 <= j < old(self).pool_size() && j != op && old(self).state_of(j)
                            == State::Ready implies old(self).rr_offset(np as int) <= old(
                        self,
                    ).rr_offset(j) by {
                        assert(marked.state_of(j) == State::Ready);
                        assert(marked.rr_offset(j) == old(self).rr_offset(j));
                        assert(marked.rr_offset(np as int) == old(self).rr_offset(np as int));
                    }
                }
                Some((op, np))
            },
        }
    }
}

} // verus!
