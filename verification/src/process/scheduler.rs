//! The round-robin scheduler.

use vstd::prelude::*;
use std::collections::VecDeque;
use crate::allocator::bin::{carved, class_of, coalesced, first_stocked, Allocator};
use crate::allocator::util::CLASSES;
use crate::process::process::{Id, Process};
use crate::process::stack::{Stack, STACK_SIZE};
use crate::process::state::State;
use crate::traps::trap_frame::TrapFrame;

verus! {

/// The `tick` time: the number of microseconds after which the running
/// process is preempted.
pub const TICK: u32 = 10000;

/// The saved program status with which a process starts: at the
/// unprivileged level, with only interrupt requests unmasked.
pub const INITIAL_SPSR: u64 = 0x340;

/// `ids` with its first `count` elements moved behind the others.
pub open spec fn rotated(ids: Seq<Id>, count: int) -> Seq<Id> {
    ids.subrange(count, ids.len() as int) + ids.subrange(0, count)
}

/// Moving elements from the front to the back keeps what the sequence holds,
/// each as often as before.
pub proof fn lemma_rotation_keeps_elements(ids: Seq<Id>, count: int)
    requires
        0 <= count <= ids.len(),
    ensures
        rotated(ids, count).to_multiset() == ids.to_multiset(),
        rotated(ids, count).len() == ids.len(),
        ids.no_duplicates() ==> rotated(ids, count).no_duplicates(),
{
    let front = ids.subrange(0, count);
    let back = ids.subrange(count, ids.len() as int);
    assert(ids =~= front + back);
    vstd::seq_lib::lemma_multiset_commutative(front, back);
    vstd::seq_lib::lemma_multiset_commutative(back, front);
    assert(front.to_multiset().add(back.to_multiset()) =~= back.to_multiset().add(
        front.to_multiset(),
    ));
    if ids.no_duplicates() {
        let turned = rotated(ids, count);
        assert forall|i: int, j: int|
            0 <= i < turned.len() && 0 <= j < turned.len() && i != j implies turned[i]
            != turned[j] by {
            let oi = if i < ids.len() - count {
                i + count
            } else {
                i - (ids.len() - count)
            };
            let oj = if j < ids.len() - count {
                j + count
            } else {
                j - (ids.len() - count)
            };
            assert(turned[i] == ids[oi]);
            assert(turned[j] == ids[oj]);
        }
    }
}

/// The IDs of the processes `queue`, in order.
pub open spec fn ids_of(queue: Seq<Process>) -> Seq<Id> {
    Seq::new(queue.len(), |i: int| queue[i].id())
}

/// The position of the first process of `queue` that can be scheduled at the
/// time `now`.
pub open spec fn first_schedulable(queue: Seq<Process>, now: u64) -> Option<int>
    decreases queue.len(),
{
    if queue.len() == 0 {
        None
    } else if queue[0].schedulable(now) {
        Some(0)
    } else {
        match first_schedulable(queue.subrange(1, queue.len() as int), now) {
            Some(index) => Some(index + 1),
            None => None,
        }
    }
}

/// The first process that can be scheduled is the one before which none
/// can.
pub proof fn lemma_first_schedulable(queue: Seq<Process>, now: u64, count: int)
    requires
        0 <= count <= queue.len(),
        forall|i: int| 0 <= i < count ==> !(#[trigger] queue[i]).schedulable(now),
    ensures
        count < queue.len() && queue[count].schedulable(now) ==> first_schedulable(queue, now)
            == Some(count),
        count == queue.len() ==> first_schedulable(queue, now) is None,
        first_schedulable(queue, now) matches Some(index) ==> count <= index < queue.len()
            && queue[index].schedulable(now),
    decreases queue.len(),
{
    if queue.len() > 0 {
        let rest = queue.subrange(1, queue.len() as int);
        if count > 0 {
            assert(!queue[0].schedulable(now));
            assert forall|i: int| 0 <= i < count - 1 implies !(#[trigger] rest[i]).schedulable(
                now,
            ) by {
                assert(rest[i] == queue[i + 1]);
            }
            lemma_first_schedulable(rest, now, count - 1);
            if count < queue.len() {
                assert(rest[count - 1] == queue[count]);
            }
            match first_schedulable(rest, now) {
                Some(index) => {
                    assert(rest[index] == queue[index + 1]);
                },
                None => {},
            }
        } else {
            lemma_first_schedulable(rest, now, 0);
            match first_schedulable(rest, now) {
                Some(index) => {
                    assert(rest[index] == queue[index + 1]);
                },
                None => {},
            }
        }
    }
}

/// The process that was running, as it is put behind the others: in the
/// state `state`, with the registers `frame`.
pub open spec fn parked(process: Process, state: State, frame: TrapFrame) -> Process {
    Process { trap_frame: Box::new(frame), stack: process.stack, state }
}

/// Whether `after` is the process `before` as it starts running at the time
/// `now`: in the state `Running`, with the registers it was put aside with,
/// or, if it waited for time to pass, with the results of its sleep call in
/// them.
pub open spec fn runs_from(after: Process, before: Process, now: u64) -> bool {
    &&& after.state == State::Running
    &&& after.stack == before.stack
    &&& exists|woken: Process| #[trigger]
        woken.woken_from(before, now) && *after.trap_frame == *woken.trap_frame
}

/// Whether searching `queue` once at the time `now` gives the queue
/// `after`, the running process `current`, the registers `frame` in place of
/// `saved`, and the result `id`.
///
/// The first process that can be scheduled becomes the running process and
/// the first of the queue, and its registers are restored; those before it
/// go to the back in their order. If no process can be scheduled, nothing
/// changes and no process is running.
pub open spec fn searched(
    queue: Seq<Process>,
    saved: TrapFrame,
    now: u64,
    after: Seq<Process>,
    current: Option<Id>,
    frame: TrapFrame,
    id: Option<Id>,
) -> bool {
    match first_schedulable(queue, now) {
        Some(index) => {
            &&& id == Some(queue[index].id())
            &&& current == id
            &&& after.len() == queue.len()
            &&& runs_from(after[0], queue[index], now)
            &&& frame == *after[0].trap_frame
            &&& after.subrange(1, queue.len() as int) == queue.subrange(
                index + 1,
                queue.len() as int,
            ) + queue.subrange(0, index)
        },
        None => {
            &&& id is None
            &&& current is None
            &&& after == queue
            &&& frame == saved
        },
    }
}

/// A search keeps the processes of the queue: the IDs in the queue are the
/// same afterwards, each as often as before.
pub proof fn lemma_search_keeps_ids(
    queue: Seq<Process>,
    saved: TrapFrame,
    now: u64,
    after: Seq<Process>,
    current: Option<Id>,
    frame: TrapFrame,
    id: Option<Id>,
)
    requires
        searched(queue, saved, now, after, current, frame, id),
    ensures
        ids_of(after).to_multiset() == ids_of(queue).to_multiset(),
{
    match first_schedulable(queue, now) {
        Some(index) => {
            lemma_first_schedulable(queue, now, 0);
            let rest = queue.subrange(index + 1, queue.len() as int) + queue.subrange(0, index);
            assert(after[0].id() == queue[index].id());
            assert(ids_of(after) =~= rotated(ids_of(queue), index)) by {
                assert forall|i: int| 0 <= i < after.len() implies ids_of(after)[i] == rotated(
                    ids_of(queue),
                    index,
                )[i] by {
                    if i > 0 {
                        assert(after[i] == after.subrange(1, queue.len() as int)[i - 1]);
                        assert(after[i] == rest[i - 1]);
                    }
                }
            }
            lemma_rotation_keeps_elements(ids_of(queue), index);
        },
        None => {},
    }
}

/// Process scheduler for the entire machine.
#[derive(Debug)]
pub struct Scheduler {
    processes: VecDeque<Process>,
    current: Option<Id>,
    last_id: Option<Id>,
}

impl Scheduler {
    /// The queue of processes: the running process first, then the others in
    /// the order in which they will be considered.
    pub closed spec fn queue(&self) -> Seq<Process> {
        self.processes@
    }

    /// The ID of the running process; `None` before the first process is
    /// added and while no process can run.
    pub closed spec fn current(&self) -> Option<Id> {
        self.current
    }

    /// The last ID that was assigned.
    pub closed spec fn last_id(&self) -> Option<Id> {
        self.last_id
    }

    /// The IDs of the processes in the queue, in order.
    pub open spec fn ids(&self) -> Seq<Id> {
        ids_of(self.queue())
    }

    /// Whether `id` is an ID that was assigned: it is not zero and not larger
    /// than the last that was assigned.
    pub open spec fn assigned(&self, id: Id) -> bool {
        id != 0 && match self.last_id() {
            Some(last) => id <= last,
            None => false,
        }
    }

    /// The invariant of the scheduler: every process has an ID of its own,
    /// which is not zero and was assigned, and the running process is the
    /// first of the queue.
    pub open spec fn wf(&self) -> bool {
        &&& self.ids().no_duplicates()
        &&& forall|i: int| 0 <= i < self.ids().len() ==> self.assigned(#[trigger] self.ids()[i])
        &&& self.current() matches Some(id) ==> self.queue().len() > 0 && self.queue()[0].id() == id
    }

    /// Whether a switch of `self` to the state `new_state` at the time `now`,
    /// with the registers `saved`, gives the scheduler `after`, the registers
    /// `frame` and the result `id`.
    ///
    /// If `saved` is not of the current process, nothing changes and the
    /// result is `None`. Otherwise the current process goes to the back of
    /// the queue in the state `new_state` with the registers `saved`, and the
    /// queue is searched once.
    pub open spec fn switched(
        &self,
        new_state: State,
        saved: TrapFrame,
        now: u64,
        after: Scheduler,
        frame: TrapFrame,
        id: Option<Id>,
    ) -> bool {
        if self.current() != Some(saved.tpidr) {
            &&& id is None
            &&& after.queue() == self.queue()
            &&& after.current() == self.current()
            &&& frame == saved
        } else {
            searched(
                self.queue().subrange(1, self.queue().len() as int).push(
                    parked(self.queue()[0], new_state, saved),
                ),
                saved,
                now,
                after.queue(),
                after.current(),
                frame,
                id,
            )
        }
    }

    /// What `add` does: whether adding `process` to this scheduler gives
    /// the scheduler `after` and the result `id`.
    ///
    /// The process gets the ID that follows the last one assigned, in its
    /// registers too, and goes to the back of the queue. It becomes the
    /// current process if it is the first. Once every ID has been assigned,
    /// nothing changes and the result is `None`.
    pub open spec fn added(&self, process: Process, after: Scheduler, id: Option<Id>) -> bool {
        match id {
            Some(id) => {
                &&& id == match self.last_id() {
                    Some(last) => last + 1,
                    None => 1,
                }
                &&& after.last_id() == Some(id)
                &&& after.queue() == self.queue().push(
                    Process {
                        trap_frame: Box::new(TrapFrame { tpidr: id, ..*process.trap_frame }),
                        stack: process.stack,
                        state: process.state,
                    },
                )
                &&& after.ids() == self.ids().push(id)
                &&& after.current() == if self.current() is None && self.queue().len() == 0 {
                    Some(id)
                } else {
                    self.current()
                }
            },
            None => {
                &&& self.last_id() == Some(u64::MAX)
                &&& after.queue() == self.queue()
                &&& after.current() == self.current()
                &&& after.last_id() == self.last_id()
            },
        }
    }

    /// What `schedule` does: whether it turns this scheduler, with the
    /// registers `saved`, into the scheduler `after` with the registers
    /// `frame` and the result `id`.
    ///
    /// While a process runs, nothing changes and the result is `None`.
    /// Otherwise the queue is searched once.
    pub open spec fn scheduled(
        &self,
        saved: TrapFrame,
        now: u64,
        after: Scheduler,
        frame: TrapFrame,
        id: Option<Id>,
    ) -> bool {
        if self.current() is Some {
            &&& id is None
            &&& after.queue() == self.queue()
            &&& after.current() == self.current()
            &&& frame == saved
        } else {
            searched(self.queue(), saved, now, after.queue(), after.current(), frame, id)
        }
    }

    /// A switch to `Ready` on behalf of the running process always finds a
    /// process to run, and the queue holds the same processes afterwards.
    pub proof fn lemma_preemption_never_fails(
        &self,
        saved: TrapFrame,
        now: u64,
        after: Scheduler,
        frame: TrapFrame,
        id: Option<Id>,
    )
        requires
            self.wf(),
            self.current() == Some(saved.tpidr),
            self.switched(State::Ready, saved, now, after, frame, id),
        ensures
            id is Some,
            after.current() == id,
            after.queue().len() == self.queue().len(),
            after.ids().to_multiset() == self.ids().to_multiset(),
    {
        let queue = self.queue();
        let turned = queue.subrange(1, queue.len() as int).push(
            parked(queue[0], State::Ready, saved),
        );
        lemma_preemption_finds_a_process(queue, saved, now);
        lemma_search_keeps_ids(turned, saved, now, after.queue(), after.current(), frame, id);
        assert(ids_of(turned) =~= rotated(ids_of(queue), 1));
        lemma_rotation_keeps_elements(ids_of(queue), 1);
    }

    /// Returns a new `Scheduler` with an empty queue.
    pub fn new() -> (scheduler: Scheduler)
        ensures
            scheduler.wf(),
            scheduler.queue().len() == 0,
            scheduler.current() is None,
            scheduler.last_id() is None,
    {
        Scheduler { processes: VecDeque::new(), current: None, last_id: None }
    }

    /// The ID of the running process, if there is one.
    pub fn running(&self) -> (id: Option<Id>)
        ensures
            id == self.current(),
    {
        self.current
    }

    /// The number of processes in the queue.
    pub fn len(&self) -> (count: usize)
        ensures
            count == self.queue().len(),
    {
        self.processes.len()
    }

    /// Adds a process to the scheduler's queue and returns that process's ID
    /// if a new process can be scheduled. The process ID is newly allocated
    /// for the process and saved in its `trap_frame`: it is the last ID that
    /// was assigned plus one, and 1 for the first process. If no further
    /// processes can be scheduled, because every ID was assigned, returns
    /// `None`.
    ///
    /// If this is the first process added, it is marked as the current
    /// process. It is the caller's responsibility to ensure that the first
    /// time `switch` is called, that process is executing on the CPU.
    pub fn add(&mut self, process: Process) -> (id: Option<Id>)
        requires
            old(self).wf(),
        ensures
            final(self).wf(),
            old(self).added(process, *final(self), id),
    {
        let last = match self.last_id {
            Some(last) => last,
            None => 0,
        };
        if last == u64::MAX {
            return None;
        }
        let id = last + 1;
        let mut process = process;
        process.trap_frame.tpidr = id;
        let first = self.processes.len() == 0;
        self.last_id = Some(id);
        self.processes.push_back(process);
        if first && self.current.is_none() {
            self.current = Some(id);
        }
        proof {
            assert(self.ids() =~= old(self).ids().push(id));
            assert(self.queue().subrange(0, old(self).queue().len() as int) =~= old(self).queue());
            assert forall|i: int| 0 <= i < old(self).ids().len() implies old(self).ids()[i]
                <= last by {
                assert(old(self).assigned(old(self).ids()[i]));
            }
            if old(self).current() is Some {
                assert(self.queue()[0] == old(self).queue()[0]);
            }
        }
        Some(id)
    }

    /// Sets the current process's state to `new_state`, finds the next
    /// process to switch to at the time `now`, and performs the context
    /// switch on `tf` by saving `tf` into the current process and restoring
    /// the next process's trap frame into `tf`.
    ///
    /// If `tf` is not that of the current process, nothing is changed and the
    /// result is `None`. Otherwise the current process goes to the back of
    /// the queue, and the queue is searched from its front for the first
    /// process that can be scheduled. That process becomes the running
    /// process and the first of the queue; those before it go to the back
    /// in their order; the result is `Some` of its ID. If no process can be
    /// scheduled, there is no current process any more, `tf` is unchanged
    /// and the result is `None`: wait for an interrupt and call
    /// [`Scheduler::schedule`].
    pub fn switch(&mut self, new_state: State, tf: &mut TrapFrame, now: u64) -> (id: Option<Id>)
        requires
            old(self).wf(),
        ensures
            final(self).wf(),
            final(self).last_id() == old(self).last_id(),
            final(self).ids().to_multiset() == old(self).ids().to_multiset(),
            old(self).switched(new_state, *old(tf), now, *final(self), *final(tf), id),
    {
        if self.current != Some(tf.tpidr) {
            return None;
        }
        let ghost before = self.queue();
        let mut process = match self.processes.pop_front() {
            Some(process) => process,
            None => {
                return None;
            },
        };
        process.state = new_state;
        *process.trap_frame = *tf;
        self.processes.push_back(process);
        self.current = None;
        proof {
            let queue = before.subrange(1, before.len() as int).push(
                parked(before[0], new_state, *old(tf)),
            );
            assert(self.queue() =~= queue);
            assert(ids_of(queue) =~= rotated(ids_of(before), 1));
            lemma_rotation_keeps_elements(ids_of(before), 1);
            assert forall|i: int| 0 <= i < self.ids().len() implies self.assigned(
                #[trigger] self.ids()[i],
            ) by {
                if i + 1 < before.len() {
                    assert(self.ids()[i] == old(self).ids()[i + 1]);
                } else {
                    assert(self.ids()[i] == old(self).ids()[0]);
                }
            }
        }
        self.scan(tf, now)
    }

    /// Finds the first process that can be scheduled at the time `now` and
    /// switches to it, if no process is running.
    ///
    /// If there is a running process, nothing is changed and the result is
    /// `None`. Otherwise the queue is searched from its front as `switch`
    /// does: the first process that can be scheduled becomes the running
    /// process and the first of the queue, its trap frame is restored into
    /// `tf`, and the result is `Some` of its ID. If no process can be
    /// scheduled, nothing is changed and the result is `None`.
    pub fn schedule(&mut self, tf: &mut TrapFrame, now: u64) -> (id: Option<Id>)
        requires
            old(self).wf(),
        ensures
            final(self).wf(),
            final(self).last_id() == old(self).last_id(),
            final(self).ids().to_multiset() == old(self).ids().to_multiset(),
            old(self).scheduled(*old(tf), now, *final(self), *final(tf), id),
    {
        if self.current.is_some() {
            return None;
        }
        self.scan(tf, now)
    }

    /// Searches the queue once, from its front, for a process that can be
    /// scheduled at the time `now`, and switches to the first that can.
    fn scan(&mut self, tf: &mut TrapFrame, now: u64) -> (id: Option<Id>)
        requires
            old(self).wf(),
            old(self).current() is None,
        ensures
            final(self).wf(),
            final(self).last_id() == old(self).last_id(),
            final(self).ids().to_multiset() == old(self).ids().to_multiset(),
            ({
                let queue = old(self).queue();
                searched(
                    queue,
                    *old(tf),
                    now,
                    final(self).queue(),
                    final(self).current(),
                    *final(tf),
                    id,
                )
            }),
    {
        let ghost queue = self.queue();
        let count = self.processes.len();
        let mut tried: usize = 0;
        while tried < count
            invariant
                tried <= count,
                count == queue.len(),
                queue == old(self).queue(),
                old(self).wf(),
                self.current() is None,
                self.last_id() == old(self).last_id(),
                *tf == *old(tf),
                self.queue() == queue.subrange(tried as int, count as int) + queue.subrange(
                    0,
                    tried as int,
                ),
                forall|i: int| 0 <= i < tried ==> !(#[trigger] queue[i]).schedulable(now),
            decreases count - tried,
        {
            let mut process = match self.processes.pop_front() {
                Some(process) => process,
                None => {
                    proof {
                        assert(false);
                    }
                    return None;
                },
            };
            assert(process == queue[tried as int]);
            let ghost popped = process;
            if process.is_ready(now) {
                let ghost woken = process;
                *tf = *process.trap_frame;
                process.state = State::Running;
                self.current = Some(tf.tpidr);
                let ghost running = process;
                self.processes.push_front(process);
                proof {
                    lemma_first_schedulable(queue, now, tried as int);
                    assert(woken.woken_from(popped, now));
                    assert(runs_from(running, queue[tried as int], now));
                    assert(running.id() == queue[tried as int].id());
                    assert(self.queue().subrange(1, count as int) =~= queue.subrange(
                        tried + 1,
                        count as int,
                    ) + queue.subrange(0, tried as int));
                    assert(self.ids() =~= rotated(ids_of(queue), tried as int));
                    lemma_rotation_keeps_elements(ids_of(queue), tried as int);
                    assert forall|i: int| 0 <= i < self.ids().len() implies self.assigned(
                        #[trigger] self.ids()[i],
                    ) by {
                        if i < count - tried {
                            assert(self.ids()[i] == old(self).ids()[i + tried]);
                        } else {
                            assert(self.ids()[i] == old(self).ids()[i - (count - tried)]);
                        }
                    }
                }
                return self.current;
            } else {
                self.processes.push_back(process);
                proof {
                    assert(self.queue() =~= queue.subrange(tried + 1, count as int)
                        + queue.subrange(0, tried + 1));
                }
            }
            tried += 1;
        }
        proof {
            lemma_first_schedulable(queue, now, count as int);
            assert(self.queue() =~= queue);
        }
        None
    }
}

/// The scheduler of the machine, which is there once the machine has been
/// started.
#[derive(Debug)]
pub struct GlobalScheduler(Option<Scheduler>);

impl GlobalScheduler {
    /// The scheduler, once there is one.
    pub closed spec fn scheduler(&self) -> Option<Scheduler> {
        self.0
    }

    /// The invariant: the scheduler, if there is one, meets its own.
    pub open spec fn wf(&self) -> bool {
        self.scheduler() matches Some(scheduler) ==> scheduler.wf()
    }

    /// Returns an uninitialized wrapper around a local scheduler.
    pub fn uninitialized() -> (global: GlobalScheduler)
        ensures
            global.scheduler() is None,
            global.wf(),
    {
        GlobalScheduler(None)
    }

    /// Whether the scheduler has been started.
    pub fn is_initialized(&self) -> (b: bool)
        ensures
            b == self.scheduler() is Some,
    {
        self.0.is_some()
    }

    /// Adds a process to the scheduler's queue and returns that process's ID.
    /// For more details, see the documentation on `Scheduler::add()`.
    ///
    /// The scheduler must have been started.
    pub fn add(&mut self, process: Process) -> (id: Option<Id>)
        requires
            old(self).wf(),
            old(self).scheduler() is Some,
        ensures
            final(self).wf(),
            final(self).scheduler() matches Some(after) && old(self).scheduler().unwrap().added(
                process,
                after,
                id,
            ),
    {
        match &mut self.0 {
            Some(scheduler) => scheduler.add(process),
            None => unreached(),
        }
    }

    /// Performs a context switch using `tf` by setting the state of the
    /// current process to `new_state`, saving `tf` into the current process,
    /// and restoring the next process's trap frame into `tf`. For more
    /// details, see the documentation on `Scheduler::switch()`.
    ///
    /// The scheduler must have been started.
    pub fn switch(&mut self, new_state: State, tf: &mut TrapFrame, now: u64) -> (id: Option<Id>)
        requires
            old(self).wf(),
            old(self).scheduler() is Some,
        ensures
            final(self).wf(),
            final(self).scheduler() matches Some(after) && {
                let before = old(self).scheduler().unwrap();
                &&& before.switched(new_state, *old(tf), now, after, *final(tf), id)
                &&& after.last_id() == before.last_id()
                &&& after.ids().to_multiset() == before.ids().to_multiset()
            },
    {
        match &mut self.0 {
            Some(scheduler) => scheduler.switch(new_state, tf, now),
            None => unreached(),
        }
    }

    /// Looks for a process to run while none is running. For more details,
    /// see the documentation on `Scheduler::schedule()`.
    ///
    /// The scheduler must have been started.
    pub fn schedule(&mut self, tf: &mut TrapFrame, now: u64) -> (id: Option<Id>)
        requires
            old(self).wf(),
            old(self).scheduler() is Some,
        ensures
            final(self).wf(),
            final(self).scheduler() matches Some(after) && {
                let before = old(self).scheduler().unwrap();
                &&& before.scheduled(*old(tf), now, after, *final(tf), id)
                &&& after.last_id() == before.last_id()
                &&& after.ids().to_multiset() == before.ids().to_multiset()
            },
    {
        match &mut self.0 {
            Some(scheduler) => scheduler.schedule(tf, now),
            None => unreached(),
        }
    }

    /// The scheduler, once it has been started.
    pub fn get_mut(&mut self) -> (scheduler: Option<&mut Scheduler>)
        ensures
            match scheduler {
                Some(scheduler) => {
                    &&& old(self).scheduler() == Some(*scheduler)
                    &&& final(self).scheduler() == Some(*final(scheduler))
                },
                None => old(self).scheduler() is None && final(self).scheduler() is None,
            },
    {
        self.0.as_mut()
    }

    /// Initializes the scheduler with the two processes of the machine,
    /// whose code starts at `first_entry` and `second_entry`, and returns the
    /// registers with which the first of them starts.
    ///
    /// Each process gets a stack from `allocator` and starts at the top of
    /// it, at the unprivileged level with interrupt requests unmasked. The
    /// first process has the ID 1 and is the current process, the second has
    /// the ID 2. If there is not enough memory for both stacks, nothing is
    /// started, the allocator holds what it held before, and the result is
    /// `None`.
    pub fn start(&mut self, allocator: &mut Allocator, first_entry: u64, second_entry: u64) -> (frame:
        Option<TrapFrame>)
        requires
            old(self).wf(),
            old(allocator).wf(),
        ensures
            final(self).wf(),
            final(allocator).wf(),
            final(allocator).region() == old(allocator).region(),
            match frame {
                Some(frame) => {
                    &&& enough_for_two_stacks(old(allocator).free())
                    &&& final(allocator).free() == carved(
                        carved(old(allocator).free(), class_of(Stack::spec_layout())),
                        class_of(Stack::spec_layout()),
                    )
                    &&& final(self).scheduler() matches Some(scheduler)
                    &&& scheduler.ids() == seq![1u64, 2u64]
                    &&& scheduler.current() == Some(1u64)
                    &&& frame == *scheduler.queue()[0].trap_frame
                    &&& frame.tpidr == 1
                    &&& frame.elr == first_entry
                    &&& frame.spsr == INITIAL_SPSR
                    &&& frame.sp == scheduler.queue()[0].stack.base + STACK_SIZE
                    &&& scheduler.queue()[0].stack.base == old(allocator).next_block_for(
                        Stack::spec_layout(),
                    )
                    &&& scheduler.queue()[1].trap_frame.elr == second_entry
                    &&& scheduler.queue()[1].trap_frame.spsr == INITIAL_SPSR
                    &&& scheduler.queue()[1].trap_frame.sp == scheduler.queue()[1].stack.base
                        + STACK_SIZE
                    &&& scheduler.queue()[0].state == State::Ready
                    &&& scheduler.queue()[1].state == State::Ready
                    &&& scheduler.queue()[0].stack.base != scheduler.queue()[1].stack.base
                },
                None => {
                    let class = class_of(Stack::spec_layout());
                    let free = old(allocator).free();
                    &&& !enough_for_two_stacks(free)
                    &&& final(self).scheduler() == old(self).scheduler()
                    &&& final(allocator).held() == old(allocator).held()
                    &&& final(allocator).free() == if first_stocked(free, class) < CLASSES {
                        coalesced(
                            carved(free, class),
                            class,
                            old(allocator).next_block_for(Stack::spec_layout()) as int,
                        )
                    } else {
                        free
                    }
                },
            },
    {
        let mut first = match Process::new(allocator) {
            Some(process) => process,
            None => {
                return None;
            },
        };
        let mut second = match Process::new(allocator) {
            Some(process) => process,
            None => {
                proof {
                    assert(allocator.held().remove(first.stack.base as int) =~= old(allocator).held());
                }
                first.stack.release(allocator);
                return None;
            },
        };
        first.trap_frame.sp = first.stack.top().as_u64();
        first.trap_frame.elr = first_entry;
        first.trap_frame.spsr = INITIAL_SPSR;
        second.trap_frame.sp = second.stack.top().as_u64();
        second.trap_frame.elr = second_entry;
        second.trap_frame.spsr = INITIAL_SPSR;
        let mut scheduler = Scheduler::new();
        scheduler.add(first);
        let ghost one = scheduler.queue();
        scheduler.add(second);
        let frame = *scheduler.processes[0].trap_frame;
        proof {
            assert(scheduler.queue().subrange(0, 1)[0] == one[0]);
            assert(scheduler.ids() =~= seq![1u64, 2u64]);
        }
        self.0 = Some(scheduler);
        Some(frame)
    }
}

/// Whether the free lists `free` of an allocator hold enough for the stacks
/// of two processes: a block for the first, and one for the second once the
/// first has been taken.
pub open spec fn enough_for_two_stacks(free: Seq<Seq<usize>>) -> bool {
    let class = class_of(Stack::spec_layout());
    first_stocked(free, class) < CLASSES && first_stocked(carved(free, class), class) < CLASSES
}

/// Switching away from the running process to `Ready` always finds a process
/// to run, and keeps the processes of the queue: the process that was set
/// aside can itself be scheduled.
pub proof fn lemma_preemption_finds_a_process(
    queue: Seq<Process>,
    frame: TrapFrame,
    now: u64,
)
    requires
        queue.len() > 0,
    ensures
        first_schedulable(
            queue.subrange(1, queue.len() as int).push(parked(queue[0], State::Ready, frame)),
            now,
        ) is Some,
{
    let turned = queue.subrange(1, queue.len() as int).push(parked(queue[0], State::Ready, frame));
    lemma_schedulable_is_found(turned, now, turned.len() - 1);
}

/// Where a process of the queue can be scheduled, one is found.
pub proof fn lemma_schedulable_is_found(queue: Seq<Process>, now: u64, index: int)
    requires
        0 <= index < queue.len(),
        queue[index].schedulable(now),
    ensures
        first_schedulable(queue, now) is Some,
    decreases queue.len(),
{
    if !queue[0].schedulable(now) {
        let rest = queue.subrange(1, queue.len() as int);
        assert(rest[index - 1] == queue[index]);
        lemma_schedulable_is_found(rest, now, index - 1);
    }
}

} // verus!
