//! The process manager: the table of all processes and the queue of those
//! that are ready to run.

use vstd::prelude::*;
use std::collections::VecDeque;
use crate::allocator::frame_allocator::{AllocError, FrameAllocator};
use crate::common::resource_table::{grown_capacity, grown_free, is_least, ResourceTable};
use crate::mm::layout::{MAX_PA, TEXT_BASE_USER_VA, TRAPFRAME_BASE_USER_VA};
use crate::mm::memory::{PhysAddr, VirtAddr};
use crate::process::process::{make_initcode_uninitialised, ProcStatus, ProcessControlBlock};

verus! {

/// How many process ids there are at first.
pub const INITIAL_MAX_N_PROCS: usize = 128;

/// Whether an id is another than `pid`.
pub open spec fn is_not(pid: usize) -> spec_fn(usize) -> bool {
    |p: usize| p != pid
}

/// The queue `queue` without the process `pid`.
pub open spec fn without(queue: Seq<usize>, pid: usize) -> Seq<usize> {
    queue.filter(is_not(pid))
}

/// The processes, and the ids of those that are ready to run, first come,
/// first served.
pub struct ProcessManager {
    pcb_table: ResourceTable<ProcessControlBlock>,
    ready_queue: VecDeque<usize>,
}

impl ProcessManager {
    /// The table of the processes.
    pub closed spec fn table(&self) -> ResourceTable<ProcessControlBlock> {
        self.pcb_table
    }

    /// The ids of the processes that are ready to run, the next one first.
    pub closed spec fn queue(&self) -> Seq<usize> {
        self.ready_queue@
    }

    /// The process `pid` is in the table and has its control block.
    pub open spec fn has(&self, pid: usize) -> bool {
        self.table().slots().contains_key(pid) && self.table().slots()[pid] is Some
    }

    /// The table is well formed, each process in it goes by the id of its
    /// slot, and every id in the queue is that of a process in the table.
    pub open spec fn wf(&self) -> bool {
        &&& self.table().wf()
        &&& forall|pid: usize| #[trigger] self.has(pid) ==> self.table().slots()[pid].unwrap().pid() == pid
        &&& forall|i: int| 0 <= i < self.queue().len() ==> self.has(#[trigger] self.queue()[i])
    }

    /// A manager without a process.
    pub fn new() -> (r: Self)
        ensures
            r.wf(),
            r.queue() == Seq::<usize>::empty(),
            r.table().slots() == Map::<usize, Option<ProcessControlBlock>>::empty(),
            r.table().capacity() == INITIAL_MAX_N_PROCS,
            r.table().free() == crate::common::resource_table::ids_below(INITIAL_MAX_N_PROCS),
    {
        Self { pcb_table: ResourceTable::new(INITIAL_MAX_N_PROCS), ready_queue: VecDeque::new() }
    }

    /// Creates a process with the smallest free id and a kernel stack in a
    /// frame of `allocator`, and puts it at the end of the ready queue.
    /// Returns its id. Where `allocator` has no frame, the id stays free.
    pub fn create_process(&mut self, allocator: &mut FrameAllocator) -> (r: Result<
        usize,
        AllocError,
    >)
        requires
            old(self).wf(),
            old(allocator).wf(),
            !old(self).table().free().is_empty() || old(self).table().capacity() * 2 <= usize::MAX,
        ensures
            final(self).wf(),
            final(allocator).wf(),
            final(allocator).allocated_since(old(allocator)),
            final(self).table().capacity() == grown_capacity(
                old(self).table().free(),
                old(self).table().capacity(),
            ),
            r is Ok <==> old(allocator).free_frames() > 0,
            match r {
                Ok(pid) => {
                    &&& is_least(
                        grown_free(old(self).table().free(), old(self).table().capacity()),
                        pid,
                    )
                    &&& final(self).table().free() == grown_free(
                        old(self).table().free(),
                        old(self).table().capacity(),
                    ).remove(pid)
                    &&& final(self).has(pid)
                    &&& final(self).table().slots().remove(pid) == old(self).table().slots()
                    &&& final(self).table().slots()[pid].unwrap().state().status()
                        == ProcStatus::RUNNABLE
                    &&& final(self).queue() == old(self).queue().push(pid)
                    &&& final(allocator).free_frames() == old(allocator).free_frames() - 1
                },
                Err(e) => {
                    &&& e == AllocError::ENoFrame
                    &&& final(self).table().slots() == old(self).table().slots()
                    &&& final(self).table().free() == grown_free(
                        old(self).table().free(),
                        old(self).table().capacity(),
                    )
                    &&& final(self).queue() == old(self).queue()
                },
            },
    {
        proof {
            crate::allocator::frame_allocator::lemma_free_frames_bounds(*allocator);
        }
        let pid: usize = self.pcb_table.reserve_entry();
        let ghost reserved = self.pcb_table;
        proof {
            assert(!old(self).table().slots().contains_key(pid)) by {
                if old(self).table().free().is_empty() {
                    assert(old(self).table().free().union(
                        old(self).table().slots().dom(),
                    ).contains(pid) ==> false);
                } else {
                    assert(old(self).table().free().contains(pid));
                }
            }
        }
        let pcb: ProcessControlBlock = match ProcessControlBlock::allocate(allocator, pid) {
            Ok(pcb) => pcb,
            Err(e) => {
                let _ = self.pcb_table.remove_entry(pid);
                proof {
                    assert(self.table().slots() =~= old(self).table().slots());
                    assert(self.table().free() =~= grown_free(
                        old(self).table().free(),
                        old(self).table().capacity(),
                    ));
                    assert forall|p: usize| #[trigger] self.has(p) implies self.table().slots()[p].unwrap().pid()
                        == p by {
                        assert(old(self).has(p));
                    }
                    assert forall|i: int| 0 <= i < self.queue().len() implies self.has(
                        #[trigger] self.queue()[i],
                    ) by {
                        assert(old(self).has(old(self).queue()[i]));
                    }
                }
                return Err(e);
            },
        };
        self.pcb_table.initialise_entry(pid, pcb);
        self.ready_queue.push_back(pid);
        proof {
            crate::allocator::frame_allocator::lemma_free_frames_bounds(*allocator);
            assert(self.table().slots().remove(pid) =~= old(self).table().slots());
            assert forall|p: usize| #[trigger] self.has(p) implies self.table().slots()[p].unwrap().pid()
                == p by {
                if p != pid {
                    assert(old(self).has(p));
                }
            }
            assert forall|i: int| 0 <= i < self.queue().len() implies self.has(
                #[trigger] self.queue()[i],
            ) by {
                if i < old(self).queue().len() {
                    assert(self.queue()[i] == old(self).queue()[i]);
                    assert(old(self).has(old(self).queue()[i]));
                }
            }
        }
        Ok(pid)
    }

    /// Takes the next process off the ready queue.
    pub fn pop_one(&mut self) -> (r: Option<usize>)
        requires
            old(self).wf(),
        ensures
            final(self).wf(),
            final(self).table() == old(self).table(),
            match r {
                Some(pid) => {
                    &&& old(self).queue().len() > 0
                    &&& pid == old(self).queue()[0]
                    &&& final(self).queue() == old(self).queue().subrange(
                        1,
                        old(self).queue().len() as int,
                    )
                    &&& final(self).has(pid)
                },
                None => old(self).queue().len() == 0 && final(self).queue() == old(self).queue(),
            },
    {
        let r: Option<usize> = self.ready_queue.pop_front();
        proof {
            assert forall|p: usize| #[trigger] self.has(p) implies self.table().slots()[p].unwrap().pid()
                == p by {
                assert(old(self).has(p));
            }
            assert forall|i: int| 0 <= i < self.queue().len() implies self.has(
                #[trigger] self.queue()[i],
            ) by {
                if r is Some {
                    assert(self.queue()[i] == old(self).queue()[i + 1]);
                    assert(old(self).has(old(self).queue()[i + 1]));
                } else {
                    assert(old(self).has(old(self).queue()[i]));
                }
            }
            if r is Some {
                assert(old(self).has(old(self).queue()[0]));
            }
        }
        r
    }

    /// Puts the process `pid` at the end of the ready queue.
    pub fn push_one(&mut self, pid: usize)
        requires
            old(self).wf(),
            old(self).has(pid),
        ensures
            final(self).wf(),
            final(self).table() == old(self).table(),
            final(self).queue() == old(self).queue().push(pid),
    {
        let pcb: &ProcessControlBlock = self.pcb_table.get(pid);
        assert(pcb.pid() == pid);
        self.ready_queue.push_back(pid);
        proof {
            assert forall|p: usize| #[trigger] self.has(p) implies self.table().slots()[p].unwrap().pid()
                == p by {
                assert(old(self).has(p));
            }
            assert forall|i: int| 0 <= i < self.queue().len() implies self.has(
                #[trigger] self.queue()[i],
            ) by {
                if i < old(self).queue().len() {
                    assert(old(self).has(old(self).queue()[i]));
                }
            }
        }
    }

    /// How many process ids there are, in use or not.
    pub fn n_slots(&self) -> (r: usize)
        ensures
            r == self.table().capacity(),
    {
        self.pcb_table.n_slots()
    }

    /// Whether the process id `pid` is free.
    pub fn is_free(&self, pid: usize) -> (r: bool)
        ensures
            r == self.table().free().contains(pid),
    {
        self.pcb_table.is_free(pid)
    }

    /// Whether the process `pid` is in the table with its control block.
    pub fn has_process(&self, pid: usize) -> (r: bool)
        requires
            self.wf(),
        ensures
            r == self.has(pid),
    {
        self.pcb_table.is_initialised(pid)
    }

    /// The control block of the process `pid`, for changes.
    pub fn get_mut(&mut self, pid: usize) -> (r: &mut ProcessControlBlock)
        requires
            old(self).wf(),
            old(self).has(pid),
        ensures
            Some(*r) == old(self).table().slots()[pid],
            final(self).table().slots() == old(self).table().slots().insert(
                pid,
                Some(*final(r)),
            ),
            final(self).table().free() == old(self).table().free(),
            final(self).table().capacity() == old(self).table().capacity(),
            final(self).queue() == old(self).queue(),
    {
        self.pcb_table.get_mut(pid)
    }

    /// The control block of the process `pid`.
    pub fn get(&self, pid: usize) -> (r: &ProcessControlBlock)
        requires
            self.wf(),
            self.has(pid),
        ensures
            self.table().slots()[pid] == Some(*r),
            r.pid() == pid,
    {
        self.pcb_table.get(pid)
    }

    /// Takes `pid` out of the ready queue, wherever it stands in it.
    fn dequeue(&mut self, pid: usize)
        ensures
            final(self).table() == old(self).table(),
            final(self).queue() == without(old(self).queue(), pid),
    {
        let mut kept: VecDeque<usize> = VecDeque::new();
        let n: usize = self.ready_queue.len();
        let mut i: usize = 0;
        assert(old(self).queue().subrange(0, 0) =~= Seq::<usize>::empty());
        proof {
            reveal(Seq::filter);
        }
        while i < n
            invariant
                i <= n,
                n == self.ready_queue@.len(),
                self.ready_queue@ == old(self).ready_queue@,
                self.pcb_table == old(self).pcb_table,
                kept@ == without(old(self).queue().subrange(0, i as int), pid),
            decreases n - i,
        {
            let p: usize = self.ready_queue[i];
            proof {
                reveal(Seq::filter);
                let before = old(self).queue().subrange(0, i as int);
                let after = old(self).queue().subrange(0, i + 1);
                assert(after.drop_last() =~= before);
                assert(after.last() == p);
            }
            if p != pid {
                kept.push_back(p);
            }
            i = i + 1;
        }
        assert(old(self).queue().subrange(0, n as int) =~= old(self).queue());
        self.ready_queue = kept;
    }

    /// Ends the running process `pid`: it is a zombie from now on, and is
    /// not in the ready queue.
    pub fn exit_process(&mut self, pid: usize)
        requires
            old(self).wf(),
            old(self).has(pid),
            old(self).table().slots()[pid].unwrap().state().status() == ProcStatus::RUNNING,
        ensures
            final(self).wf(),
            final(self).has(pid),
            final(self).table().slots()[pid].unwrap().state().status() == ProcStatus::ZOMBIE,
            final(self).table().slots().remove(pid) == old(self).table().slots().remove(pid),
            final(self).table().free() == old(self).table().free(),
            final(self).table().capacity() == old(self).table().capacity(),
            final(self).queue() == without(old(self).queue(), pid),
    {
        let pcb: &mut ProcessControlBlock = self.pcb_table.get_mut(pid);
        pcb.inner.set_status(ProcStatus::ZOMBIE);
        let ghost marked = *self;
        self.dequeue(pid);
        proof {
            assert(self.table().slots().remove(pid) =~= old(self).table().slots().remove(pid));
            assert forall|p: usize| #[trigger] self.has(p) implies self.table().slots()[p].unwrap().pid()
                == p by {
                if p != pid {
                    assert(old(self).has(p));
                    assert(self.table().slots().remove(pid)[p] == old(self).table().slots().remove(
                        pid,
                    )[p]);
                }
            }
            assert forall|i: int| 0 <= i < self.queue().len() implies self.has(
                #[trigger] self.queue()[i],
            ) by {
                let q = self.queue()[i];
                assert(without(old(self).queue(), pid).contains(q));
                old(self).queue().lemma_filter_contains_rev(is_not(pid), q);
                let j = choose|j: int| 0 <= j < old(self).queue().len() && old(self).queue()[j] == q;
                assert(old(self).has(old(self).queue()[j]));
                assert(self.table().slots().remove(pid)[q] == old(self).table().slots().remove(
                    pid,
                )[q]);
            }
        }
    }

    /// Removes the zombie process `pid` from the table and makes its id
    /// free again. Returns its control block, whose frames are the caller's
    /// to hand back.
    pub fn reap_process(&mut self, pid: usize) -> (r: Option<ProcessControlBlock>)
        requires
            old(self).wf(),
            old(self).has(pid),
            old(self).table().slots()[pid].unwrap().state().status() == ProcStatus::ZOMBIE,
        ensures
            final(self).wf(),
            r == old(self).table().slots()[pid],
            final(self).table().slots() == old(self).table().slots().remove(pid),
            final(self).table().free() == old(self).table().free().insert(pid),
            final(self).table().capacity() == old(self).table().capacity(),
            final(self).queue() == without(old(self).queue(), pid),
    {
        let r: Option<ProcessControlBlock> = self.pcb_table.remove_entry(pid);
        self.dequeue(pid);
        proof {
            assert forall|p: usize| #[trigger] self.has(p) implies self.table().slots()[p].unwrap().pid()
                == p by {
                assert(old(self).has(p));
            }
            assert forall|i: int| 0 <= i < self.queue().len() implies self.has(
                #[trigger] self.queue()[i],
            ) by {
                let q = self.queue()[i];
                assert(without(old(self).queue(), pid).contains(q));
                old(self).queue().lemma_filter_contains_rev(is_not(pid), q);
                let j = choose|j: int| 0 <= j < old(self).queue().len() && old(self).queue()[j] == q;
                assert(old(self).has(old(self).queue()[j]));
            }
        }
        r
    }

    /// Creates the first user process, ready to run, and puts it at the end
    /// of the ready queue. See `make_initcode_uninitialised`. Where
    /// `allocator` runs out of frames, the id stays free.
    pub fn create_initcode(
        &mut self,
        allocator: &mut FrameAllocator,
        trampoline_start: PhysAddr,
        init_text: PhysAddr,
        init_text_len: u64,
        kernel_satp: u64,
        trap_handler: VirtAddr,
    ) -> (r: Result<(), AllocError>)
        requires
            old(self).wf(),
            old(allocator).wf(),
            old(self).table().free().contains(0),
            trampoline_start.0 < MAX_PA,
            init_text.0 + init_text_len + 4096 <= MAX_PA,
            TEXT_BASE_USER_VA + init_text_len + 3 * 4096 <= TRAPFRAME_BASE_USER_VA,
        ensures
            final(self).wf(),
            final(allocator).wf(),
            final(allocator).allocated_since(old(allocator)),
            final(self).table().capacity() == old(self).table().capacity(),
            r is Ok <==> old(allocator).free_frames() >= 4
                + crate::mm::address_space::ranges_lack(
                crate::mm::page_table::fresh_lacks(),
                crate::mm::address_space::AddrSpace::init_ranges(init_text_len),
                0,
            ),
            match r {
                Ok(_) => {
                    &&& final(self).has(0)
                    &&& final(self).table().slots().remove(0) == old(self).table().slots()
                    &&& final(self).table().free() == old(self).table().free().remove(0)
                    &&& final(self).queue() == old(self).queue().push(0)
                    &&& final(self).table().slots()[0].unwrap().state().trapframe_mapped()
                    &&& final(self).table().slots()[0].unwrap().state().trap_context_pa() is Some
                    &&& final(self).table().slots()[0].unwrap().state().context().sepc
                        == TEXT_BASE_USER_VA
                },
                Err(e) => {
                    &&& e == AllocError::ENoFrame
                    &&& final(allocator).free_frames() == 0
                    &&& final(self).table().slots() == old(self).table().slots()
                    &&& final(self).table().free() == old(self).table().free()
                    &&& final(self).queue() == old(self).queue()
                },
            },
    {
        let pid: usize = self.pcb_table.reserve_entry();
        proof {
            assert(!old(self).table().free().is_empty());
            assert(pid == 0);
            assert(!old(self).table().slots().contains_key(pid));
        }
        let pcb: ProcessControlBlock = match make_initcode_uninitialised(
            allocator,
            pid,
            trampoline_start,
            init_text,
            init_text_len,
            kernel_satp,
            trap_handler,
        ) {
            Ok(pcb) => pcb,
            Err(e) => {
                let _ = self.pcb_table.remove_entry(pid);
                proof {
                    assert(self.table().slots() =~= old(self).table().slots());
                    assert(self.table().free() =~= old(self).table().free());
                    assert forall|p: usize| #[trigger] self.has(p) implies self.table().slots()[p].unwrap().pid()
                        == p by {
                        assert(old(self).has(p));
                    }
                    assert forall|i: int| 0 <= i < self.queue().len() implies self.has(
                        #[trigger] self.queue()[i],
                    ) by {
                        assert(old(self).has(old(self).queue()[i]));
                    }
                }
                return Err(e);
            },
        };
        self.pcb_table.initialise_entry(pid, pcb);
        self.ready_queue.push_back(pid);
        proof {
            assert(self.table().slots().remove(pid) =~= old(self).table().slots());
            assert forall|p: usize| #[trigger] self.has(p) implies self.table().slots()[p].unwrap().pid()
                == p by {
                if p != pid {
                    assert(old(self).has(p));
                }
            }
            assert forall|i: int| 0 <= i < self.queue().len() implies self.has(
                #[trigger] self.queue()[i],
            ) by {
                if i < old(self).queue().len() {
                    assert(old(self).has(old(self).queue()[i]));
                }
            }
        }
        Ok(())
    }
}

} // verus!
