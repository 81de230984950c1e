//! What each hart is doing.

use vstd::prelude::*;
use crate::symbols::N_CPUS;

verus! {

/// The state of one hart: its id, and the process that runs on it.
#[derive(Debug)]
pub struct PercpuBlock {
    pub hartid: usize,
    /// The id of the process that runs on the hart, if one does.
    pub running_process: Option<usize>,
}

impl PercpuBlock {
    /// Lets the process `pid` run on the hart, on which none runs.
    pub fn set_executing_process(&mut self, pid: usize)
        requires
            old(self).running_process is None,
        ensures
            final(self).running_process == Some(pid),
            final(self).hartid == old(self).hartid,
    {
        self.running_process = Some(pid);
    }

    /// Takes the running process off the hart.
    pub fn take_executing_process(&mut self) -> (r: Option<usize>)
        ensures
            r == old(self).running_process,
            final(self).running_process is None,
            final(self).hartid == old(self).hartid,
    {
        self.running_process.take()
    }

    pub fn hartid(&self) -> (r: usize)
        ensures
            r == self.hartid,
    {
        self.hartid
    }
}

/// The blocks of all harts, each with its own id and no process.
pub fn make_cpus() -> (r: Vec<PercpuBlock>)
    ensures
        r@.len() == N_CPUS,
        forall|i: int|
            0 <= i < N_CPUS ==> (#[trigger] r@[i]).hartid == i && r@[i].running_process is None,
{
    let mut cpus: Vec<PercpuBlock> = Vec::new();
    let mut hartid: usize = 0;
    while hartid < N_CPUS
        invariant
            hartid <= N_CPUS,
            cpus@.len() == hartid,
            forall|i: int|
                0 <= i < hartid ==> (#[trigger] cpus@[i]).hartid == i
                    && cpus@[i].running_process is None,
        decreases N_CPUS - hartid,
    {
        cpus.push(PercpuBlock { hartid, running_process: None });
        hartid = hartid + 1;
    }
    cpus
}

/// The process that runs on the hart `hartid`, if one does.
pub fn current_process(cpus: &Vec<PercpuBlock>, hartid: usize) -> (r: Option<usize>)
    requires
        hartid < cpus@.len(),
        cpus@[hartid as int].hartid == hartid,
    ensures
        r == cpus@[hartid as int].running_process,
{
    let cpu: &PercpuBlock = &cpus[hartid];
    cpu.running_process
}

} // verus!
