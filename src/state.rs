use vstd::prelude::*;

use crate::pid_map::{new_pid_map, pid_map_entries, PidMap};
use crate::process::Process;

verus! {

/// The column that orders the process list.
#[derive(Clone, Copy, Debug, PartialEq, Eq, Structural)]
pub enum SortKey {
    Name,
    Pid,
    Cpu,
    Memory,
}

/// The active sort: a key and a direction.
#[derive(Clone, Copy, Debug, PartialEq, Eq, Structural)]
pub enum SortState {
    SortUp(SortKey),
    SortDown(SortKey),
}

impl SortState {
    pub open spec fn key(self) -> SortKey {
        match self {
            SortState::SortUp(k) => k,
            SortState::SortDown(k) => k,
        }
    }

    pub open spec fn is_descending(self) -> bool {
        self is SortDown
    }
}


/// The aggregate that the user interface reads: the current ordered process
/// list, the identity map of the last cycle, the active sort and the number
/// of logical processors, fixed for the session.
pub struct TaskManagerState {
    pub num_cpus: u32,
    pub sort_state: SortState,
    pub processes: Vec<Process>,
    pub pid_map: PidMap,
}

impl TaskManagerState {
    /// The store as created with the main window: no processes yet, sorted
    /// by name ascending.
    pub fn initialize(num_cpus: u32) -> (r: TaskManagerState)
        ensures
            r.num_cpus == num_cpus,
            r.sort_state == SortState::SortUp(SortKey::Name),
            r.processes@.len() == 0,
            pid_map_entries(r.pid_map) == Map::<u32, Process>::empty(),
    {
        TaskManagerState {
            num_cpus,
            sort_state: SortState::SortUp(SortKey::Name),
            processes: Vec::new(),
            pid_map: new_pid_map(),
        }
    }

    /// Replaces the process list and the identity map as a whole.
    pub fn update_processes(&mut self, new_processes: Vec<Process>, new_pid_map: PidMap)
        ensures
            final(self).processes == new_processes,
            final(self).pid_map == new_pid_map,
            final(self).num_cpus == old(self).num_cpus,
            final(self).sort_state == old(self).sort_state,
    {
        self.processes = new_processes;
        self.pid_map = new_pid_map;
    }

    /// Replaces the active sort; the list is reordered on the next refresh.
    pub fn set_sort_state(&mut self, new_sort: SortState)
        ensures
            final(self).sort_state == new_sort,
            final(self).processes == old(self).processes,
            final(self).pid_map == old(self).pid_map,
            final(self).num_cpus == old(self).num_cpus,
    {
        self.sort_state = new_sort;
    }

    /// The number of rows in the list.
    pub fn process_count(&self) -> (r: usize)
        ensures
            r == self.processes@.len(),
    {
        self.processes.len()
    }
}

} // verus!
