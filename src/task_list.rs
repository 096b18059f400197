use vstd::prelude::*;

use crate::decimal::{decimal, decimal_string, decimal_value, lemma_decimal_round_trip};
use crate::pid_map::pid_map_entries;
use crate::process::Process;
use crate::reconcile::{map_of, reconcile, reconciled};
use crate::sort::{
    apply_sort_state, lemma_sort_ascending, lemma_sort_keeps_distinct_pids, pids_distinct,
    sort_ascending, sort_by_state,
};
use crate::state::{SortKey, SortState, TaskManagerState};

verus! {

pub const INDEX_NAME: i32 = 0;

pub const INDEX_PID: i32 = 1;

pub const INDEX_CPU: i32 = 2;

pub const INDEX_MEMORY: i32 = 3;

pub const NUM_TASK_LIST_COLUMNS: usize = 4;

/// The column of the list that shows `key`.
pub open spec fn column_of(key: SortKey) -> int {
    match key {
        SortKey::Name => INDEX_NAME as int,
        SortKey::Pid => INDEX_PID as int,
        SortKey::Cpu => INDEX_CPU as int,
        SortKey::Memory => INDEX_MEMORY as int,
    }
}

/// The key that a column of the list shows; `None` for an index that is no
/// column.
pub fn column_index_to_sort_key(sort_column_index: i32) -> (r: Option<SortKey>)
    ensures
        match r {
            Some(k) => column_of(k) == sort_column_index,
            None => !(0 <= sort_column_index < NUM_TASK_LIST_COLUMNS),
        },
{
    match sort_column_index {
        INDEX_NAME => Some(SortKey::Name),
        INDEX_PID => Some(SortKey::Pid),
        INDEX_CPU => Some(SortKey::Cpu),
        INDEX_MEMORY => Some(SortKey::Memory),
        _ => None,
    }
}

/// The sort after a click on the column of `key`: the column already sorted
/// ascending turns descending; any other click sorts `key` ascending.
pub open spec fn toggled(current: SortState, key: SortKey) -> SortState {
    match current {
        SortState::SortUp(k) => if k == key {
            SortState::SortDown(key)
        } else {
            SortState::SortUp(key)
        },
        SortState::SortDown(_) => SortState::SortUp(key),
    }
}

/// Handles a click on a column header: the store's sort becomes
/// `toggled(sort, key)` and is returned. A click outside the columns leaves
/// the store as it was and returns `None`.
pub fn toggle_sort_order(state: &mut TaskManagerState, sort_column_index: i32) -> (r: Option<
    SortState,
>)
    ensures
        final(state).processes == old(state).processes,
        final(state).pid_map == old(state).pid_map,
        final(state).num_cpus == old(state).num_cpus,
        match r {
            Some(s) => 0 <= sort_column_index < NUM_TASK_LIST_COLUMNS && s == toggled(
                old(state).sort_state,
                s.key(),
            ) && column_of(s.key()) == sort_column_index && final(state).sort_state == s,
            None => !(0 <= sort_column_index < NUM_TASK_LIST_COLUMNS) && final(state).sort_state
                == old(state).sort_state,
        },
{
    match column_index_to_sort_key(sort_column_index) {
        Some(key) => {
            let new_sort = match state.sort_state {
                SortState::SortUp(k) => if k == key {
                    SortState::SortDown(key)
                } else {
                    SortState::SortUp(key)
                },
                SortState::SortDown(_) => SortState::SortUp(key),
            };
            state.set_sort_state(new_sort);
            Some(new_sort)
        },
        None => None,
    }
}

/// The sort indicator of a column header.
#[derive(Clone, Copy, Debug, PartialEq, Eq, Structural)]
pub enum HeaderArrow {
    Up,
    Down,
    NoArrow,
}

/// The indicator that header `column_index` shows under `sort`: an arrow in
/// the sort's direction on the sorted column, none elsewhere.
pub fn header_arrow(sort: SortState, column_index: usize) -> (r: HeaderArrow)
    ensures
        r == (if column_index as int != column_of(sort.key()) {
            HeaderArrow::NoArrow
        } else if sort.is_descending() {
            HeaderArrow::Down
        } else {
            HeaderArrow::Up
        }),
{
    let (key, arrow) = match sort {
        SortState::SortUp(k) => (k, HeaderArrow::Up),
        SortState::SortDown(k) => (k, HeaderArrow::Down),
    };
    let sorted_column: usize = match key {
        SortKey::Name => 0,
        SortKey::Pid => 1,
        SortKey::Cpu => 2,
        SortKey::Memory => 3,
    };
    if column_index == sorted_column {
        arrow
    } else {
        HeaderArrow::NoArrow
    }
}

/// One sampling cycle. With a sample set, reconciles it against the store's
/// identity map, orders the result by the store's sort and replaces the list
/// and the map; without one (the sampler failed), leaves the store as it
/// was. Returns the row count that the list view is told.
pub fn refresh_process_list(state: &mut TaskManagerState, sample: Option<Vec<Process>>) -> (r:
    usize)
    ensures
        final(state).num_cpus == old(state).num_cpus,
        final(state).sort_state == old(state).sort_state,
        r == final(state).processes@.len(),
        match sample {
            Some(s) => {
                let list = reconciled(pid_map_entries(old(state).pid_map), s@, old(state).num_cpus);
                &&& final(state).processes@ == sort_by_state(old(state).sort_state, list)
                &&& pid_map_entries(final(state).pid_map) == map_of(list)
            },
            None => final(state).processes == old(state).processes && final(state).pid_map == old(
                state,
            ).pid_map,
        },
{
    match sample {
        Some(new_samples) => {
            let (mut new_process_list, new_pid_map) = reconcile(
                &state.pid_map,
                new_samples,
                state.num_cpus,
            );
            apply_sort_state(&mut new_process_list, state.sort_state);
            state.update_processes(new_process_list, new_pid_map);
        },
        None => {},
    }
    state.process_count()
}

/// What a cell of the list shows: text, or a byte count that the view
/// formats in human-readable units.
#[derive(Clone, Debug)]
pub enum CellText {
    Text(String),
    Bytes(usize),
}

/// The cell of `p` in the column of `column`: the image name, the pid and
/// the CPU usage in decimal, or the private working set in bytes.
pub open spec fn renders_as(r: CellText, p: Process, column: SortKey) -> bool {
    match column {
        SortKey::Name => r == CellText::Text(p.image_name),
        SortKey::Pid => match r {
            CellText::Text(t) => t@ == decimal(p.pid as nat),
            CellText::Bytes(_) => false,
        },
        SortKey::Cpu => match r {
            CellText::Text(t) => t@ == decimal(p.cpu_usage as nat),
            CellText::Bytes(_) => false,
        },
        SortKey::Memory => r == CellText::Bytes(p.private_working_set),
    }
}

/// The text of row `row`, column `column`, of the current list.
pub fn on_get_display_info(state: &TaskManagerState, row: usize, column: SortKey) -> (r: CellText)
    requires
        row < state.processes@.len(),
    ensures
        renders_as(r, state.processes@[row as int], column),
{
    let process = &state.processes[row];
    match column {
        SortKey::Name => CellText::Text(process.image_name.clone()),
        SortKey::Pid => CellText::Text(decimal_string(process.pid as u64)),
        SortKey::Cpu => CellText::Text(decimal_string(process.cpu_usage)),
        SortKey::Memory => CellText::Bytes(process.private_working_set),
    }
}

/// The pid of the selected row, the target of "end task"; `None` when no
/// row is selected (a negative index) or the index is past the list.
pub fn selected_pid(state: &TaskManagerState, selected_item: isize) -> (r: Option<u32>)
    ensures
        match r {
            Some(pid) => 0 <= selected_item < state.processes@.len() && pid
                == state.processes@[selected_item as int].pid,
            None => !(0 <= selected_item < state.processes@.len()),
        },
{
    if selected_item >= 0 && (selected_item as usize) < state.processes.len() {
        Some(state.processes[selected_item as usize].pid)
    } else {
        None
    }
}

/// After an ascending sort by pid of a snapshot whose pids are distinct, the
/// pid column read from top to bottom strictly increases: the decimal text
/// rendered in any row denotes a larger number than that of any row above.
pub proof fn lemma_pid_column_strictly_increasing(
    snapshot: Seq<Process>,
    i: int,
    j: int,
    upper: CellText,
    lower: CellText,
)
    requires
        pids_distinct(snapshot),
        0 <= i < j < snapshot.len(),
        renders_as(upper, sort_ascending(SortKey::Pid, snapshot)[i], SortKey::Pid),
        renders_as(lower, sort_ascending(SortKey::Pid, snapshot)[j], SortKey::Pid),
    ensures
        match (upper, lower) {
            (CellText::Text(a), CellText::Text(b)) => decimal_value(a@) < decimal_value(b@),
            _ => false,
        },
{
    let sorted = sort_ascending(SortKey::Pid, snapshot);
    lemma_sort_ascending(SortKey::Pid, snapshot);
    lemma_sort_keeps_distinct_pids(SortKey::Pid, snapshot);
    vstd::seq_lib::to_multiset_len(sorted);
    vstd::seq_lib::to_multiset_len(snapshot);
    assert(sorted[i].pid != sorted[j].pid);
    lemma_decimal_round_trip(sorted[i].pid as nat);
    lemma_decimal_round_trip(sorted[j].pid as nat);
}

} // verus!
