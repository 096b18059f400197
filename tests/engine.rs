use std::cmp::Ordering;

use taskmanager::decimal::decimal_string;
use taskmanager::process::Process;
use taskmanager::reconcile::reconcile;
use taskmanager::sort::{apply_sort_state, compare_processes, lexical_str_cmp, sort_process_list};
use taskmanager::state::{SortKey, SortState, TaskManagerState};
use taskmanager::task_list::{
    column_index_to_sort_key, selected_pid, header_arrow, on_get_display_info,
    refresh_process_list, toggle_sort_order, CellText, HeaderArrow,
};

fn proc_named(name: &str, pid: u32) -> Process {
    Process::new(pid, String::from(name), 0, 0, 0)
}

fn with_usage(pid: u32, cpu_usage: u64, ws: usize) -> Process {
    let mut p = Process::new(pid, format!("p{}.exe", pid), ws, 0, 0);
    p.cpu_usage = cpu_usage;
    p
}

fn pids(list: &[Process]) -> Vec<u32> {
    list.iter().map(|p| p.pid).collect()
}

fn text(cell: CellText) -> String {
    match cell {
        CellText::Text(t) => t,
        CellText::Bytes(b) => panic!("expected text, got {} bytes", b),
    }
}

#[test]
fn name_sort_breaks_ties_by_ascending_pid() {
    let mut list = vec![proc_named("b.exe", 5), proc_named("a.exe", 3), proc_named("a.exe", 9)];
    apply_sort_state(&mut list, SortState::SortUp(SortKey::Name));
    let names: Vec<&str> = list.iter().map(|p| p.image_name.as_str()).collect();
    assert_eq!(names, vec!["a.exe", "a.exe", "b.exe"]);
    assert_eq!(pids(&list), vec![3, 9, 5]);
}

#[test]
fn cpu_descending_is_ascending_reversed() {
    let input = vec![
        with_usage(4, 10, 0),
        with_usage(2, 30, 0),
        with_usage(8, 20, 0),
        with_usage(6, 0, 0),
    ];
    let mut up = input.clone();
    apply_sort_state(&mut up, SortState::SortUp(SortKey::Cpu));
    let mut down = input.clone();
    apply_sort_state(&mut down, SortState::SortDown(SortKey::Cpu));
    assert_eq!(pids(&up), vec![6, 4, 8, 2]);
    let mut reversed = pids(&up);
    reversed.reverse();
    assert_eq!(pids(&down), reversed);
}

#[test]
fn cpu_ties_reverse_their_pid_order_when_descending() {
    let input = vec![
        with_usage(7, 5, 0),
        with_usage(3, 5, 0),
        with_usage(9, 1, 0),
        with_usage(5, 5, 0),
    ];
    let mut up = input.clone();
    apply_sort_state(&mut up, SortState::SortUp(SortKey::Cpu));
    assert_eq!(pids(&up), vec![9, 3, 5, 7]);
    let mut down = input;
    apply_sort_state(&mut down, SortState::SortDown(SortKey::Cpu));
    assert_eq!(pids(&down), vec![7, 5, 3, 9]);
}

#[test]
fn memory_and_pid_sorts() {
    let mut list = vec![with_usage(1, 0, 300), with_usage(2, 0, 100), with_usage(3, 0, 300)];
    sort_process_list(&mut list, SortKey::Memory);
    assert_eq!(pids(&list), vec![2, 1, 3]);
    sort_process_list(&mut list, SortKey::Pid);
    assert_eq!(pids(&list), vec![1, 2, 3]);
    apply_sort_state(&mut list, SortState::SortDown(SortKey::Pid));
    assert_eq!(pids(&list), vec![3, 2, 1]);
}

#[test]
fn sorting_an_empty_list() {
    let mut list: Vec<Process> = Vec::new();
    apply_sort_state(&mut list, SortState::SortDown(SortKey::Name));
    assert!(list.is_empty());
}

#[test]
fn duplicate_entries_keep_their_input_order() {
    let mut a = proc_named("x.exe", 4);
    a.private_working_set = 1;
    let mut b = proc_named("x.exe", 4);
    b.private_working_set = 2;
    let mut list = vec![a, b, proc_named("a.exe", 9)];
    sort_process_list(&mut list, SortKey::Name);
    assert_eq!(pids(&list), vec![9, 4, 4]);
    assert_eq!(list[1].private_working_set, 1);
    assert_eq!(list[2].private_working_set, 2);
}

#[test]
fn lexical_order_of_names() {
    let s = |x: &str| String::from(x);
    assert_eq!(lexical_str_cmp(&s("a.exe"), &s("b.exe")), Ordering::Less);
    assert_eq!(lexical_str_cmp(&s("b.exe"), &s("a.exe")), Ordering::Greater);
    assert_eq!(lexical_str_cmp(&s("svchost.exe"), &s("svchost.exe")), Ordering::Equal);
    assert_eq!(lexical_str_cmp(&s("abc"), &s("abcd")), Ordering::Less);
    assert_eq!(lexical_str_cmp(&s(""), &s("a")), Ordering::Less);
    assert_eq!(lexical_str_cmp(&s(""), &s("")), Ordering::Equal);
    assert_eq!(lexical_str_cmp(&s("Zeta"), &s("alpha")), Ordering::Less);
    assert_eq!(lexical_str_cmp(&s("é.exe"), &s("z.exe")), Ordering::Greater);
}

#[test]
fn comparing_processes_falls_back_to_pid() {
    let a = with_usage(1, 7, 0);
    let b = with_usage(2, 7, 0);
    assert_eq!(compare_processes(SortKey::Cpu, &a, &b), Ordering::Less);
    assert_eq!(compare_processes(SortKey::Cpu, &b, &a), Ordering::Greater);
    assert_eq!(compare_processes(SortKey::Memory, &a, &a), Ordering::Equal);
}

#[test]
fn decimal_text() {
    assert_eq!(decimal_string(0), "0");
    assert_eq!(decimal_string(7), "7");
    assert_eq!(decimal_string(10), "10");
    assert_eq!(decimal_string(4_294_967_295), "4294967295");
    assert_eq!(decimal_string(u64::MAX), "18446744073709551615");
}

fn sample(pid: u32, cpu_time: u64, sample_time: u64) -> Process {
    Process::new(pid, format!("p{}.exe", pid), 1024, cpu_time, sample_time)
}

#[test]
fn reconcile_computes_usage_against_the_previous_cycle() {
    let empty = TaskManagerState::initialize(2).pid_map;
    let (first, map1) = reconcile(&empty, vec![sample(100, 50_000, 0), sample(300, 0, 0)], 2);
    assert!(first.iter().all(|p| p.cpu_usage == 0));
    let (second, map2) = reconcile(&map1, vec![sample(100, 150_000, 1000), sample(200, 9, 1000)], 2);
    assert_eq!(pids(&second), vec![100, 200]);
    assert_eq!(second[0].cpu_usage, 1);
    assert_eq!(second[1].cpu_usage, 0);
    assert_eq!(map2.len(), 2);
    assert_eq!(map2.get(&100).unwrap().cpu_time, 150_000);
    assert_eq!(map2.get(&100).unwrap().cpu_usage, 1);
    assert!(map2.get(&200).is_some());
    assert!(map2.get(&300).is_none());
}

#[test]
fn reconciling_against_the_same_set_reports_zero() {
    let samples = vec![sample(1, 90_000, 500), sample(2, 70_000, 600)];
    let empty = TaskManagerState::initialize(1).pid_map;
    let (_, map) = reconcile(&empty, samples.clone(), 1);
    let (again, _) = reconcile(&map, samples, 1);
    assert!(again.iter().all(|p| p.cpu_usage == 0));
}

#[test]
fn duplicate_pid_in_one_sample_keeps_the_later_entry_in_the_map() {
    let empty = TaskManagerState::initialize(1).pid_map;
    let (list, map) = reconcile(&empty, vec![sample(5, 1, 10), sample(5, 2, 20)], 1);
    assert_eq!(list.len(), 2);
    assert_eq!(map.len(), 1);
    assert_eq!(map.get(&5).unwrap().cpu_time, 2);
}

#[test]
fn initial_store_is_empty_and_sorted_by_name() {
    let state = TaskManagerState::initialize(8);
    assert_eq!(state.num_cpus, 8);
    assert_eq!(state.sort_state, SortState::SortUp(SortKey::Name));
    assert_eq!(state.process_count(), 0);
    assert!(state.pid_map.is_empty());
}

#[test]
fn refresh_reconciles_sorts_and_replaces() {
    let mut state = TaskManagerState::initialize(1);
    state.set_sort_state(SortState::SortDown(SortKey::Cpu));
    let n = refresh_process_list(
        &mut state,
        Some(vec![sample(1, 0, 0), sample(2, 0, 0), sample(3, 0, 0)]),
    );
    assert_eq!(n, 3);
    assert_eq!(pids(&state.processes), vec![3, 2, 1]);
    let n = refresh_process_list(
        &mut state,
        Some(vec![sample(1, 1_000_000, 1000), sample(2, 5_000_000, 1000), sample(4, 0, 1000)]),
    );
    assert_eq!(n, 3);
    assert_eq!(pids(&state.processes), vec![2, 1, 4]);
    assert_eq!(state.processes[0].cpu_usage, 50);
    assert_eq!(state.processes[1].cpu_usage, 10);
    assert!(state.pid_map.get(&3).is_none());
}

#[test]
fn failed_sample_keeps_the_store() {
    let mut state = TaskManagerState::initialize(1);
    refresh_process_list(&mut state, Some(vec![sample(9, 0, 0), sample(4, 0, 0)]));
    let n = refresh_process_list(&mut state, None);
    assert_eq!(n, 2);
    assert_eq!(pids(&state.processes), vec![4, 9]);
    assert_eq!(state.pid_map.len(), 2);
}

#[test]
fn update_processes_replaces_list_and_map() {
    let mut state = TaskManagerState::initialize(1);
    let empty = state.pid_map.clone();
    let (list, map) = reconcile(&empty, vec![sample(1, 0, 0)], 1);
    state.update_processes(list, map);
    assert_eq!(state.process_count(), 1);
    assert_eq!(state.pid_map.len(), 1);
    assert_eq!(state.sort_state, SortState::SortUp(SortKey::Name));
}

#[test]
fn rows_render_per_column() {
    let mut state = TaskManagerState::initialize(1);
    let mut p = Process::new(1234, String::from("explorer.exe"), 12_300_000, 0, 0);
    p.cpu_usage = 42;
    state.update_processes(vec![p], state.pid_map.clone());
    assert_eq!(text(on_get_display_info(&state, 0, SortKey::Name)), "explorer.exe");
    assert_eq!(text(on_get_display_info(&state, 0, SortKey::Pid)), "1234");
    assert_eq!(text(on_get_display_info(&state, 0, SortKey::Cpu)), "42");
    match on_get_display_info(&state, 0, SortKey::Memory) {
        CellText::Bytes(b) => assert_eq!(b, 12_300_000),
        CellText::Text(t) => panic!("expected a byte count, got {}", t),
    }
}

#[test]
fn pid_column_increases_after_pid_sort() {
    let mut state = TaskManagerState::initialize(1);
    state.set_sort_state(SortState::SortUp(SortKey::Pid));
    refresh_process_list(
        &mut state,
        Some(vec![sample(912, 0, 0), sample(4, 0, 0), sample(88, 0, 0), sample(10, 0, 0)]),
    );
    let rows: Vec<String> =
        (0..state.process_count()).map(|i| text(on_get_display_info(&state, i, SortKey::Pid))).collect();
    assert_eq!(rows, vec!["4", "10", "88", "912"]);
    for w in rows.windows(2) {
        assert!(w[0].parse::<u32>().unwrap() < w[1].parse::<u32>().unwrap());
    }
}

#[test]
fn column_indices_map_to_keys() {
    assert_eq!(column_index_to_sort_key(0), Some(SortKey::Name));
    assert_eq!(column_index_to_sort_key(1), Some(SortKey::Pid));
    assert_eq!(column_index_to_sort_key(2), Some(SortKey::Cpu));
    assert_eq!(column_index_to_sort_key(3), Some(SortKey::Memory));
    assert_eq!(column_index_to_sort_key(4), None);
    assert_eq!(column_index_to_sort_key(-1), None);
}

#[test]
fn clicking_the_sorted_column_flips_direction() {
    let mut state = TaskManagerState::initialize(1);
    assert_eq!(toggle_sort_order(&mut state, 0), Some(SortState::SortDown(SortKey::Name)));
    assert_eq!(toggle_sort_order(&mut state, 0), Some(SortState::SortUp(SortKey::Name)));
    assert_eq!(state.sort_state, SortState::SortUp(SortKey::Name));
}

#[test]
fn clicking_another_column_sorts_it_ascending() {
    let mut state = TaskManagerState::initialize(1);
    assert_eq!(toggle_sort_order(&mut state, 2), Some(SortState::SortUp(SortKey::Cpu)));
    assert_eq!(toggle_sort_order(&mut state, 2), Some(SortState::SortDown(SortKey::Cpu)));
    assert_eq!(toggle_sort_order(&mut state, 3), Some(SortState::SortUp(SortKey::Memory)));
    assert_eq!(state.sort_state, SortState::SortUp(SortKey::Memory));
}

#[test]
fn clicking_outside_the_columns_changes_nothing() {
    let mut state = TaskManagerState::initialize(1);
    state.set_sort_state(SortState::SortDown(SortKey::Pid));
    assert_eq!(toggle_sort_order(&mut state, 7), None);
    assert_eq!(state.sort_state, SortState::SortDown(SortKey::Pid));
}

#[test]
fn header_arrows_follow_the_sort() {
    let down = SortState::SortDown(SortKey::Cpu);
    assert_eq!(header_arrow(down, 2), HeaderArrow::Down);
    assert_eq!(header_arrow(down, 0), HeaderArrow::NoArrow);
    assert_eq!(header_arrow(down, 3), HeaderArrow::NoArrow);
    let up = SortState::SortUp(SortKey::Name);
    assert_eq!(header_arrow(up, 0), HeaderArrow::Up);
    assert_eq!(header_arrow(up, 1), HeaderArrow::NoArrow);
}

#[test]
fn selected_row_gives_the_pid_to_end() {
    let mut state = TaskManagerState::initialize(1);
    refresh_process_list(&mut state, Some(vec![sample(30, 0, 0), sample(20, 0, 0)]));
    assert_eq!(selected_pid(&state, 0), Some(20));
    assert_eq!(selected_pid(&state, 1), Some(30));
    assert_eq!(selected_pid(&state, -1), None);
    assert_eq!(selected_pid(&state, 2), None);
}
