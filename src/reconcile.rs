use vstd::prelude::*;

use crate::pid_map::{new_pid_map, pid_map_entries, pid_map_get, pid_map_insert, PidMap};
use crate::process::{get_cpu_usage, usage_between, Process};
use crate::sort::{lemma_sort_ascending, sort_ascending, sort_by_state};
use crate::state::SortState;

verus! {

/// `p` with its CPU usage computed against the previous sample of its pid in
/// `prev`, or 0 when `prev` has none.
pub open spec fn with_usage(prev: Map<u32, Process>, p: Process, num_cpus: u32) -> Process {
    Process {
        pid: p.pid,
        image_name: p.image_name,
        private_working_set: p.private_working_set,
        cpu_time: p.cpu_time,
        sample_time: p.sample_time,
        cpu_usage: if prev.contains_key(p.pid) {
            usage_between(prev[p.pid], p, num_cpus) as u64
        } else {
            0
        },
    }
}

/// The current samples, in their order, each with its usage against `prev`.
pub open spec fn reconciled(prev: Map<u32, Process>, samples: Seq<Process>, num_cpus: u32) -> Seq<
    Process,
> {
    samples.map_values(|p: Process| with_usage(prev, p, num_cpus))
}

/// The identity map of a list: each pid to its last sample in the list.
pub open spec fn map_of(s: Seq<Process>) -> Map<u32, Process>
    decreases s.len(),
{
    if s.len() == 0 {
        Map::empty()
    } else {
        map_of(s.drop_last()).insert(s.last().pid, s.last())
    }
}

/// The identity map of a list holds exactly the pids of the list, each with
/// its last sample there.
proof fn lemma_map_of(s: Seq<Process>)
    ensures
        forall|pid: u32|
            #[trigger] map_of(s).contains_key(pid) <==> exists|i: int|
                0 <= i < s.len() && #[trigger] s[i].pid == pid,
        forall|i: int|
            0 <= i < s.len() && (forall|j: int| i < j < s.len() ==> #[trigger] s[j].pid != s[i].pid)
                ==> map_of(s)[#[trigger] s[i].pid] == s[i],
    decreases s.len(),
{
    if s.len() > 0 {
        let t = s.drop_last();
        lemma_map_of(t);
        assert(map_of(s) == map_of(t).insert(s.last().pid, s.last()));
        assert forall|pid: u32| #[trigger] map_of(s).contains_key(pid) implies exists|i: int|
            0 <= i < s.len() && #[trigger] s[i].pid == pid by {
            if pid == s.last().pid {
                assert(s[s.len() - 1].pid == pid);
            } else {
                assert(map_of(t).contains_key(pid));
                let i = choose|i: int| 0 <= i < t.len() && #[trigger] t[i].pid == pid;
                assert(s[i].pid == pid);
            }
        }
        assert forall|pid: u32|
            (exists|i: int| 0 <= i < s.len() && #[trigger] s[i].pid == pid) implies #[trigger] map_of(
            s,
        ).contains_key(pid) by {
            let i = choose|i: int| 0 <= i < s.len() && #[trigger] s[i].pid == pid;
            if i < t.len() {
                assert(t[i].pid == pid);
            }
        }
        assert forall|i: int|
            0 <= i < s.len() && (forall|j: int| i < j < s.len() ==> #[trigger] s[j].pid != s[i].pid)
                implies map_of(s)[#[trigger] s[i].pid] == s[i] by {
            if i < t.len() {
                assert(s[s.len() - 1].pid != s[i].pid);
                assert forall|j: int| i < j < t.len() implies #[trigger] t[j].pid != t[i].pid by {
                    assert(s[j].pid != s[i].pid);
                }
            }
        }
    }
}

/// Merges a new sample set with the previous identity map: the list of the
/// current samples with their usage computed where a previous sample of the
/// same pid exists (0 otherwise), and the new identity map built from that
/// list alone, so that pids absent from `new_samples` are gone.
pub fn reconcile(prev_map: &PidMap, new_samples: Vec<Process>, num_cpus: u32) -> (r: (
    Vec<Process>,
    PidMap,
))
    ensures
        r.0@ == reconciled(pid_map_entries(*prev_map), new_samples@, num_cpus),
        pid_map_entries(r.1) == map_of(r.0@),
{
    let ghost prev = pid_map_entries(*prev_map);
    let mut list: Vec<Process> = Vec::new();
    let mut map = new_pid_map();
    let mut i: usize = 0;
    while i < new_samples.len()
        invariant
            i <= new_samples@.len(),
            prev == pid_map_entries(*prev_map),
            list@ == reconciled(prev, new_samples@.take(i as int), num_cpus),
            pid_map_entries(map) == map_of(list@),
        decreases new_samples@.len() - i,
    {
        let mut p = new_samples[i].duplicate();
        let ghost expected = with_usage(prev, p, num_cpus);
        let usage = match pid_map_get(prev_map, p.pid) {
            Some(q) => get_cpu_usage(q, &p, num_cpus),
            None => 0,
        };
        p.cpu_usage = usage;
        assert(p == expected);
        pid_map_insert(&mut map, p.pid, p.duplicate());
        let ghost before = list@;
        list.push(p);
        proof {
            assert(new_samples@.take(i + 1) =~= new_samples@.take(i as int).push(new_samples@[i as int]));
            assert(list@ =~= reconciled(prev, new_samples@.take(i + 1), num_cpus));
            assert(list@.drop_last() =~= before);
        }
        i += 1;
    }
    assert(new_samples@.take(i as int) =~= new_samples@);
    (list, map)
}


/// A process whose pid has no sample in the previous map reports 0%: absence
/// from the previous cycle yields 0, never an error.
pub proof fn lemma_first_seen_reports_zero(
    prev: Map<u32, Process>,
    samples: Seq<Process>,
    num_cpus: u32,
)
    ensures
        forall|i: int|
            0 <= i < samples.len() && !prev.contains_key(#[trigger] samples[i].pid) ==> reconciled(
                prev,
                samples,
                num_cpus,
            )[i].cpu_usage == 0,
{
}

/// Reconciling a sample set with distinct pids against the identity map built
/// from that same set finds each process's own sample as its previous one, no
/// time elapsed, and reports 0% for every process.
pub proof fn lemma_reconcile_against_same_set(samples: Seq<Process>, num_cpus: u32)
    requires
        forall|i: int, j: int|
            0 <= i < j < samples.len() ==> #[trigger] samples[i].pid != #[trigger] samples[j].pid,
    ensures
        forall|i: int|
            0 <= i < samples.len() ==> #[trigger] reconciled(map_of(samples), samples, num_cpus)[i].cpu_usage
                == 0,
{
    lemma_map_of(samples);
    assert forall|i: int| 0 <= i < samples.len() implies #[trigger] reconciled(
        map_of(samples),
        samples,
        num_cpus,
    )[i].cpu_usage == 0 by {
        assert forall|j: int| i < j < samples.len() implies #[trigger] samples[j].pid
            != samples[i].pid by {}
        assert(map_of(samples)[samples[i].pid] == samples[i]);
    }
}

/// A process absent from the new sample set appears neither in the reconciled
/// list, in any sort order, nor in the new identity map, whatever the previous
/// map held: no stale entry survives one missing cycle.
pub proof fn lemma_absent_process_dropped(
    prev: Map<u32, Process>,
    samples: Seq<Process>,
    num_cpus: u32,
    sort: SortState,
    pid: u32,
)
    requires
        forall|i: int| 0 <= i < samples.len() ==> #[trigger] samples[i].pid != pid,
    ensures
        forall|i: int|
            0 <= i < samples.len() ==> #[trigger] reconciled(prev, samples, num_cpus)[i].pid != pid,
        forall|i: int|
            0 <= i < samples.len() ==> #[trigger] sort_by_state(
                sort,
                reconciled(prev, samples, num_cpus),
            )[i].pid != pid,
        !map_of(reconciled(prev, samples, num_cpus)).contains_key(pid),
{
    broadcast use vstd::seq_lib::group_to_multiset_ensures;

    let r = reconciled(prev, samples, num_cpus);
    lemma_map_of(r);
    if map_of(r).contains_key(pid) {
        let i = choose|i: int| 0 <= i < r.len() && #[trigger] r[i].pid == pid;
        assert(samples[i].pid == pid);
    }
    let up = sort_ascending(sort.key(), r);
    lemma_sort_ascending(sort.key(), r);
    assert forall|i: int| 0 <= i < up.len() implies #[trigger] up[i].pid != pid by {
        assert(up.to_multiset().count(up[i]) > 0);
        assert(r.contains(up[i]));
        let k = choose|k: int| 0 <= k < r.len() && r[k] == up[i];
        assert(samples[k].pid != pid);
    }
    assert(up.to_multiset().len() == r.to_multiset().len());
}

} // verus!
