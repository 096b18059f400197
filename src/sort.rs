use std::cmp::Ordering;
use vstd::prelude::*;
use vstd::string::StrSliceExecFns;

use crate::process::Process;
use crate::state::{SortKey, SortState};

verus! {

/// Lexical order of two names: code point by code point, a proper prefix
/// first.
pub open spec fn name_cmp(a: Seq<char>, b: Seq<char>) -> Ordering
    decreases a.len(),
{
    if a.len() == 0 {
        if b.len() == 0 {
            Ordering::Equal
        } else {
            Ordering::Less
        }
    } else if b.len() == 0 {
        Ordering::Greater
    } else if (a[0] as int) < (b[0] as int) {
        Ordering::Less
    } else if (a[0] as int) > (b[0] as int) {
        Ordering::Greater
    } else {
        name_cmp(a.drop_first(), b.drop_first())
    }
}

pub open spec fn int_cmp(a: int, b: int) -> Ordering {
    if a < b {
        Ordering::Less
    } else if a > b {
        Ordering::Greater
    } else {
        Ordering::Equal
    }
}

/// `first`, and `second` where `first` ties.
pub open spec fn then_cmp(first: Ordering, second: Ordering) -> Ordering {
    if first == Ordering::Equal {
        second
    } else {
        first
    }
}

/// The ascending order of `key`: the key's natural order, ties broken by
/// ascending pid.
pub open spec fn process_cmp(key: SortKey, a: Process, b: Process) -> Ordering {
    let by_pid = int_cmp(a.pid as int, b.pid as int);
    match key {
        SortKey::Name => then_cmp(name_cmp(a.image_name@, b.image_name@), by_pid),
        SortKey::Pid => by_pid,
        SortKey::Cpu => then_cmp(int_cmp(a.cpu_usage as int, b.cpu_usage as int), by_pid),
        SortKey::Memory => then_cmp(
            int_cmp(a.private_working_set as int, b.private_working_set as int),
            by_pid,
        ),
    }
}

/// `a` may stand before `b` in ascending order of `key`.
pub open spec fn process_le(key: SortKey, a: Process, b: Process) -> bool {
    process_cmp(key, a, b) != Ordering::Greater
}

/// `s` is in ascending order of `key`.
pub open spec fn sorted_by(key: SortKey, s: Seq<Process>) -> bool {
    forall|i: int, j: int| 0 <= i < j < s.len() ==> process_le(key, #[trigger] s[i], #[trigger] s[j])
}

/// Where a stable insertion puts `x` into the sorted `t`, searching from `j`:
/// before the first element that does not sort strictly before `x`.
pub open spec fn insert_pos_from(key: SortKey, x: Process, t: Seq<Process>, j: int) -> int
    decreases t.len() - j,
{
    if j < 0 || j >= t.len() {
        t.len() as int
    } else if process_cmp(key, t[j], x) == Ordering::Less {
        insert_pos_from(key, x, t, j + 1)
    } else {
        j
    }
}

pub open spec fn insert_sorted(key: SortKey, x: Process, t: Seq<Process>) -> Seq<Process> {
    t.insert(insert_pos_from(key, x, t, 0), x)
}

/// The stable ascending sort of `s` by `key`: the elements in ascending order,
/// those that tie keeping their order in `s`.
pub open spec fn sort_ascending(key: SortKey, s: Seq<Process>) -> Seq<Process>
    decreases s.len(),
{
    if s.len() == 0 {
        s
    } else {
        insert_sorted(key, s[0], sort_ascending(key, s.drop_first()))
    }
}

/// The order that `sort` gives: ascending, or ascending and then reversed
/// as a whole.
pub open spec fn sort_by_state(sort: SortState, s: Seq<Process>) -> Seq<Process> {
    match sort {
        SortState::SortUp(k) => sort_ascending(k, s),
        SortState::SortDown(k) => sort_ascending(k, s).reverse(),
    }
}


proof fn lemma_name_cmp_antisymmetric(a: Seq<char>, b: Seq<char>)
    ensures
        name_cmp(a, b) == Ordering::Less <==> name_cmp(b, a) == Ordering::Greater,
        name_cmp(a, b) == Ordering::Equal <==> a == b,
    decreases a.len(),
{
    if a.len() > 0 && b.len() > 0 {
        lemma_name_cmp_antisymmetric(a.drop_first(), b.drop_first());
        if a[0] == b[0] && a.drop_first() == b.drop_first() {
            assert(a =~= seq![a[0]] + a.drop_first());
            assert(b =~= seq![b[0]] + b.drop_first());
        }
        if a == b {
            assert(a.drop_first() == b.drop_first());
        }
    } else if a.len() == 0 && b.len() == 0 {
        assert(a =~= b);
    }
}

proof fn lemma_name_cmp_transitive(a: Seq<char>, b: Seq<char>, c: Seq<char>)
    requires
        name_cmp(a, b) == Ordering::Less,
        name_cmp(b, c) == Ordering::Less,
    ensures
        name_cmp(a, c) == Ordering::Less,
    decreases a.len(),
{
    if a.len() > 0 && b.len() > 0 && c.len() > 0 {
        if a[0] == b[0] && b[0] == c[0] {
            lemma_name_cmp_transitive(a.drop_first(), b.drop_first(), c.drop_first());
        }
    }
}

/// `process_cmp` read in both directions agrees.
proof fn lemma_process_cmp_antisymmetric(key: SortKey, a: Process, b: Process)
    ensures
        process_cmp(key, a, b) == Ordering::Less <==> process_cmp(key, b, a) == Ordering::Greater,
        process_cmp(key, a, b) == Ordering::Equal <==> process_cmp(key, b, a) == Ordering::Equal,
{
    lemma_name_cmp_antisymmetric(a.image_name@, b.image_name@);
    lemma_name_cmp_antisymmetric(b.image_name@, a.image_name@);
}

proof fn lemma_process_cmp_transitive(key: SortKey, a: Process, b: Process, c: Process)
    ensures
        process_le(key, a, b) && process_le(key, b, c) ==> process_le(key, a, c),
        process_cmp(key, a, b) == Ordering::Less && process_le(key, b, c) ==> process_cmp(
            key,
            a,
            c,
        ) == Ordering::Less,
        process_le(key, a, b) && process_cmp(key, b, c) == Ordering::Less ==> process_cmp(
            key,
            a,
            c,
        ) == Ordering::Less,
{
    let (na, nb, nc) = (a.image_name@, b.image_name@, c.image_name@);
    lemma_name_cmp_antisymmetric(na, nb);
    lemma_name_cmp_antisymmetric(nb, nc);
    lemma_name_cmp_antisymmetric(na, nc);
    if name_cmp(na, nb) == Ordering::Less && name_cmp(nb, nc) == Ordering::Less {
        lemma_name_cmp_transitive(na, nb, nc);
    }
}


proof fn lemma_insert_pos(key: SortKey, x: Process, t: Seq<Process>, j: int)
    requires
        0 <= j <= t.len(),
    ensures
        j <= insert_pos_from(key, x, t, j) <= t.len(),
        forall|k: int|
            j <= k < insert_pos_from(key, x, t, j) ==> process_cmp(key, #[trigger] t[k], x)
                == Ordering::Less,
        insert_pos_from(key, x, t, j) < t.len() ==> process_cmp(
            key,
            t[insert_pos_from(key, x, t, j)],
            x,
        ) != Ordering::Less,
    decreases t.len() - j,
{
    if j < t.len() && process_cmp(key, t[j], x) == Ordering::Less {
        lemma_insert_pos(key, x, t, j + 1);
    }
}

proof fn lemma_insert_sorted(key: SortKey, x: Process, t: Seq<Process>)
    requires
        sorted_by(key, t),
    ensures
        sorted_by(key, insert_sorted(key, x, t)),
        insert_sorted(key, x, t).to_multiset() == t.to_multiset().insert(x),
{
    let p = insert_pos_from(key, x, t, 0);
    lemma_insert_pos(key, x, t, 0);
    let u = insert_sorted(key, x, t);
    assert forall|k: int| 0 <= k < p implies process_le(key, #[trigger] t[k], x) by {}
    assert forall|k: int| p <= k < t.len() implies process_le(key, x, #[trigger] t[k]) by {
        lemma_process_cmp_antisymmetric(key, t[p], x);
        lemma_process_cmp_transitive(key, x, t[p], t[k]);
    }
    assert forall|i: int, j: int| 0 <= i < j < u.len() implies process_le(
        key,
        #[trigger] u[i],
        #[trigger] u[j],
    ) by {
        if j < p {
        } else if j == p {
        } else if i < p {
            assert(process_le(key, t[i], t[j - 1]));
        } else if i == p {
        } else {
            assert(process_le(key, t[i - 1], t[j - 1]));
        }
    }
    vstd::seq_lib::to_multiset_insert(t, p, x);
}

/// The stable ascending sort is in ascending order and holds exactly the
/// elements of its input.
pub proof fn lemma_sort_ascending(key: SortKey, s: Seq<Process>)
    ensures
        sorted_by(key, sort_ascending(key, s)),
        sort_ascending(key, s).to_multiset() == s.to_multiset(),
    decreases s.len(),
{
    if s.len() > 0 {
        lemma_sort_ascending(key, s.drop_first());
        lemma_insert_sorted(key, s[0], sort_ascending(key, s.drop_first()));
        assert(s =~= seq![s[0]] + s.drop_first());
        vstd::seq_lib::to_multiset_insert(s.drop_first(), 0, s[0]);
        assert(s.drop_first().insert(0, s[0]) =~= s);
    }
}

/// No two processes of `s` share a pid, as within one snapshot.
pub open spec fn pids_distinct(s: Seq<Process>) -> bool {
    forall|i: int, j: int| 0 <= i < j < s.len() ==> #[trigger] s[i].pid != #[trigger] s[j].pid
}

/// Sorting keeps the elements and so keeps distinct pids distinct.
pub proof fn lemma_sort_keeps_distinct_pids(key: SortKey, s: Seq<Process>)
    requires
        pids_distinct(s),
    ensures
        pids_distinct(sort_ascending(key, s)),
        forall|x: Process| #[trigger] sort_ascending(key, s).contains(x) ==> s.contains(x),
    decreases s.len(),
{
    if s.len() > 0 {
        let x = s[0];
        let rest = s.drop_first();
        assert(pids_distinct(rest)) by {
            assert forall|i: int, j: int| 0 <= i < j < rest.len() implies #[trigger] rest[i].pid
                != #[trigger] rest[j].pid by {
                assert(s[i + 1].pid != s[j + 1].pid);
            }
        }
        lemma_sort_keeps_distinct_pids(key, rest);
        let t = sort_ascending(key, rest);
        let p = insert_pos_from(key, x, t, 0);
        lemma_insert_pos(key, x, t, 0);
        let u = t.insert(p, x);
        assert forall|k: int| 0 <= k < t.len() implies #[trigger] t[k].pid != x.pid && s.contains(
            t[k],
        ) by {
            assert(t.contains(t[k]));
            assert(rest.contains(t[k]));
            let m = choose|m: int| 0 <= m < rest.len() && rest[m] == t[k];
            assert(s[m + 1] == t[k]);
            assert(s[0].pid != s[m + 1].pid);
        }
        assert forall|i: int, j: int| 0 <= i < j < u.len() implies #[trigger] u[i].pid
            != #[trigger] u[j].pid by {
            if j < p {
            } else if j == p {
            } else if i < p {
            } else if i == p {
            } else {
            }
        }
        assert forall|y: Process| u.contains(y) implies s.contains(y) by {
            let m = choose|m: int| 0 <= m < u.len() && u[m] == y;
            if m < p {
            } else if m == p {
                assert(s[0] == y);
            } else {
                assert(u[m] == t[m - 1]);
            }
        }
    }
}

/// Compares two names in lexical order, code point by code point.
pub fn lexical_str_cmp(a: &String, b: &String) -> (r: Ordering)
    ensures
        r == name_cmp(a@, b@),
{
    let sa = a.as_str();
    let sb = b.as_str();
    let la = sa.unicode_len();
    let lb = sb.unicode_len();
    let mut i: usize = 0;
    assert(a@.skip(0) =~= a@);
    assert(b@.skip(0) =~= b@);
    while i < la && i < lb
        invariant
            la == a@.len(),
            lb == b@.len(),
            sa@ == a@,
            sb@ == b@,
            i <= la,
            i <= lb,
            name_cmp(a@, b@) == name_cmp(a@.skip(i as int), b@.skip(i as int)),
        decreases la - i,
    {
        let ca = sa.get_char(i);
        let cb = sb.get_char(i);
        assert(a@.skip(i as int)[0] == ca);
        assert(b@.skip(i as int)[0] == cb);
        if (ca as u32) < (cb as u32) {
            return Ordering::Less;
        } else if (ca as u32) > (cb as u32) {
            return Ordering::Greater;
        }
        assert(a@.skip(i as int).drop_first() =~= a@.skip(i + 1));
        assert(b@.skip(i as int).drop_first() =~= b@.skip(i + 1));
        i += 1;
    }
    if la == lb {
        Ordering::Equal
    } else if i == la {
        Ordering::Less
    } else {
        Ordering::Greater
    }
}

fn cmp_u64(a: u64, b: u64) -> (r: Ordering)
    ensures
        r == int_cmp(a as int, b as int),
{
    if a < b {
        Ordering::Less
    } else if a > b {
        Ordering::Greater
    } else {
        Ordering::Equal
    }
}

/// Compares two processes in the ascending order of `key`.
pub fn compare_processes(key: SortKey, a: &Process, b: &Process) -> (r: Ordering)
    ensures
        r == process_cmp(key, *a, *b),
{
    let by_pid = cmp_u64(a.pid as u64, b.pid as u64);
    let primary = match key {
        SortKey::Name => lexical_str_cmp(&a.image_name, &b.image_name),
        SortKey::Pid => Ordering::Equal,
        SortKey::Cpu => cmp_u64(a.cpu_usage, b.cpu_usage),
        SortKey::Memory => cmp_u64(a.private_working_set as u64, b.private_working_set as u64),
    };
    match primary {
        Ordering::Equal => by_pid,
        _ => primary,
    }
}

/// Where a stable insertion puts `x` into `sorted`.
fn insert_position(key: SortKey, sorted: &Vec<Process>, x: &Process) -> (j: usize)
    ensures
        j == insert_pos_from(key, *x, sorted@, 0),
        j <= sorted@.len(),
{
    let mut j: usize = 0;
    while j < sorted.len()
        invariant
            j <= sorted@.len(),
            insert_pos_from(key, *x, sorted@, j as int) == insert_pos_from(key, *x, sorted@, 0),
        decreases sorted@.len() - j,
    {
        proof {
            lemma_insert_pos(key, *x, sorted@, j as int);
        }
        match compare_processes(key, &sorted[j], x) {
            Ordering::Less => {},
            _ => return j,
        }
        j += 1;
    }
    j
}

/// Sorts `processes` in ascending order of `sort_key`, stably.
pub fn sort_process_list(processes: &mut Vec<Process>, sort_key: SortKey)
    ensures
        final(processes)@ == sort_ascending(sort_key, old(processes)@),
        sorted_by(sort_key, final(processes)@),
        final(processes)@.to_multiset() == old(processes)@.to_multiset(),
{
    let ghost all = old(processes)@;
    let mut sorted: Vec<Process> = Vec::new();
    assert(all.subrange(all.len() as int, all.len() as int) =~= Seq::<Process>::empty());
    while processes.len() > 0
        invariant
            processes@.len() <= all.len(),
            processes@ == all.subrange(0, processes@.len() as int),
            sorted@ == sort_ascending(sort_key, all.subrange(processes@.len() as int, all.len() as int)),
        decreases processes@.len(),
    {
        let ghost n = processes@.len() as int;
        let x = processes.pop().unwrap();
        let j = insert_position(sort_key, &sorted, &x);
        sorted.insert(j, x);
        proof {
            let rest = all.subrange(n - 1, all.len() as int);
            assert(rest[0] == x);
            assert(rest.drop_first() =~= all.subrange(n, all.len() as int));
            assert(processes@ =~= all.subrange(0, n - 1));
        }
    }
    assert(all.subrange(0, all.len() as int) =~= all);
    proof {
        lemma_sort_ascending(sort_key, all);
    }
    *processes = sorted;
}


/// Reverses `v` as a whole.
fn reverse_list(v: &mut Vec<Process>)
    ensures
        final(v)@ == old(v)@.reverse(),
{
    let ghost all = old(v)@;
    let mut out: Vec<Process> = Vec::new();
    while v.len() > 0
        invariant
            v@.len() <= all.len(),
            v@ == all.subrange(0, v@.len() as int),
            out@.len() == all.len() - v@.len(),
            forall|k: int| 0 <= k < out@.len() ==> #[trigger] out@[k] == all[all.len() - 1 - k],
        decreases v@.len(),
    {
        let x = v.pop().unwrap();
        out.push(x);
    }
    assert(out@ =~= all.reverse());
    *v = out;
}

/// Orders `processes` as `sort` asks: ascending by its key, or, for a
/// descending sort, ascending and then reversed as a whole, so that ties
/// among equal keys come in descending pid order.
pub fn apply_sort_state(processes: &mut Vec<Process>, sort: SortState)
    ensures
        final(processes)@ == sort_by_state(sort, old(processes)@),
        final(processes)@.to_multiset() == old(processes)@.to_multiset(),
{
    match sort {
        SortState::SortUp(k) => sort_process_list(processes, k),
        SortState::SortDown(k) => {
            sort_process_list(processes, k);
            proof {
                processes@.lemma_reverse_to_multiset();
            }
            reverse_list(processes);
        },
    }
}

/// A descending sort is the ascending sort of the same input reversed, so
/// every pair stands in the opposite order, ties included: among equal keys
/// the pids descend.
pub proof fn lemma_descending_reverses_ascending(key: SortKey, s: Seq<Process>)
    ensures
        sort_by_state(SortState::SortDown(key), s) == sort_by_state(SortState::SortUp(key), s).reverse(),
        forall|i: int, j: int|
            0 <= i < j < s.len() ==> process_le(
                key,
                #[trigger] sort_by_state(SortState::SortDown(key), s)[j],
                #[trigger] sort_by_state(SortState::SortDown(key), s)[i],
            ),
{
    lemma_sort_ascending(key, s);
    let up = sort_ascending(key, s);
    vstd::seq_lib::to_multiset_len(up);
    vstd::seq_lib::to_multiset_len(s);
    let down = up.reverse();
    assert forall|i: int, j: int| 0 <= i < j < s.len() implies process_le(
        key,
        #[trigger] down[j],
        #[trigger] down[i],
    ) by {
        assert(process_le(key, up[s.len() - 1 - j], up[s.len() - 1 - i]));
    }
}

} // verus!
