use vstd::prelude::*;

use crate::process::Process;

verus! {

#[verifier::external_type_specification]
#[verifier::external_body]
#[verifier::reject_recursive_types(K)]
#[verifier::reject_recursive_types(V)]
#[verifier::reject_recursive_types(S)]
pub struct ExImHashMap<K, V, S>(im::HashMap<K, V, S>);

/// The identity map: each pid to the most recent sample of that pid.
pub type PidMap = im::HashMap<u32, Process>;

/// The entries of a pid map.
pub uninterp spec fn pid_map_entries(m: im::HashMap<u32, Process>) -> Map<u32, Process>;

/// Relies on `im::HashMap::new`: a map with no entries.
#[verifier::external_body]
pub(crate) fn new_pid_map() -> (r: PidMap)
    ensures
        pid_map_entries(r) =~= Map::empty(),
{
    im::HashMap::new()
}

/// Relies on `im::HashMap::insert`: `pid` maps to `p` afterwards, replacing
/// any earlier value, and every other entry stays.
#[verifier::external_body]
pub(crate) fn pid_map_insert(m: &mut PidMap, pid: u32, p: Process)
    ensures
        pid_map_entries(*final(m)) == pid_map_entries(*old(m)).insert(pid, p),
{
    m.insert(pid, p);
}

/// Relies on `im::HashMap::get`: the value of `pid`, if the map has one.
#[verifier::external_body]
pub(crate) fn pid_map_get<'a>(m: &'a PidMap, pid: u32) -> (r: Option<&'a Process>)
    ensures
        match r {
            Some(p) => pid_map_entries(*m).contains_key(pid) && *p == pid_map_entries(*m)[pid],
            None => !pid_map_entries(*m).contains_key(pid),
        },
{
    m.get(&pid)
}

} // verus!
