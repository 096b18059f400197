use vstd::prelude::*;

verus! {

/// Resolution of the cumulative CPU counters: 100-nanosecond ticks, so this
/// many ticks make one millisecond.
pub const TICKS_PER_MS: u64 = 10_000;

/// One process at one instant.
///
/// `cpu_time` is the cumulative kernel plus user time in 100 ns ticks;
/// `sample_time` is the instant of the sample in milliseconds on a monotonic
/// clock; `cpu_usage` is the whole-number percentage computed against the
/// previous sample of the same pid, 0 when there was none.
#[derive(Clone, Debug)]
pub struct Process {
    pub pid: u32,
    pub image_name: String,
    pub private_working_set: usize,
    pub cpu_time: u64,
    pub sample_time: u64,
    pub cpu_usage: u64,
}

/// Whole milliseconds in a tick count.
pub open spec fn ticks_to_ms(ticks: u64) -> int {
    ticks as int / TICKS_PER_MS as int
}

/// `n / d` rounded to the nearest integer, halves rounded up.
pub open spec fn div_round_half_up(n: int, d: int) -> int
    recommends
        d > 0,
{
    (2 * n + d) / (2 * d)
}

/// The CPU utilization of a process between two of its samples, as a whole
/// percentage of all `num_cpus` processors:
/// `round(delta_cpu_ms / elapsed_ms / num_cpus * 100)`, halves rounded up.
/// A degenerate input reports 0: no time elapsed, no processor, or a CPU
/// counter that went backwards, which means the pid now names a new process
/// and is treated as seen for the first time.
pub open spec fn usage_between(prev: Process, curr: Process, num_cpus: u32) -> int {
    let delta = ticks_to_ms(curr.cpu_time) - ticks_to_ms(prev.cpu_time);
    let elapsed = curr.sample_time as int - prev.sample_time as int;
    if delta < 0 || elapsed <= 0 || num_cpus == 0 {
        0
    } else {
        div_round_half_up(100 * delta, elapsed * num_cpus as int)
    }
}

proof fn lemma_rounded_percent_bound(delta: int, d: int)
    requires
        delta >= 0,
        d >= 1,
    ensures
        0 <= div_round_half_up(100 * delta, d) <= 100 * delta,
{
    let q = div_round_half_up(100 * delta, d);
    vstd::arithmetic::div_mod::lemma_fundamental_div_mod(200 * delta + d, 2 * d);
    vstd::arithmetic::div_mod::lemma_div_pos_is_pos(200 * delta + d, 2 * d);
    let r = (200 * delta + d) % (2 * d);
    assert(q * (2 * d) <= 200 * delta + d) by (nonlinear_arith)
        requires
            200 * delta + d == (2 * d) * q + r,
            r >= 0,
    ;
    assert(q <= 100 * delta) by (nonlinear_arith)
        requires
            q * (2 * d) <= 200 * delta + d,
            d >= 1,
            delta >= 0,
            q >= 0,
    ;
}

/// `q * d <= z` bounds `q` by `z / d`.
proof fn lemma_le_div(q: int, d: int, z: int)
    requires
        d > 0,
        q * d <= z,
    ensures
        q <= z / d,
{
    vstd::arithmetic::div_mod::lemma_div_is_ordered(d * q, z, d);
    vstd::arithmetic::div_mod::lemma_div_multiples_vanish(q, d);
    assert(q * d == d * q) by (nonlinear_arith);
}

/// The rounded percentage never grows with the denominator.
proof fn lemma_rounded_percent_antitone(delta: int, d1: int, d2: int)
    requires
        delta >= 0,
        1 <= d1 <= d2,
    ensures
        div_round_half_up(100 * delta, d2) <= div_round_half_up(100 * delta, d1),
{
    let q2 = div_round_half_up(100 * delta, d2);
    vstd::arithmetic::div_mod::lemma_fundamental_div_mod(200 * delta + d2, 2 * d2);
    vstd::arithmetic::div_mod::lemma_div_pos_is_pos(200 * delta + d2, 2 * d2);
    let r = (200 * delta + d2) % (2 * d2);
    assert(q2 * (2 * d2) <= 200 * delta + d2) by (nonlinear_arith)
        requires
            200 * delta + d2 == (2 * d2) * q2 + r,
            r >= 0,
    ;
    if q2 > 0 {
        assert(q2 * (2 * d1) <= 200 * delta + d1) by (nonlinear_arith)
            requires
                q2 * (2 * d2) <= 200 * delta + d2,
                q2 >= 1,
                1 <= d1 <= d2,
        ;
        lemma_le_div(q2, 2 * d1, 200 * delta + d1);
    } else {
        vstd::arithmetic::div_mod::lemma_div_pos_is_pos(200 * delta + d1, 2 * d1);
    }
}

/// On one processor, a process whose CPU time grew by no more whole
/// milliseconds than the wall-clock time between its samples reports a usage
/// between 0% and 100%.
pub proof fn lemma_single_cpu_usage_at_most_100(prev: Process, curr: Process)
    requires
        curr.cpu_time >= prev.cpu_time,
        curr.sample_time > prev.sample_time,
        ticks_to_ms(curr.cpu_time) - ticks_to_ms(prev.cpu_time) <= curr.sample_time as int
            - prev.sample_time as int,
    ensures
        0 <= usage_between(prev, curr, 1) <= 100,
{
    let delta = ticks_to_ms(curr.cpu_time) - ticks_to_ms(prev.cpu_time);
    let e = curr.sample_time as int - prev.sample_time as int;
    vstd::arithmetic::div_mod::lemma_div_is_ordered(
        prev.cpu_time as int,
        curr.cpu_time as int,
        TICKS_PER_MS as int,
    );
    lemma_rounded_percent_bound(delta, e);
    if delta > 0 {
        lemma_rounded_percent_antitone(delta, delta, e);
        assert((2 * (100 * delta) + delta) == (2 * delta) * 100 + delta) by (nonlinear_arith);
        vstd::arithmetic::div_mod::lemma_div_multiples_vanish_fancy(100, delta, 2 * delta);
    }
}

/// For fixed samples, the usage never grows as the number of processors
/// grows.
pub proof fn lemma_usage_antitone_in_cpus(prev: Process, curr: Process, n1: u32, n2: u32)
    requires
        1 <= n1 <= n2,
    ensures
        usage_between(prev, curr, n2) <= usage_between(prev, curr, n1),
{
    let delta = ticks_to_ms(curr.cpu_time) - ticks_to_ms(prev.cpu_time);
    let e = curr.sample_time as int - prev.sample_time as int;
    if delta >= 0 && e > 0 {
        assert(1 <= e * n1 <= e * n2) by (nonlinear_arith)
            requires
                e >= 1,
                1 <= n1 <= n2,
        ;
        lemma_rounded_percent_antitone(delta, e * n1, e * n2);
    }
}

impl Process {
    /// A fresh sample, with no usage computed yet.
    pub fn new(
        pid: u32,
        image_name: String,
        private_working_set: usize,
        cpu_time: u64,
        sample_time: u64,
    ) -> (r: Process)
        ensures
            r == (Process { pid, image_name, private_working_set, cpu_time, sample_time, cpu_usage: 0 }),
    {
        Process { pid, image_name, private_working_set, cpu_time, sample_time, cpu_usage: 0 }
    }

    /// A copy of this sample.
    pub fn duplicate(&self) -> (r: Process)
        ensures
            r == *self,
    {
        Process {
            pid: self.pid,
            image_name: self.image_name.clone(),
            private_working_set: self.private_working_set,
            cpu_time: self.cpu_time,
            sample_time: self.sample_time,
            cpu_usage: self.cpu_usage,
        }
    }
}

/// CPU utilization of a process between `sample1` and the later `sample2`,
/// as a whole percentage of all `num_cpus` processors.
pub fn get_cpu_usage(sample1: &Process, sample2: &Process, num_cpus: u32) -> (r: u64)
    ensures
        r as int == usage_between(*sample1, *sample2, num_cpus),
        r == usage_between(*sample1, *sample2, num_cpus) as u64,
{
    let p1_time_ms = sample1.cpu_time / TICKS_PER_MS;
    let p2_time_ms = sample2.cpu_time / TICKS_PER_MS;
    if p2_time_ms < p1_time_ms || sample2.sample_time <= sample1.sample_time || num_cpus == 0 {
        return 0;
    }
    let delta = (p2_time_ms - p1_time_ms) as u128;
    let elapsed = (sample2.sample_time - sample1.sample_time) as u128;
    assert(elapsed * (num_cpus as u128) <= 0xffff_ffff_ffff_ffff * 0xffff_ffff) by (nonlinear_arith)
        requires
            elapsed <= 0xffff_ffff_ffff_ffff,
            num_cpus <= 0xffff_ffff,
    ;
    let d = elapsed * (num_cpus as u128);
    assert(d >= 1) by (nonlinear_arith)
        requires
            d == elapsed * num_cpus,
            elapsed >= 1,
            num_cpus >= 1,
    ;
    let r = (200 * delta + d) / (2 * d);
    proof {
        lemma_rounded_percent_bound(delta as int, d as int);
    }
    r as u64
}

/// A 64-bit count of 100 ns ticks as the operating system hands it over: a
/// high and a low 32-bit half.
#[derive(Clone, Copy, Debug, PartialEq, Eq, Structural)]
pub struct FileTime {
    pub high: u32,
    pub low: u32,
}

pub open spec fn file_time_value(t: FileTime) -> int {
    t.high as int * 0x1_0000_0000 + t.low as int
}

/// The tick count that the two halves make.
pub fn filetime_to_u64(time: &FileTime) -> (r: u64)
    ensures
        r == file_time_value(*time),
{
    let high = time.high;
    let low = time.low;
    let r = ((high as u64) << 32u64) | (low as u64);
    assert(r == (high as u64) * 0x1_0000_0000u64 + (low as u64)) by (bit_vector)
        requires
            r == ((high as u64) << 32u64) | (low as u64),
    ;
    r
}

/// The cumulative CPU time of a process: kernel time plus user time, or
/// `None` when the sum does not fit in 64 bits.
pub fn get_process_cpu_time(kernel_time: &FileTime, user_time: &FileTime) -> (r: Option<u64>)
    ensures
        match r {
            Some(t) => t == file_time_value(*kernel_time) + file_time_value(*user_time),
            None => file_time_value(*kernel_time) + file_time_value(*user_time) > u64::MAX,
        },
{
    let kernel_time_64 = filetime_to_u64(kernel_time);
    let user_time_64 = filetime_to_u64(user_time);
    kernel_time_64.checked_add(user_time_64)
}

/// What the process source gave for one enumerated pid: nothing when the
/// process could not be opened, else each counter read, `None` where that
/// read failed.
#[derive(Clone, Debug)]
pub enum ProcessRead {
    Inaccessible(u32),
    Opened {
        pid: u32,
        image_name: Option<String>,
        private_working_set: Option<usize>,
        times: Option<(FileTime, FileTime)>,
        sample_time: u64,
    },
}

/// The sample that a read gives: only an opened process whose three reads
/// all succeeded (and whose CPU time fits) gives one, with no usage yet.
pub open spec fn sample_of(read: ProcessRead) -> Option<Process> {
    match read {
        ProcessRead::Inaccessible(_) => None,
        ProcessRead::Opened { pid, image_name, private_working_set, times, sample_time } => {
            match (image_name, private_working_set, times) {
                (Some(name), Some(working_set), Some((kernel_time, user_time))) => {
                    let cpu_time = file_time_value(kernel_time) + file_time_value(user_time);
                    if cpu_time <= u64::MAX {
                        Some(
                            Process {
                                pid,
                                image_name: name,
                                private_working_set: working_set,
                                cpu_time: cpu_time as u64,
                                sample_time,
                                cpu_usage: 0,
                            },
                        )
                    } else {
                        None
                    }
                },
                _ => None,
            }
        },
    }
}

/// The samples of a pass, in the order of the reads, without the processes
/// that could not be opened or read.
pub open spec fn samples_of(reads: Seq<ProcessRead>) -> Seq<Process>
    decreases reads.len(),
{
    if reads.len() == 0 {
        Seq::empty()
    } else {
        match sample_of(reads.last()) {
            Some(p) => samples_of(reads.drop_last()).push(p),
            None => samples_of(reads.drop_last()),
        }
    }
}

/// The sample of one read, if it makes one.
pub fn query_process_information(read: &ProcessRead) -> (r: Option<Process>)
    ensures
        r == sample_of(*read),
{
    match read {
        ProcessRead::Inaccessible(_) => None,
        ProcessRead::Opened { pid, image_name, private_working_set, times, sample_time } => {
            match (image_name, private_working_set, times) {
                (Some(name), Some(working_set), Some((kernel_time, user_time))) => {
                    match get_process_cpu_time(kernel_time, user_time) {
                        Some(cpu_time) => Some(
                            Process::new(*pid, name.clone(), *working_set, cpu_time, *sample_time),
                        ),
                        None => None,
                    }
                },
                _ => None,
            }
        },
    }
}

/// One sampling pass: the samples of the processes that could be opened and
/// read, in enumeration order; the others are skipped without failing the
/// pass.
pub fn get_processes(reads: &Vec<ProcessRead>) -> (r: Vec<Process>)
    ensures
        r@ == samples_of(reads@),
{
    let mut output_process_list: Vec<Process> = Vec::new();
    let mut i: usize = 0;
    while i < reads.len()
        invariant
            i <= reads@.len(),
            output_process_list@ == samples_of(reads@.take(i as int)),
        decreases reads@.len() - i,
    {
        let ghost before = reads@.take(i as int);
        assert(reads@.take(i + 1).drop_last() =~= before);
        if let Some(process) = query_process_information(&reads[i]) {
            output_process_list.push(process);
        }
        i += 1;
    }
    assert(reads@.take(reads@.len() as int) =~= reads@);
    output_process_list
}

} // verus!
