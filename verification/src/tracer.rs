//! The CPU tracer: a worker that burns CPU in bursts of random length and
//! notes every move to another logical CPU.

use vstd::prelude::*;

verus! {

/// `rand::rngs::ThreadRng`: the generator that `rand` keeps for each
/// thread. It is carried from where it is fetched to where it is drawn from,
/// and nothing is known of what is inside.
#[verifier::external_type_specification]
#[verifier::external_body]
pub struct ExThreadRng(rand::rngs::ThreadRng);

/// `rand::thread_rng`: hands out the calling thread's generator. Nothing is
/// claimed of it.
#[verifier::external_body]
fn thread_generator() -> (rng: rand::rngs::ThreadRng) {
    rand::thread_rng()
}

/// `rand::Rng::gen_range` on the inclusive range from `low` to `high`.
/// The range must not be empty, or the call panics; the draw lies in the
/// range, and that is all that is claimed: which value comes is chance.
#[verifier::external_body]
fn draw(rng: &mut rand::rngs::ThreadRng, low: u64, high: u64) -> (value: u64)
    requires
        low <= high,
    ensures
        low <= value <= high,
{
    rand::Rng::gen_range(rng, low..=high)
}

/// Whether `values` ascends: no value is followed by a smaller one.
pub open spec fn ascending(values: Seq<u64>) -> bool {
    forall|i: int, j: int| 0 <= i <= j < values.len() ==> values[i] <= values[j]
}

/// `sort` of slices in std: puts the values in ascending order. The same
/// values are there afterwards, each as often as before.
#[verifier::external_body]
fn sort_ascending(values: &mut Vec<u64>)
    ensures
        ascending(final(values)@),
        final(values)@.to_multiset() == old(values)@.to_multiset(),
{
    values.sort();
}

/// Whether `values` could be a burst of size `n`: `n` values, none above
/// `n`, in ascending order.
pub open spec fn is_burst(values: Seq<u64>, n: u64) -> bool {
    &&& values.len() == n
    &&& forall|i: int| 0 <= i < values.len() ==> #[trigger] values[i] <= n
    &&& ascending(values)
}

/// Draws `n` values between zero and `n`.
fn fill(rng: &mut rand::rngs::ThreadRng, n: u64) -> (values: Vec<u64>)
    ensures
        values@.len() == n,
        forall|i: int| 0 <= i < values@.len() ==> #[trigger] values@[i] <= n,
{
    let mut values: Vec<u64> = Vec::new();
    let mut i: u64 = 0;
    while i < n
        invariant
            i <= n,
            values@.len() == i,
            forall|k: int| 0 <= k < values@.len() ==> #[trigger] values@[k] <= n,
        decreases n - i,
    {
        let value: u64 = draw(rng, 0, n);
        values.push(value);
        i = i + 1;
    }
    values
}

/// One unit of synthetic work: `n` random values between zero and `n` are
/// drawn and sorted. What was sorted is handed back.
pub fn sort(n: u64) -> (values: Vec<u64>)
    ensures
        is_burst(values@, n),
{
    let mut rng: rand::rngs::ThreadRng = thread_generator();
    let mut values: Vec<u64> = fill(&mut rng, n);
    let ghost drawn = values@;
    sort_ascending(&mut values);
    proof {
        drawn.to_multiset_ensures();
        values@.to_multiset_ensures();
        assert(values@.len() == drawn.len());
        assert forall|i: int| 0 <= i < values@.len() implies #[trigger] values@[i] <= n by {
            assert(values@.to_multiset().count(values@[i]) > 0);
            assert(drawn.to_multiset().count(values@[i]) > 0);
            assert(drawn.contains(values@[i]));
        }
    }
    values
}

/// Keeps the CPU busy for one burst of size `n`.
pub fn keep_busy(n: u64) -> (values: Vec<u64>)
    ensures
        is_burst(values@, n),
{
    sort(n)
}

/// Picks the size of the next burst, between `min_work` and `max_work`.
pub fn pick_work(min_work: u64, max_work: u64) -> (n: u64)
    requires
        min_work <= max_work,
    ensures
        min_work <= n <= max_work,
{
    let mut rng: rand::rngs::ThreadRng = thread_generator();
    draw(&mut rng, min_work, max_work)
}

/// The pause after a burst: none where the setting is zero, else the
/// setting taken as a number of microseconds.
pub fn pause_micros(sleep: u64) -> (pause: Option<u64>)
    ensures
        pause == if sleep > 0 {
            Some(sleep)
        } else {
            None::<u64>
        },
{
    if sleep > 0 {
        Some(sleep)
    } else {
        None
    }
}

/// The answer of the kernel that stands for "the CPU is not known".
pub const NO_CPU: i32 = -1;

/// What a worker knows between two looks at its CPU.
#[derive(Clone, Copy, Debug, PartialEq, Eq, Structural)]
pub struct CpuTrace {
    pub last_cpu: i32,
    pub loops: u64,
}

/// What a look at the CPU amounts to.
#[derive(Clone, Copy, Debug, PartialEq, Eq, Structural)]
pub enum Sighting {
    /// The kernel could not tell the CPU: the worker gives up.
    Lost,
    /// The worker runs on another CPU than at the last look: a line is due,
    /// with the CPU, the bursts done so far and the time that one took.
    Moved { cpu: i32, loops: u64, nanos_per_loop: u128 },
    /// The worker is where it was.
    Stayed,
}

/// The time that one burst took: the elapsed time shared out over the bursts,
/// rounded down; zero before the first burst.
pub open spec fn loop_velocity(elapsed_nanos: u128, loops: u64) -> int {
    if loops == 0 {
        0
    } else {
        elapsed_nanos as int / loops as int
    }
}

/// What the worker makes of the CPU that the kernel names.
pub open spec fn sighting(trace: CpuTrace, cpu: i32, elapsed_nanos: u128) -> Sighting {
    if cpu == NO_CPU {
        Sighting::Lost
    } else if cpu != trace.last_cpu {
        Sighting::Moved {
            cpu,
            loops: trace.loops,
            nanos_per_loop: loop_velocity(elapsed_nanos, trace.loops) as u128,
        }
    } else {
        Sighting::Stayed
    }
}

impl CpuTrace {
    /// A worker that has not looked yet: any CPU will be news to it.
    pub fn new() -> (trace: CpuTrace)
        ensures
            trace.last_cpu == NO_CPU,
            trace.loops == 0,
    {
        CpuTrace { last_cpu: NO_CPU, loops: 0 }
    }

    /// Takes the CPU that the kernel named, and the time since the worker
    /// began, and says whether a line is due. The worker remembers the CPU,
    /// unless it is lost.
    pub fn observe(&mut self, cpu: i32, elapsed_nanos: u128) -> (seen: Sighting)
        ensures
            seen == sighting(*old(self), cpu, elapsed_nanos),
            final(self).loops == old(self).loops,
            final(self).last_cpu == if cpu == NO_CPU {
                old(self).last_cpu
            } else {
                cpu
            },
    {
        if cpu == NO_CPU {
            Sighting::Lost
        } else if cpu != self.last_cpu {
            let nanos_per_loop: u128 = if self.loops == 0 {
                0
            } else {
                elapsed_nanos / (self.loops as u128)
            };
            self.last_cpu = cpu;
            Sighting::Moved { cpu, loops: self.loops, nanos_per_loop }
        } else {
            Sighting::Stayed
        }
    }

    /// Counts a burst. The count stops at the largest number it can hold.
    pub fn count_loop(&mut self)
        ensures
            final(self).last_cpu == old(self).last_cpu,
            final(self).loops == if old(self).loops < u64::MAX {
                (old(self).loops + 1) as u64
            } else {
                old(self).loops
            },
    {
        if self.loops < u64::MAX {
            self.loops = self.loops + 1;
        }
    }
}

} // verus!
