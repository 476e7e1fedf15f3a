//! Time-stamp counter: assembling the counter from its register halves,
//! choosing the counter instruction, and the statistics of the runtime loop.

use vstd::prelude::*;

verus! {

/// The 64-bit counter value whose high half is `hi` (EDX) and low half is `lo` (EAX).
pub open spec fn counter_value(hi: u32, lo: u32) -> int {
    hi * 0x1_0000_0000 + lo
}

/// Joins the EDX:EAX halves that `rdtsc`/`rdtscp` leave behind into one counter value.
pub fn tsc_from_parts(hi: u32, lo: u32) -> (value: u64)
    ensures
        value == counter_value(hi, lo),
{
    let v: u64 = ((hi as u64) << 32u64) | (lo as u64);
    assert(v == hi * 0x1_0000_0000 + lo) by (bit_vector)
        requires
            v == ((hi as u64) << 32u64) | (lo as u64),
    ;
    v
}

/// Every 64-bit counter value is joined back from its own EDX:EAX halves.
pub proof fn lemma_counter_halves(value: u64)
    ensures
        counter_value((value >> 32u64) as u32, value as u32) == value,
{
    let hi = (value >> 32u64) as u32;
    let lo = value as u32;
    assert(hi * 0x1_0000_0000 + lo == value) by (bit_vector)
        requires
            hi == (value >> 32u64) as u32,
            lo == value as u32,
    ;
}

/// CPUID leaf that reports the highest extended leaf.
pub const EXTENDED_MAX_LEAF: u32 = 0x8000_0000;

/// CPUID leaf whose EDX holds the extended feature bits, RDTSCP among them.
pub const EXTENDED_FEATURE_LEAF: u32 = 0x8000_0001;

/// Bit 27 of `EXTENDED_FEATURE_LEAF`'s EDX: the processor has RDTSCP.
pub const RDTSCP_FEATURE_BIT: u32 = 0x0800_0000;

/// Whether the processor reports `EXTENDED_FEATURE_LEAF`, given the EAX of
/// `EXTENDED_MAX_LEAF`; only then may that leaf be queried.
pub fn extended_feature_leaf_available(max_extended_leaf: u32) -> (available: bool)
    ensures
        available == (max_extended_leaf >= EXTENDED_FEATURE_LEAF),
{
    max_extended_leaf >= EXTENDED_FEATURE_LEAF
}

/// Whether RDTSCP may be used: the extended feature leaf exists and its EDX
/// (`extended_features_edx`) has bit 27 set. Where the leaf does not exist its EDX is
/// not read.
pub fn rdtscp_supported(max_extended_leaf: u32, extended_features_edx: u32) -> (supported: bool)
    ensures
        supported == (max_extended_leaf >= EXTENDED_FEATURE_LEAF && extended_features_edx
            & RDTSCP_FEATURE_BIT != 0),
{
    if !extended_feature_leaf_available(max_extended_leaf) {
        return false;
    }
    extended_features_edx & RDTSCP_FEATURE_BIT != 0
}

/// The instruction that reads the counter.
#[derive(PartialEq, Eq, Structural, Clone, Copy, Debug)]
pub enum TscInstruction {
    Rdtsc,
    Rdtscp,
}

/// Chooses the counter instruction: RDTSCP where the processor has it, RDTSC otherwise.
pub fn read_tsc(has_rdtscp: bool) -> (instruction: TscInstruction)
    ensures
        instruction == if has_rdtscp {
            TscInstruction::Rdtscp
        } else {
            TscInstruction::Rdtsc
        },
{
    if has_rdtscp {
        TscInstruction::Rdtscp
    } else {
        TscInstruction::Rdtsc
    }
}

/// `core::hint::spin_loop`: tells the processor that the caller is busy-waiting. It has
/// no effect that the program can observe, so nothing is claimed of it.
#[verifier::external_body]
fn spin_loop_hint() {
    core::hint::spin_loop();
}

/// Spin hints issued by `warmup`.
pub const WARMUP_SPINS: u32 = 100_000;

/// Spin hints issued by one `busy_work`.
pub const BUSY_WORK_SPINS: u32 = 1024;

/// Spins before the measured loop starts; answers the number of spin hints issued,
/// `WARMUP_SPINS`.
pub fn warmup() -> (spins: Ghost<nat>)
    ensures
        spins@ == WARMUP_SPINS,
{
    let mut i: u32 = 0;
    let ghost mut hints: nat = 0;
    while i < WARMUP_SPINS
        invariant
            i <= WARMUP_SPINS,
            hints == i,
        decreases WARMUP_SPINS - i,
    {
        spin_loop_hint();
        proof {
            hints = hints + 1;
        }
        i = i + 1;
    }
    Ghost(hints)
}

/// The measured work of one loop turn; answers the number of spin hints issued,
/// `BUSY_WORK_SPINS`.
pub fn busy_work() -> (spins: Ghost<nat>)
    ensures
        spins@ == BUSY_WORK_SPINS,
{
    let mut i: u32 = 0;
    let ghost mut hints: nat = 0;
    while i < BUSY_WORK_SPINS
        invariant
            i <= BUSY_WORK_SPINS,
            hints == i,
        decreases BUSY_WORK_SPINS - i,
    {
        spin_loop_hint();
        proof {
            hints = hints + 1;
        }
        i = i + 1;
    }
    Ghost(hints)
}

/// Loop turns between two reports.
pub const REPORT_INTERVAL: u64 = 10_000;

/// Smallest of `s`, or `u64::MAX` for none.
pub open spec fn fold_min(s: Seq<u64>) -> u64
    decreases s.len(),
{
    if s.len() == 0 {
        u64::MAX
    } else {
        let m = fold_min(s.drop_last());
        if s.last() < m {
            s.last()
        } else {
            m
        }
    }
}

/// Largest of `s`, or 0 for none.
pub open spec fn fold_max(s: Seq<u64>) -> u64
    decreases s.len(),
{
    if s.len() == 0 {
        0
    } else {
        let m = fold_max(s.drop_last());
        if s.last() > m {
            s.last()
        } else {
            m
        }
    }
}

/// Statistics of the measured loop turns, as their view shows them.
pub struct LoopStatsView {
    /// Duration of the latest turn.
    pub last: u64,
    /// Shortest duration so far, `u64::MAX` before the first turn.
    pub min: u64,
    /// Longest duration so far, 0 before the first turn.
    pub max: u64,
    /// Turns so far, wrapping at 2^64.
    pub iterations: u64,
    /// Every duration measured, in order.
    pub deltas: Seq<u64>,
}

impl LoopStatsView {
    /// The kept values agree with the recorded durations.
    pub open spec fn wf(self) -> bool {
        &&& self.min == fold_min(self.deltas)
        &&& self.max == fold_max(self.deltas)
        &&& self.iterations == self.deltas.len() % 0x1_0000_0000_0000_0000
        &&& self.deltas.len() > 0 ==> self.last == self.deltas.last()
    }
}

/// Statistics of the measured loop turns.
pub struct LoopStats {
    last: u64,
    min: u64,
    max: u64,
    iterations: u64,
    deltas: Ghost<Seq<u64>>,
}

impl LoopStats {
    pub closed spec fn view(&self) -> LoopStatsView {
        LoopStatsView {
            last: self.last,
            min: self.min,
            max: self.max,
            iterations: self.iterations,
            deltas: self.deltas@,
        }
    }

    pub open spec fn wf(&self) -> bool {
        self@.wf()
    }

    /// Statistics before the first turn.
    pub fn new() -> (stats: LoopStats)
        ensures
            stats.wf(),
            stats@ == (LoopStatsView {
                last: 0,
                min: u64::MAX,
                max: 0,
                iterations: 0,
                deltas: Seq::empty(),
            }),
    {
        LoopStats { last: 0, min: u64::MAX, max: 0, iterations: 0, deltas: Ghost(Seq::empty()) }
    }

    /// Duration of the latest turn.
    pub fn last(&self) -> (last: u64)
        ensures
            last == self@.last,
    {
        self.last
    }

    /// Shortest duration so far.
    pub fn min(&self) -> (min: u64)
        ensures
            min == self@.min,
    {
        self.min
    }

    /// Longest duration so far.
    pub fn max(&self) -> (max: u64)
        ensures
            max == self@.max,
    {
        self.max
    }

    /// Turns so far, wrapping at 2^64.
    pub fn iterations(&self) -> (iterations: u64)
        ensures
            iterations == self@.iterations,
    {
        self.iterations
    }
}

/// One turn of the runtime loop, measured from counter value `start` to `end`: records
/// the duration `end - start` (wrapping), updates the statistics, and answers whether
/// this turn's statistics are due to be reported (every `REPORT_INTERVAL` turns).
pub fn runtime_loop(stats: &mut LoopStats, start: u64, end: u64) -> (report: bool)
    requires
        old(stats).wf(),
    ensures
        final(stats).wf(),
        final(stats)@.deltas == old(stats)@.deltas.push(
            vstd::wrapping::u64_specs::wrapping_sub(end, start),
        ),
        final(stats)@.last == vstd::wrapping::u64_specs::wrapping_sub(end, start),
        final(stats)@.min == if final(stats)@.last < old(stats)@.min {
            final(stats)@.last
        } else {
            old(stats)@.min
        },
        final(stats)@.max == if final(stats)@.last > old(stats)@.max {
            final(stats)@.last
        } else {
            old(stats)@.max
        },
        final(stats)@.iterations == vstd::wrapping::u64_specs::wrapping_add(
            old(stats)@.iterations,
            1,
        ),
        report == (final(stats)@.iterations % REPORT_INTERVAL == 0),
{
    let delta = end.wrapping_sub(start);
    let ghost old_deltas = stats.deltas@;
    stats.last = delta;
    if delta < stats.min {
        stats.min = delta;
    }
    if delta > stats.max {
        stats.max = delta;
    }
    stats.iterations = stats.iterations.wrapping_add(1);
    stats.deltas = Ghost(old_deltas.push(delta));
    proof {
        assert(stats.deltas@.drop_last() =~= old_deltas);
        vstd::arithmetic::div_mod::lemma_add_mod_noop(
            old_deltas.len() as int,
            1,
            0x1_0000_0000_0000_0000,
        );
    }
    stats.iterations % REPORT_INTERVAL == 0
}

/// The kept minimum and maximum are the extremes of every duration recorded: none lies
/// below the minimum or above the maximum, and once a turn is recorded both are
/// durations that occurred.
pub proof fn lemma_loop_extremes(stats: LoopStatsView)
    requires
        stats.wf(),
    ensures
        forall|i: int|
            0 <= i < stats.deltas.len() ==> stats.min <= #[trigger] stats.deltas[i] <= stats.max,
        stats.deltas.len() > 0 ==> stats.deltas.contains(stats.min) && stats.deltas.contains(
            stats.max,
        ),
        stats.deltas.len() > 0 ==> stats.min <= stats.last <= stats.max,
{
    lemma_fold_extremes(stats.deltas);
}

proof fn lemma_fold_extremes(s: Seq<u64>)
    ensures
        forall|i: int| 0 <= i < s.len() ==> fold_min(s) <= #[trigger] s[i] <= fold_max(s),
        s.len() > 0 ==> s.contains(fold_min(s)) && s.contains(fold_max(s)),
    decreases s.len(),
{
    if s.len() > 0 {
        let p = s.drop_last();
        lemma_fold_extremes(p);
        assert forall|i: int| 0 <= i < s.len() implies fold_min(s) <= #[trigger] s[i] <= fold_max(
            s,
        ) by {
            if i < s.len() - 1 {
                assert(s[i] == p[i]);
            }
        }
        if p.len() > 0 {
            let a = choose|i: int| 0 <= i < p.len() && p[i] == fold_min(p);
            let b = choose|i: int| 0 <= i < p.len() && p[i] == fold_max(p);
            assert(s[a] == p[a]);
            assert(s[b] == p[b]);
        }
        assert(s[s.len() - 1] == s.last());
    }
}

} // verus!
