//! The decisions of the sensor poller: which sensor sources it runs, how it
//! accounts for the time each source takes in a cycle, when a cycle counts as
//! slow, and what the poll statistics hold after a cycle. Running the
//! sources, timing them and sleeping between cycles is left to the caller.
use vstd::prelude::*;
use std::collections::HashMap;
use crate::text::{str_eq, to_owned_string};

verus! {

/// A cycle longer than this (in ms) is reported as slow.
pub const SLOW_CYCLE_MS: u64 = 500;

/// A source that took longer than this (in ms) is named in a slow-cycle report.
pub const SLOW_SOURCE_MS: u64 = 100;

/// Statistics of the last poll cycle: its length, and the time taken by the
/// sources of each name (in ms), each name listed once.
#[derive(Debug, Clone)]
pub struct PollStats {
    pub cycle_duration_ms: u64,
    pub source_durations: Vec<(String, u64)>,
}

/// No name is listed twice.
pub open spec fn distinct_names(d: Seq<(String, u64)>) -> bool {
    forall|i: int, j: int| 0 <= i < j < d.len() ==> (#[trigger] d[i]).0@ != (#[trigger] d[j]).0@
}

/// The time listed for `name`, if it is listed.
pub open spec fn duration_of(d: Seq<(String, u64)>, name: Seq<char>) -> Option<u64> {
    if exists|i: int| 0 <= i < d.len() && (#[trigger] d[i]).0@ == name {
        Some(d[choose|i: int| 0 <= i < d.len() && (#[trigger] d[i]).0@ == name].1)
    } else {
        None
    }
}

/// The two lists pair the same names with the same times, in the same order.
pub open spec fn same_durations(a: Seq<(String, u64)>, b: Seq<(String, u64)>) -> bool {
    &&& a.len() == b.len()
    &&& forall|i: int| 0 <= i < a.len() ==> (#[trigger] a[i]).0@ == b[i].0@ && a[i].1 == b[i].1
}

/// `slow` lists, in order, the entries of `d` whose time exceeds `SLOW_SOURCE_MS`.
pub open spec fn slow_entries(d: Seq<(String, u64)>, slow: Seq<(String, u64)>) -> bool
    decreases d.len(),
{
    if d.len() == 0 {
        slow.len() == 0
    } else if d.last().1 > SLOW_SOURCE_MS {
        &&& slow.len() > 0
        &&& slow_entries(d.drop_last(), slow.drop_last())
        &&& slow.last().0@ == d.last().0@
        &&& slow.last().1 == d.last().1
    } else {
        slow_entries(d.drop_last(), slow)
    }
}

pub proof fn lemma_duration_at(d: Seq<(String, u64)>, i: int)
    requires
        distinct_names(d),
        0 <= i < d.len(),
    ensures
        duration_of(d, d[i].0@) == Some(d[i].1),
{
    let name = d[i].0@;
    assert(exists|j: int| 0 <= j < d.len() && (#[trigger] d[j]).0@ == name);
    let j = choose|j: int| 0 <= j < d.len() && (#[trigger] d[j]).0@ == name;
    if j != i {
        if j < i {
            assert(d[j].0@ != d[i].0@);
        } else {
            assert(d[i].0@ != d[j].0@);
        }
    }
}

impl Default for PollStats {
    fn default() -> (r: Self)
        ensures
            r.cycle_duration_ms == 0,
            r.source_durations@.len() == 0,
            distinct_names(r.source_durations@),
    {
        PollStats { cycle_duration_ms: 0, source_durations: Vec::new() }
    }
}

/// Fresh statistics: no cycle yet.
pub fn new_poll_stats() -> (r: PollStats)
    ensures
        r.cycle_duration_ms == 0,
        r.source_durations@.len() == 0,
        distinct_names(r.source_durations@),
{
    PollStats::default()
}

/// Adds `ms` to the time of the sources named `name` in this cycle.
pub fn record_source_duration(durations: &mut Vec<(String, u64)>, name: &str, ms: u64)
    requires
        distinct_names(old(durations)@),
        duration_of(old(durations)@, name@) matches Some(v) ==> v + ms <= u64::MAX,
    ensures
        distinct_names(final(durations)@),
        duration_of(final(durations)@, name@) matches Some(t) && t == match duration_of(
            old(durations)@,
            name@,
        ) {
            Some(v) => v + ms,
            None => ms as int,
        },
        forall|other: Seq<char>|
            other != name@ ==> duration_of(final(durations)@, other) == duration_of(
                old(durations)@,
                other,
            ),
{
    let ghost d0 = durations@;
    let n: usize = durations.len();
    let mut i: usize = 0;
    while i < n
        invariant
            0 <= i <= n,
            n == durations@.len(),
            durations@ == d0,
            d0 == old(durations)@,
            distinct_names(d0),
            duration_of(d0, name@) matches Some(v) ==> v + ms <= u64::MAX,
            forall|k: int| 0 <= k < i ==> (#[trigger] d0[k]).0@ != name@,
        decreases n - i,
    {
        if str_eq(durations[i].0.as_str(), name) {
            proof {
                lemma_duration_at(d0, i as int);
            }
            let total: u64 = durations[i].1 + ms;
            let key = to_owned_string(name);
            durations.set(i, (key, total));
            let ghost d1 = durations@;
            proof {
                assert forall|a: int, b: int| 0 <= a < b < d1.len() implies (#[trigger] d1[a]).0@
                    != (#[trigger] d1[b]).0@ by {
                    assert(d0[a].0@ != d0[b].0@);
                }
                lemma_duration_at(d1, i as int);
                assert forall|other: Seq<char>| other != name@ implies duration_of(d1, other)
                    == duration_of(d0, other) by {
                    if exists|k: int| 0 <= k < d0.len() && (#[trigger] d0[k]).0@ == other {
                        let k = choose|k: int| 0 <= k < d0.len() && (#[trigger] d0[k]).0@ == other;
                        lemma_duration_at(d0, k);
                        lemma_duration_at(d1, k);
                    } else {
                        assert forall|k: int| 0 <= k < d1.len() implies (#[trigger] d1[k]).0@
                            != other by {
                            if k != i {
                                assert(d1[k] == d0[k]);
                            }
                        }
                    }
                }
            }
            return;
        }
        i = i + 1;
    }
    durations.push((to_owned_string(name), ms));
    let ghost d1 = durations@;
    proof {
        assert forall|a: int, b: int| 0 <= a < b < d1.len() implies (#[trigger] d1[a]).0@ != (
        #[trigger] d1[b]).0@ by {
            if b < n {
                assert(d0[a].0@ != d0[b].0@);
            }
        }
        lemma_duration_at(d1, n as int);
        assert(!(exists|k: int| 0 <= k < d0.len() && (#[trigger] d0[k]).0@ == name@));
        assert forall|other: Seq<char>| other != name@ implies duration_of(d1, other)
            == duration_of(d0, other) by {
            if exists|k: int| 0 <= k < d0.len() && (#[trigger] d0[k]).0@ == other {
                let k = choose|k: int| 0 <= k < d0.len() && (#[trigger] d0[k]).0@ == other;
                lemma_duration_at(d0, k);
                lemma_duration_at(d1, k);
            } else {
                assert forall|k: int| 0 <= k < d1.len() implies (#[trigger] d1[k]).0@ != other by {
                    if k < n {
                        assert(d1[k] == d0[k]);
                    }
                }
            }
        }
    }
}

/// The report of a slow cycle: `None` for a cycle of at most `SLOW_CYCLE_MS`;
/// otherwise the sources that took more than `SLOW_SOURCE_MS`, in order
/// (possibly none).
pub fn slow_sources(durations: &Vec<(String, u64)>, cycle_ms: u64) -> (r: Option<
    Vec<(String, u64)>,
>)
    ensures
        r is None <==> cycle_ms <= SLOW_CYCLE_MS,
        r matches Some(l) ==> slow_entries(durations@, l@),
{
    if cycle_ms <= SLOW_CYCLE_MS {
        return None;
    }
    let mut slow: Vec<(String, u64)> = Vec::new();
    let n: usize = durations.len();
    let mut i: usize = 0;
    assert(durations@.take(0) =~= Seq::<(String, u64)>::empty());
    while i < n
        invariant
            0 <= i <= n,
            n == durations@.len(),
            slow_entries(durations@.take(i as int), slow@),
        decreases n - i,
    {
        assert(durations@.take(i + 1).drop_last() =~= durations@.take(i as int));
        assert(durations@.take(i + 1).last() == durations@[i as int]);
        let ms: u64 = durations[i].1;
        if ms > SLOW_SOURCE_MS {
            let ghost before = slow@;
            slow.push((to_owned_string(durations[i].0.as_str()), ms));
            assert(slow@.drop_last() =~= before);
        }
        i = i + 1;
    }
    assert(durations@.take(n as int) =~= durations@);
    Some(slow)
}

/// A copy of a list of source times.
fn copy_durations(d: &Vec<(String, u64)>) -> (r: Vec<(String, u64)>)
    ensures
        same_durations(r@, d@),
{
    let mut r: Vec<(String, u64)> = Vec::new();
    let n: usize = d.len();
    let mut i: usize = 0;
    while i < n
        invariant
            0 <= i <= n,
            n == d@.len(),
            r@.len() == i,
            forall|k: int| 0 <= k < i ==> (#[trigger] r@[k]).0@ == d@[k].0@ && r@[k].1 == d@[k].1,
        decreases n - i,
    {
        r.push((to_owned_string(d[i].0.as_str()), d[i].1));
        i = i + 1;
    }
    r
}

impl PollStats {
    /// The statistics after a cycle of `cycle_ms` whose sources took `durations`.
    pub fn record_cycle(&mut self, cycle_ms: u64, durations: &Vec<(String, u64)>)
        requires
            distinct_names(durations@),
        ensures
            final(self).cycle_duration_ms == cycle_ms,
            same_durations(final(self).source_durations@, durations@),
            distinct_names(final(self).source_durations@),
    {
        self.cycle_duration_ms = cycle_ms;
        self.source_durations = copy_durations(durations);
        let ghost d = self.source_durations@;
        assert forall|i: int, j: int| 0 <= i < j < d.len() implies (#[trigger] d[i]).0@ != (
        #[trigger] d[j]).0@ by {
            assert(durations@[i].0@ != durations@[j].0@);
        }
    }
}

/// The sensor poller's settings, with the handles through which it publishes
/// readings (`state`) and statistics (`poll_stats`).
pub struct Poller<S, P> {
    state: S,
    poll_stats: P,
    interval_ms: u64,
    no_nvidia: bool,
    direct_io: bool,
    label_overrides: HashMap<String, String>,
}

impl<S, P> Poller<S, P> {
    pub closed spec fn spec_state(&self) -> S {
        self.state
    }

    pub closed spec fn spec_poll_stats(&self) -> P {
        self.poll_stats
    }

    pub closed spec fn spec_interval_ms(&self) -> u64 {
        self.interval_ms
    }

    pub closed spec fn spec_no_nvidia(&self) -> bool {
        self.no_nvidia
    }

    pub closed spec fn spec_direct_io(&self) -> bool {
        self.direct_io
    }

    pub closed spec fn spec_label_overrides(&self) -> HashMap<String, String> {
        self.label_overrides
    }

    pub fn new(
        state: S,
        poll_stats: P,
        interval_ms: u64,
        no_nvidia: bool,
        direct_io: bool,
        label_overrides: HashMap<String, String>,
    ) -> (r: Self)
        ensures
            r.spec_state() == state,
            r.spec_poll_stats() == poll_stats,
            r.spec_interval_ms() == interval_ms,
            r.spec_no_nvidia() == no_nvidia,
            r.spec_direct_io() == direct_io,
            r.spec_label_overrides() == label_overrides,
    {
        Poller { state, poll_stats, interval_ms, no_nvidia, direct_io, label_overrides }
    }

    /// The pause between cycles, in ms.
    pub fn interval_ms(&self) -> (r: u64)
        ensures
            r == self.spec_interval_ms(),
    {
        self.interval_ms
    }

    /// Whether NVIDIA GPUs are left out.
    pub fn no_nvidia(&self) -> (r: bool)
        ensures
            r == self.spec_no_nvidia(),
    {
        self.no_nvidia
    }

    /// Whether direct hardware access (Super I/O, I2C) is enabled.
    pub fn direct_io(&self) -> (r: bool)
        ensures
            r == self.spec_direct_io(),
    {
        self.direct_io
    }

    /// The user's names for sensors.
    pub fn label_overrides(&self) -> (r: &HashMap<String, String>)
        ensures
            *r == self.spec_label_overrides(),
    {
        &self.label_overrides
    }

    /// The handle through which readings are published.
    pub fn state(&self) -> (r: &S)
        ensures
            *r == self.spec_state(),
    {
        &self.state
    }

    /// The handle through which statistics are published.
    pub fn poll_stats(&self) -> (r: &P)
        ensures
            *r == self.spec_poll_stats(),
    {
        &self.poll_stats
    }
}

/// A kind of sensor source; a Super I/O source carries the position of its
/// chip in the list of detected chips.
#[derive(Debug, Clone, Copy, PartialEq, Eq)]
pub enum SourceKind {
    Hwmon,
    CpuFreq,
    CpuUtil,
    Gpu,
    Rapl,
    DiskActivity,
    NetworkStats,
    Nct67xx(usize),
    Ite87xx(usize),
    Spd5118,
    Pmbus,
    Hsmp,
    Ipmi,
}

/// What the probes found of a detected Super I/O chip: whether the Nuvoton
/// NCT67xx driver supports it, and whether the ITE IT87xx driver does (the
/// latter is only asked where the former does not).
#[derive(Debug, Clone, Copy, PartialEq, Eq)]
pub struct ChipSupport {
    pub nct67xx: bool,
    pub ite87xx: bool,
}

/// The sources to run, in order, and how many Super I/O chips of each kind
/// were taken.
#[derive(Debug)]
pub struct SourcePlan {
    pub sources: Vec<SourceKind>,
    pub nct_count: usize,
    pub ite_count: usize,
}

/// The Super I/O sources for the detected chips: each chip goes to the
/// NCT67xx driver if supported, else to the IT87xx driver if supported.
pub open spec fn chip_sources(chips: Seq<ChipSupport>) -> Seq<SourceKind>
    decreases chips.len(),
{
    if chips.len() == 0 {
        Seq::empty()
    } else {
        let i = (chips.len() - 1) as usize;
        let c = chips.last();
        chip_sources(chips.drop_last()) + if c.nct67xx {
            seq![SourceKind::Nct67xx(i)]
        } else if c.ite87xx {
            seq![SourceKind::Ite87xx(i)]
        } else {
            Seq::empty()
        }
    }
}

/// How many chips go to the NCT67xx driver.
pub open spec fn nct_chips(chips: Seq<ChipSupport>) -> nat
    decreases chips.len(),
{
    if chips.len() == 0 {
        0
    } else {
        nct_chips(chips.drop_last()) + if chips.last().nct67xx {
            1nat
        } else {
            0nat
        }
    }
}

/// How many chips go to the IT87xx driver.
pub open spec fn ite_chips(chips: Seq<ChipSupport>) -> nat
    decreases chips.len(),
{
    if chips.len() == 0 {
        0
    } else {
        ite_chips(chips.drop_last()) + if !chips.last().nct67xx && chips.last().ite87xx {
            1nat
        } else {
            0nat
        }
    }
}

/// The sources in the order they are run: the always-present ones, then
/// (with direct I/O) the Super I/O and I2C ones, then HSMP and IPMI.
pub open spec fn planned_sources(direct_io: bool, chips: Seq<ChipSupport>) -> Seq<SourceKind> {
    seq![
        SourceKind::Hwmon,
        SourceKind::CpuFreq,
        SourceKind::CpuUtil,
        SourceKind::Gpu,
        SourceKind::Rapl,
        SourceKind::DiskActivity,
        SourceKind::NetworkStats,
    ] + (if direct_io {
        chip_sources(chips) + seq![SourceKind::Spd5118, SourceKind::Pmbus]
    } else {
        Seq::empty()
    }) + seq![SourceKind::Hsmp, SourceKind::Ipmi]
}

proof fn lemma_chip_sources_shape(chips: Seq<ChipSupport>)
    ensures
        chip_sources(chips).len() == nct_chips(chips) + ite_chips(chips),
        forall|k: int|
            0 <= k < chip_sources(chips).len() ==> (#[trigger] chip_sources(chips)[k]) is Nct67xx
                || chip_sources(chips)[k] is Ite87xx,
    decreases chips.len(),
{
    if chips.len() > 0 {
        lemma_chip_sources_shape(chips.drop_last());
    }
}

/// The shape of the plan, whatever chips were detected: the seven sources
/// that always run come first and HSMP and IPMI last; with direct I/O the
/// SPD5118 and PMBus sources always run (just before HSMP) and each
/// supported Super I/O chip adds one source, so that the plan has
/// `11 + nct + ite` sources, 11 where no chip was found; without direct I/O
/// the plan has exactly 9 sources and neither the I2C nor any Super I/O one.
pub proof fn law_source_plan_shape(direct_io: bool, chips: Seq<ChipSupport>)
    ensures
        planned_sources(direct_io, chips).len() == if direct_io {
            11 + nct_chips(chips) + ite_chips(chips)
        } else {
            9
        },
        chips.len() == 0 ==> planned_sources(direct_io, chips).len() == if direct_io {
            11int
        } else {
            9int
        },
        planned_sources(direct_io, chips).subrange(0, 7) == seq![
            SourceKind::Hwmon,
            SourceKind::CpuFreq,
            SourceKind::CpuUtil,
            SourceKind::Gpu,
            SourceKind::Rapl,
            SourceKind::DiskActivity,
            SourceKind::NetworkStats,
        ],
        planned_sources(direct_io, chips).last() == SourceKind::Ipmi,
        planned_sources(direct_io, chips)[planned_sources(direct_io, chips).len() - 2]
            == SourceKind::Hsmp,
        direct_io ==> planned_sources(direct_io, chips)[planned_sources(direct_io, chips).len() - 4]
            == SourceKind::Spd5118,
        direct_io ==> planned_sources(direct_io, chips)[planned_sources(direct_io, chips).len() - 3]
            == SourceKind::Pmbus,
        planned_sources(direct_io, chips).contains(SourceKind::Spd5118) == direct_io,
        planned_sources(direct_io, chips).contains(SourceKind::Pmbus) == direct_io,
        !direct_io ==> forall|k: int|
            0 <= k < planned_sources(direct_io, chips).len() ==> !(
            #[trigger] planned_sources(direct_io, chips)[k] is Nct67xx) && !(planned_sources(
                direct_io,
                chips,
            )[k] is Ite87xx),
{
    let p = planned_sources(direct_io, chips);
    let cs = chip_sources(chips);
    lemma_chip_sources_shape(chips);
    let base = seq![
        SourceKind::Hwmon,
        SourceKind::CpuFreq,
        SourceKind::CpuUtil,
        SourceKind::Gpu,
        SourceKind::Rapl,
        SourceKind::DiskActivity,
        SourceKind::NetworkStats,
    ];
    assert(p.subrange(0, 7) =~= base);
    if direct_io {
        let n = cs.len() as int;
        assert(p[7 + n] == SourceKind::Spd5118);
        assert(p[8 + n] == SourceKind::Pmbus);
        assert(p.contains(SourceKind::Spd5118));
        assert(p.contains(SourceKind::Pmbus));
    } else {
        let q = seq![
            SourceKind::Hwmon,
            SourceKind::CpuFreq,
            SourceKind::CpuUtil,
            SourceKind::Gpu,
            SourceKind::Rapl,
            SourceKind::DiskActivity,
            SourceKind::NetworkStats,
            SourceKind::Hsmp,
            SourceKind::Ipmi,
        ];
        assert(p =~= q);
        assert(!p.contains(SourceKind::Spd5118)) by {
            if p.contains(SourceKind::Spd5118) {
                let k = choose|k: int| 0 <= k < p.len() && p[k] == SourceKind::Spd5118;
                assert(q[k] == SourceKind::Spd5118);
            }
        }
        assert(!p.contains(SourceKind::Pmbus)) by {
            if p.contains(SourceKind::Pmbus) {
                let k = choose|k: int| 0 <= k < p.len() && p[k] == SourceKind::Pmbus;
                assert(q[k] == SourceKind::Pmbus);
            }
        }
    }
}

/// Which sensor sources to run, given whether direct I/O is enabled and what
/// the probes found of the detected Super I/O chips.
pub fn discover_all_sources(direct_io: bool, chips: &Vec<ChipSupport>) -> (r: SourcePlan)
    ensures
        r.sources@ == planned_sources(direct_io, chips@),
        r.nct_count == if direct_io { nct_chips(chips@) } else { 0 },
        r.ite_count == if direct_io { ite_chips(chips@) } else { 0 },
        r.sources@.len() == if direct_io { 11 + r.nct_count + r.ite_count } else { 9 },
        r.sources@.contains(SourceKind::Spd5118) == direct_io,
        r.sources@.contains(SourceKind::Pmbus) == direct_io,
        r.sources@.contains(SourceKind::Hsmp) && r.sources@.contains(SourceKind::Ipmi),
{
    let mut sources: Vec<SourceKind> = Vec::new();
    sources.push(SourceKind::Hwmon);
    sources.push(SourceKind::CpuFreq);
    sources.push(SourceKind::CpuUtil);
    sources.push(SourceKind::Gpu);
    sources.push(SourceKind::Rapl);
    sources.push(SourceKind::DiskActivity);
    sources.push(SourceKind::NetworkStats);
    let ghost base = sources@;
    let mut nct_count: usize = 0;
    let mut ite_count: usize = 0;
    if direct_io {
        let n: usize = chips.len();
        let mut i: usize = 0;
        assert(chips@.take(0) =~= Seq::<ChipSupport>::empty());
        assert(sources@ =~= base + chip_sources(chips@.take(0)));
        while i < n
            invariant
                0 <= i <= n,
                n == chips@.len(),
                sources@ == base + chip_sources(chips@.take(i as int)),
                nct_count == nct_chips(chips@.take(i as int)),
                ite_count == ite_chips(chips@.take(i as int)),
                nct_count + ite_count <= i,
            decreases n - i,
        {
            let ghost t = chips@.take(i + 1);
            assert(t.drop_last() =~= chips@.take(i as int));
            assert(t.last() == chips@[i as int]);
            let c = chips[i];
            if c.nct67xx {
                nct_count = nct_count + 1;
                sources.push(SourceKind::Nct67xx(i));
            } else if c.ite87xx {
                ite_count = ite_count + 1;
                sources.push(SourceKind::Ite87xx(i));
            }
            assert(sources@ =~= base + chip_sources(t));
            i = i + 1;
        }
        assert(chips@.take(n as int) =~= chips@);
        sources.push(SourceKind::Spd5118);
        sources.push(SourceKind::Pmbus);
    }
    sources.push(SourceKind::Hsmp);
    sources.push(SourceKind::Ipmi);
    assert(sources@ =~= planned_sources(direct_io, chips@));
    proof {
        law_source_plan_shape(direct_io, chips@);
        let m = sources@.len() as int;
        assert(sources@[m - 1] == SourceKind::Ipmi);
        assert(sources@[m - 2] == SourceKind::Hsmp);
    }
    SourcePlan { sources, nct_count, ite_count }
}

} // verus!
