//! The correlation store: per-device histories, recent per-process samples,
//! and the latest snapshots of the periodic queries, joined on demand.
use vstd::prelude::*;
use crate::history::{pushed, GpuHistory, TimestampedSample};
use crate::keyed::KeyedVec;
use crate::parser::{
    views, ComputeApp, ComputeAppView, GpuInfo, GpuInfoView, GpuSample, ProcessSample,
    ProcessSampleView, ProcessSystemInfo, ProcessSystemInfoView,
};
use crate::text::{chars_of, pieces, split_char, split_spans, string_of_span};
use crate::topology::{GpuTopology, TopologyView};

verus! {

/// How long a process sample stays without a refresh, in milliseconds.
pub const STALE_AFTER_MS: u64 = 5000;

/// The key of a (device index, pid) pair; ordering the keys orders the pairs
/// by device, then by pid.
pub open spec fn proc_key(gpu: u32, pid: u32) -> u64 {
    (gpu as int * 0x1_0000_0000 + pid as int) as u64
}

pub proof fn lemma_proc_key(g1: u32, p1: u32, g2: u32, p2: u32)
    ensures
        proc_key(g1, p1) == proc_key(g2, p2) <==> g1 == g2 && p1 == p2,
        proc_key(g1, p1) < proc_key(g2, p2) <==> g1 < g2 || (g1 == g2 && p1 < p2),
{
    let a = g1 as int * 0x1_0000_0000 + p1 as int;
    let b = g2 as int * 0x1_0000_0000 + p2 as int;
    assert(0 <= a < 0x1_0000_0000_0000_0000 && 0 <= b < 0x1_0000_0000_0000_0000) by (nonlinear_arith)
        requires
            a == g1 as int * 0x1_0000_0000 + p1 as int,
            b == g2 as int * 0x1_0000_0000 + p2 as int,
            0 <= g1 < 0x1_0000_0000,
            0 <= g2 < 0x1_0000_0000,
            0 <= p1 < 0x1_0000_0000,
            0 <= p2 < 0x1_0000_0000,
    ;
    assert(a < b <==> g1 < g2 || (g1 == g2 && p1 < p2)) by (nonlinear_arith)
        requires
            a == g1 as int * 0x1_0000_0000 + p1 as int,
            b == g2 as int * 0x1_0000_0000 + p2 as int,
            0 <= p1 < 0x1_0000_0000,
            0 <= p2 < 0x1_0000_0000,
    ;
    assert(a == b <==> g1 == g2 && p1 == p2) by (nonlinear_arith)
        requires
            a == g1 as int * 0x1_0000_0000 + p1 as int,
            b == g2 as int * 0x1_0000_0000 + p2 as int,
            0 <= p1 < 0x1_0000_0000,
            0 <= p2 < 0x1_0000_0000,
    ;
}

fn proc_key_of(gpu: u32, pid: u32) -> (r: u64)
    ensures
        r == proc_key(gpu, pid),
{
    assert((gpu as u64) * 0x1_0000_0000 + (pid as u64) <= u64::MAX) by (nonlinear_arith)
        requires
            gpu <= u32::MAX,
            pid <= u32::MAX,
    ;
    (gpu as u64) * 0x1_0000_0000 + (pid as u64)
}

/// A process sample and the time it was last seen, in milliseconds.
#[derive(Debug, Clone)]
pub struct ProcessInfo {
    pub sample: ProcessSample,
    pub last_seen: u64,
}

pub struct ProcessInfoView {
    pub sample: ProcessSampleView,
    pub last_seen: u64,
}

impl View for ProcessInfo {
    type V = ProcessInfoView;

    open spec fn view(&self) -> ProcessInfoView {
        ProcessInfoView { sample: self.sample@, last_seen: self.last_seen }
    }
}

/// One process that holds device memory, with what the other sources know
/// of it. CPU use is in thousandths of a percent.
#[derive(Debug, Clone)]
pub struct EnrichedProcess {
    pub pid: u32,
    pub command: String,
    pub gpu_idx: u32,
    /// Whether the device UUID was found in the device-info snapshot; when it
    /// was not, `gpu_idx` is 0.
    pub gpu_resolved: bool,
    pub vram_mib: u64,
    pub sm_util: Option<u32>,
    /// CPU use, RSS and run time from the OS statistics; `None` when they
    /// have no row for the pid.
    pub cpu_milli_percent: Option<u64>,
    pub rss_mb: Option<u64>,
    pub elapsed: Option<String>,
}

pub struct EnrichedProcessView {
    pub pid: u32,
    pub command: Seq<char>,
    pub gpu_idx: u32,
    pub gpu_resolved: bool,
    pub vram_mib: u64,
    pub sm_util: Option<u32>,
    pub cpu_milli_percent: Option<u64>,
    pub rss_mb: Option<u64>,
    pub elapsed: Option<Seq<char>>,
}

impl View for EnrichedProcess {
    type V = EnrichedProcessView;

    open spec fn view(&self) -> EnrichedProcessView {
        EnrichedProcessView {
            pid: self.pid,
            command: self.command@,
            gpu_idx: self.gpu_idx,
            gpu_resolved: self.gpu_resolved,
            vram_mib: self.vram_mib,
            sm_util: self.sm_util,
            cpu_milli_percent: self.cpu_milli_percent,
            rss_mb: self.rss_mb,
            elapsed: match self.elapsed {
                Some(e) => Some(e@),
                None => None,
            },
        }
    }
}

/// What the store holds.
pub struct StoreView {
    /// Each device's history, oldest first.
    pub gpus: Map<u32, Seq<TimestampedSample>>,
    /// The capacity of every history.
    pub capacity: nat,
    pub total_samples: nat,
    pub start_time: u64,
    /// The latest process sample of each (device index, pid).
    pub processes: Map<(u32, u32), ProcessInfoView>,
    pub compute_apps: Seq<ComputeAppView>,
    /// OS statistics by pid.
    pub sys_info: Map<u32, ProcessSystemInfoView>,
    /// Device info by device index.
    pub gpu_info: Map<u32, GpuInfoView>,
    pub topology: Option<TopologyView>,
}

/// The store of everything the sources report; it has one writer.
pub struct DataStore {
    gpus: KeyedVec<GpuHistory>,
    max_samples: usize,
    total_samples: u64,
    start_time: u64,
    processes: KeyedVec<ProcessInfo>,
    compute_apps: Vec<ComputeApp>,
    process_sys_info: KeyedVec<ProcessSystemInfo>,
    gpu_info: KeyedVec<GpuInfo>,
    topology: Option<GpuTopology>,
}

/// The history of device `idx`, empty before its first sample.
pub open spec fn history_or_empty(m: Map<u32, Seq<TimestampedSample>>, idx: u32) -> Seq<
    TimestampedSample,
> {
    if m.contains_key(idx) {
        m[idx]
    } else {
        Seq::empty()
    }
}

pub open spec fn topology_view(t: Option<GpuTopology>) -> Option<TopologyView> {
    match t {
        Some(x) => Some(x@),
        None => None,
    }
}

/// The time a sample taken at `now` is stored under in history `h`: `now`,
/// or the newest entry's time if that is later, so that a history stays in
/// time order.
pub open spec fn stamp(h: Seq<TimestampedSample>, now: u64) -> u64 {
    if h.len() > 0 && h.last().timestamp > now {
        h.last().timestamp
    } else {
        now
    }
}

/// The store after a device sample taken at `now`.
pub open spec fn after_sample(v: StoreView, sample: GpuSample, now: u64) -> StoreView {
    StoreView {
        gpus: v.gpus.insert(
            sample.gpu_idx,
            pushed(
                history_or_empty(v.gpus, sample.gpu_idx),
                v.capacity,
                TimestampedSample {
                    sample,
                    timestamp: stamp(history_or_empty(v.gpus, sample.gpu_idx), now),
                },
            ),
        ),
        total_samples: if v.total_samples < u64::MAX {
            v.total_samples + 1
        } else {
            v.total_samples
        },
        ..v
    }
}

/// The store after a process sample seen at `now`.
pub open spec fn after_process_sample(v: StoreView, sample: ProcessSampleView, now: u64) -> StoreView {
    StoreView {
        processes: fresh_only(
            v.processes.insert((sample.gpu_idx, sample.pid), ProcessInfoView { sample, last_seen: now }),
            now,
        ),
        ..v
    }
}

impl View for DataStore {
    type V = StoreView;

    closed spec fn view(&self) -> StoreView {
        StoreView {
            gpus: Map::new(
                |k: u32| self.gpus.map().contains_key(k as u64),
                |k: u32| self.gpus.map()[k as u64]@,
            ),
            capacity: self.max_samples as nat,
            total_samples: self.total_samples as nat,
            start_time: self.start_time,
            processes: Map::new(
                |p: (u32, u32)| self.processes.map().contains_key(proc_key(p.0, p.1)),
                |p: (u32, u32)| self.processes.map()[proc_key(p.0, p.1)]@,
            ),
            compute_apps: views(self.compute_apps@),
            sys_info: Map::new(
                |k: u32| self.process_sys_info.map().contains_key(k as u64),
                |k: u32| self.process_sys_info.map()[k as u64]@,
            ),
            gpu_info: Map::new(
                |k: u32| self.gpu_info.map().contains_key(k as u64),
                |k: u32| self.gpu_info.map()[k as u64]@,
            ),
            topology: topology_view(self.topology),
        }
    }
}

impl DataStore {
    /// The store's internal invariant.
    pub closed spec fn wf(&self) -> bool {
        &&& self.gpus.wf()
        &&& forall|i: int|
            0 <= i < self.gpus.keys@.len() ==> #[trigger] self.gpus.keys@[i] <= u32::MAX
                && self.gpus.vals@[i].wf() && self.gpus.vals@[i].capacity() == self.max_samples
        &&& self.processes.wf()
        &&& forall|i: int|
            0 <= i < self.processes.keys@.len() ==> #[trigger] self.processes.keys@[i] == proc_key(
                self.processes.vals@[i].sample.gpu_idx,
                self.processes.vals@[i].sample.pid,
            )
        &&& self.process_sys_info.wf()
        &&& forall|i: int|
            0 <= i < self.process_sys_info.keys@.len() ==> #[trigger] self.process_sys_info.keys@[i]
                == self.process_sys_info.vals@[i].pid as u64
        &&& self.gpu_info.wf()
        &&& forall|i: int|
            0 <= i < self.gpu_info.keys@.len() ==> #[trigger] self.gpu_info.keys@[i]
                == self.gpu_info.vals@[i].index as u64
    }

    /// An empty store whose histories keep `history_seconds` samples, started
    /// at `now`.
    pub fn new(history_seconds: u64, now: u64) -> (r: Self)
        ensures
            r.wf(),
            r@.gpus == Map::<u32, Seq<TimestampedSample>>::empty(),
            r@.capacity == history_seconds as usize as nat,
            r@.total_samples == 0,
            r@.start_time == now,
            r@.processes == Map::<(u32, u32), ProcessInfoView>::empty(),
            r@.compute_apps == Seq::<ComputeAppView>::empty(),
            r@.sys_info == Map::<u32, ProcessSystemInfoView>::empty(),
            r@.gpu_info == Map::<u32, GpuInfoView>::empty(),
            r@.topology is None,
    {
        let r = DataStore {
            gpus: KeyedVec::new(),
            max_samples: history_seconds as usize,
            total_samples: 0,
            start_time: now,
            processes: KeyedVec::new(),
            compute_apps: Vec::new(),
            process_sys_info: KeyedVec::new(),
            gpu_info: KeyedVec::new(),
            topology: None,
        };
        assert(r@.gpus =~= Map::<u32, Seq<TimestampedSample>>::empty());
        assert(r@.processes =~= Map::<(u32, u32), ProcessInfoView>::empty());
        assert(r@.compute_apps =~= Seq::<ComputeAppView>::empty());
        assert(r@.sys_info =~= Map::<u32, ProcessSystemInfoView>::empty());
        assert(r@.gpu_info =~= Map::<u32, GpuInfoView>::empty());
        r
    }

    /// Stores a device sample taken at `now` in that device's history,
    /// creating the history on the device's first sample, and counts it (the
    /// count stops at `u64::MAX`).
    pub fn add_sample(&mut self, sample: GpuSample, now: u64)
        requires
            old(self).wf(),
        ensures
            final(self).wf(),
            final(self)@ == after_sample(old(self)@, sample, now),
    {
        let ghost v0 = self@;
        let ghost m0 = self.gpus.map();
        let key: u64 = sample.gpu_idx as u64;
        let (found, p) = self.gpus.find(key);
        let ghost newh: GpuHistory;
        if found {
            proof {
                self.gpus.lemma_entry(p as int);
            }
            let ts: u64 = match self.gpus.vals[p].last_timestamp() {
                Some(last) => if last > now {
                    last
                } else {
                    now
                },
                None => now,
            };
            assert(ts == stamp(history_or_empty(v0.gpus, sample.gpu_idx), now));
            let mut h = GpuHistory::new(0);
            self.gpus.swap_at(p, &mut h);
            h.push(sample, ts);
            self.gpus.swap_at(p, &mut h);
            proof {
                newh = self.gpus.vals@[p as int];
                assert(self.gpus.map() =~= m0.insert(key, newh));
            }
        } else {
            let mut h = GpuHistory::new(self.max_samples);
            h.push(sample, now);
            proof {
                newh = h;
            }
            self.gpus.upsert(key, h);
        }
        if self.total_samples < u64::MAX {
            self.total_samples = self.total_samples + 1;
        }
        proof {
            assert(self.gpus.map() == m0.insert(key, newh));
            self.gpus.lemma_entries();
            let ks = self.gpus.keys@;
            assert forall|i: int| 0 <= i < ks.len() implies #[trigger] ks[i] <= u32::MAX
                && self.gpus.vals@[i].wf() && self.gpus.vals@[i].capacity() == self.max_samples by {
                if ks[i] == key {
                    assert(self.gpus.map()[ks[i]] == newh);
                } else {
                    assert(m0.contains_key(ks[i]));
                    assert(old(self).gpus.keys@.contains(ks[i]));
                    let j = old(self).gpus.keys@.index_of(ks[i]);
                    old(self).gpus.lemma_entry(j);
                }
            }
            let ts0 = stamp(history_or_empty(v0.gpus, sample.gpu_idx), now);
            assert(newh@ == pushed(
                history_or_empty(v0.gpus, sample.gpu_idx),
                v0.capacity,
                TimestampedSample { sample, timestamp: ts0 },
            ));
            assert(self@.gpus =~= v0.gpus.insert(
                sample.gpu_idx,
                pushed(
                    history_or_empty(v0.gpus, sample.gpu_idx),
                    v0.capacity,
                    TimestampedSample { sample, timestamp: ts0 },
                ),
            ));
        }
    }

    /// The history of device `idx`.
    pub fn get_gpu(&self, idx: u32) -> (r: Option<&GpuHistory>)
        requires
            self.wf(),
        ensures
            match r {
                Some(h) => self@.gpus.contains_key(idx) && h@ == self@.gpus[idx] && h.wf()
                    && h.capacity() == self@.capacity,
                None => !self@.gpus.contains_key(idx),
            },
    {
        let (found, p) = self.gpus.find(idx as u64);
        if found {
            proof {
                self.gpus.lemma_entry(p as int);
            }
            Some(&self.gpus.vals[p])
        } else {
            None
        }
    }

    /// The indices of the devices that have a history, ascending.
    pub fn gpu_indices(&self) -> (r: Vec<u32>)
        requires
            self.wf(),
        ensures
            forall|i: int, j: int| 0 <= i < j < r@.len() ==> r@[i] < r@[j],
            forall|i: int| 0 <= i < r@.len() ==> self@.gpus.contains_key(#[trigger] r@[i]),
            forall|k: u32| self@.gpus.contains_key(k) ==> r@.contains(k),
            r@.len() == self@.gpus.dom().len(),
    {
        let mut r: Vec<u32> = Vec::new();
        let mut i: usize = 0;
        proof {
            self.gpus.lemma_entries();
        }
        while i < self.gpus.keys.len()
            invariant
                self.wf(),
                i <= self.gpus.keys@.len(),
                r@.len() == i,
                forall|t: int| 0 <= t < i ==> r@[t] as u64 == self.gpus.keys@[t],
            decreases self.gpus.keys@.len() - i,
        {
            assert(self.gpus.keys@[i as int] <= u32::MAX);
            r.push(self.gpus.keys[i] as u32);
            i += 1;
        }
        proof {
            assert forall|a: int, b: int| 0 <= a < b < r@.len() implies r@[a] < r@[b] by {
                assert(self.gpus.keys@[a] < self.gpus.keys@[b]);
            }
            assert forall|k: u32| self@.gpus.contains_key(k) implies r@.contains(k) by {
                let j = choose|j: int|
                    0 <= j < self.gpus.keys@.len() && #[trigger] self.gpus.keys@[j] == k as u64;
                assert(r@[j] == k);
            }
            assert forall|t: int| 0 <= t < r@.len() implies self@.gpus.contains_key(
                #[trigger] r@[t],
            ) by {
                assert(self.gpus.map().contains_key(self.gpus.keys@[t]));
            }
            assert(r@.to_set() =~= self@.gpus.dom());
            assert(r@.no_duplicates());
            r@.unique_seq_to_set();
        }
        r
    }

    pub fn total_samples(&self) -> (r: u64)
        ensures
            r == self@.total_samples,
    {
        self.total_samples
    }

    /// Milliseconds since the store was started, at `now`.
    pub fn uptime(&self, now: u64) -> (r: u64)
        ensures
            r == (if now >= self@.start_time {
                now - self@.start_time
            } else {
                0
            }),
    {
        if now >= self.start_time {
            now - self.start_time
        } else {
            0
        }
    }

    /// Replaces the VRAM-allocation rows with `apps`.
    pub fn update_compute_apps(&mut self, apps: Vec<ComputeApp>)
        requires
            old(self).wf(),
        ensures
            final(self).wf(),
            final(self)@ == (StoreView { compute_apps: views(apps@), ..old(self)@ }),
    {
        self.compute_apps = apps;
        proof {
            assert(self@.gpus =~= old(self)@.gpus);
            assert(self@.processes =~= old(self)@.processes);
            assert(self@.sys_info =~= old(self)@.sys_info);
            assert(self@.gpu_info =~= old(self)@.gpu_info);
        }
    }

    pub fn set_topology(&mut self, topology: GpuTopology)
        requires
            old(self).wf(),
        ensures
            final(self).wf(),
            final(self)@ == (StoreView { topology: Some(topology@), ..old(self)@ }),
    {
        self.topology = Some(topology);
        proof {
            assert(self@.gpus =~= old(self)@.gpus);
            assert(self@.processes =~= old(self)@.processes);
            assert(self@.sys_info =~= old(self)@.sys_info);
            assert(self@.gpu_info =~= old(self)@.gpu_info);
        }
    }

    pub fn get_topology(&self) -> (r: Option<&GpuTopology>)
        ensures
            match r {
                Some(t) => self@.topology == Some(t@),
                None => self@.topology is None,
            },
    {
        match &self.topology {
            Some(t) => Some(t),
            None => None,
        }
    }

    /// The device info of device `idx`.
    pub fn get_gpu_info(&self, idx: u32) -> (r: Option<&GpuInfo>)
        requires
            self.wf(),
        ensures
            match r {
                Some(g) => self@.gpu_info.contains_key(idx) && g@ == self@.gpu_info[idx],
                None => !self@.gpu_info.contains_key(idx),
            },
    {
        self.gpu_info.get(idx as u64)
    }
}

/// A sample last seen at `t` is still fresh at `now`.
pub open spec fn is_fresh(t: u64, now: u64) -> bool {
    t as int + STALE_AFTER_MS as int > now as int
}

fn fresh_at(t: u64, now: u64) -> (r: bool)
    ensures
        r == is_fresh(t, now),
{
    now < STALE_AFTER_MS || t > now - STALE_AFTER_MS
}

/// `m` without the entries that are stale at `now`.
pub open spec fn fresh_only(m: Map<(u32, u32), ProcessInfoView>, now: u64) -> Map<
    (u32, u32),
    ProcessInfoView,
> {
    Map::new(|k: (u32, u32)| m.contains_key(k) && is_fresh(m[k].last_seen, now), |k: (u32, u32)| m[k])
}

/// The OS statistics that a batch describes, by pid; a later row of a pid
/// wins over an earlier one.
pub open spec fn sys_map_of(vs: Seq<ProcessSystemInfoView>) -> Map<u32, ProcessSystemInfoView>
    decreases vs.len(),
{
    if vs.len() == 0 {
        Map::empty()
    } else {
        sys_map_of(vs.drop_last()).insert(vs.last().pid, vs.last())
    }
}

/// `m` with each record of `vs` stored under its device index, in order.
pub open spec fn merged_info(m: Map<u32, GpuInfoView>, vs: Seq<GpuInfoView>) -> Map<u32, GpuInfoView>
    decreases vs.len(),
{
    if vs.len() == 0 {
        m
    } else {
        merged_info(m, vs.drop_last()).insert(vs.last().index, vs.last())
    }
}

/// Where the sweep has reached: the key at position `i`, or past every key.
spec fn sweep_bound(ks: Seq<u64>, i: int) -> int {
    if i < ks.len() {
        ks[i] as int
    } else {
        0x1_0000_0000_0000_0000
    }
}

impl DataStore {
    /// Stores a process sample seen at `now`, replacing the one of the same
    /// (device index, pid), then drops every sample that is stale at `now`.
    pub fn add_process_sample(&mut self, sample: ProcessSample, now: u64)
        requires
            old(self).wf(),
        ensures
            final(self).wf(),
            final(self)@ == after_process_sample(old(self)@, sample@, now),
            forall|k: (u32, u32)| #[trigger]
                final(self)@.processes.contains_key(k) ==> is_fresh(
                    final(self)@.processes[k].last_seen,
                    now,
                ),
    {
        let ghost v0 = self@;
        let ghost g = sample.gpu_idx;
        let ghost pid = sample.pid;
        let key = proc_key_of(sample.gpu_idx, sample.pid);
        let info = ProcessInfo { sample, last_seen: now };
        let ghost before = self.processes;
        self.processes.upsert(key, info);
        proof {
            crate::keyed::lemma_keys_follow_values(
                before,
                self.processes,
                key,
                info,
                |x: ProcessInfo| proc_key(x.sample.gpu_idx, x.sample.pid),
            );
        }
        let ghost m1 = self.processes.map();
        let mut i: usize = 0;
        while i < self.processes.keys.len()
            invariant
                self.gpus == old(self).gpus,
                self.max_samples == old(self).max_samples,
                self.total_samples == old(self).total_samples,
                self.start_time == old(self).start_time,
                self.compute_apps == old(self).compute_apps,
                self.process_sys_info == old(self).process_sys_info,
                self.gpu_info == old(self).gpu_info,
                self.topology == old(self).topology,
                self.processes.wf(),
                forall|t: int|
                    0 <= t < self.processes.keys@.len() ==> #[trigger] self.processes.keys@[t]
                        == proc_key(
                        self.processes.vals@[t].sample.gpu_idx,
                        self.processes.vals@[t].sample.pid,
                    ),
                i <= self.processes.keys@.len(),
                forall|k: u64|
                    #![trigger self.processes.map().contains_key(k)]
                    #![trigger m1.contains_key(k)]
                    self.processes.map().contains_key(k) <==> (m1.contains_key(k) && (k
                        < sweep_bound(self.processes.keys@, i as int) ==> is_fresh(
                        m1[k].last_seen,
                        now,
                    ))),
                forall|k: u64| #[trigger]
                    self.processes.map().contains_key(k) ==> self.processes.map()[k] == m1[k],
                forall|t: int| 0 <= t < i ==> is_fresh(#[trigger] self.processes.vals@[t].last_seen, now),
            decreases self.processes.keys@.len() - i,
        {
            let ghost ks = self.processes.keys@;
            let ghost m = self.processes.map();
            proof {
                self.processes.lemma_entries();
            }
            let last_seen = self.processes.vals[i].last_seen;
            if now < STALE_AFTER_MS || last_seen > now - STALE_AFTER_MS {
                i += 1;
                proof {
                    assert forall|k: u64|
                        #![trigger self.processes.map().contains_key(k)]
                        #![trigger m1.contains_key(k)]
                        self.processes.map().contains_key(k) <==> (m1.contains_key(k) && (k
                            < sweep_bound(ks, i as int) ==> is_fresh(m1[k].last_seen, now))) by {
                        if k as int > ks[i - 1] as int && (k as int) < sweep_bound(ks, i as int) {
                            if m.contains_key(k) {
                                let j = choose|j: int| 0 <= j < ks.len() && #[trigger] ks[j] == k;
                                if j < i - 1 {
                                    assert(ks[j] < ks[i - 1]);
                                } else if j > i - 1 {
                                    assert(ks[i as int] <= ks[j]);
                                }
                            }
                        }
                    }
                }
            } else {
                let ghost k0 = ks[i as int];
                assert(m[k0].last_seen == last_seen);
                self.processes.remove_at(i);
                proof {
                    let ks2 = self.processes.keys@;
                    assert forall|k: u64|
                        #![trigger self.processes.map().contains_key(k)]
                        #![trigger m1.contains_key(k)]
                        self.processes.map().contains_key(k) <==> (m1.contains_key(k) && (k
                            < sweep_bound(ks2, i as int) ==> is_fresh(m1[k].last_seen, now))) by {
                        if k as int > k0 as int && (k as int) < sweep_bound(ks2, i as int) {
                            if m.contains_key(k) {
                                let j = choose|j: int| 0 <= j < ks.len() && #[trigger] ks[j] == k;
                                if j < i {
                                    assert(ks[j] <= ks[i as int]);
                                } else if j > i + 1 {
                                    assert(ks[i + 1] < ks[j]);
                                } else if j == i + 1 {
                                    assert(ks2[i as int] == ks[j]);
                                }
                            }
                        }
                    }
                    assert forall|t: int| 0 <= t < i implies is_fresh(
                        #[trigger] self.processes.vals@[t].last_seen,
                        now,
                    ) by {
                    }
                }
            }
        }
        proof {
            self.processes.lemma_entries();
            let nv = ProcessInfoView { sample: info.sample@, last_seen: now };
            assert forall|p: (u32, u32)| #[trigger] self@.processes.contains_key(p) <==> fresh_only(
                v0.processes.insert((g, pid), nv),
                now,
            ).contains_key(p) by {
                lemma_proc_key(p.0, p.1, g, pid);
            }
            assert forall|p: (u32, u32)| #[trigger] self@.processes.contains_key(p) implies self@.processes[p]
                == fresh_only(v0.processes.insert((g, pid), nv), now)[p] by {
                lemma_proc_key(p.0, p.1, g, pid);
            }
            assert(self@.processes =~= fresh_only(v0.processes.insert((g, pid), nv), now));
            assert(self@.gpus =~= v0.gpus);
            assert(self@.sys_info =~= v0.sys_info);
            assert(self@.gpu_info =~= v0.gpu_info);
        }
    }
}

impl DataStore {
    /// The process samples that are fresh at `now`, ordered by device index,
    /// then pid.
    #[verifier::rlimit(30)]
    pub fn get_processes(&self, now: u64) -> (r: Vec<&ProcessInfo>)
        requires
            self.wf(),
        ensures
            forall|i: int|
                0 <= i < r@.len() ==> #[trigger] fresh_only(self@.processes, now).contains_key(
                    (r@[i].sample.gpu_idx, r@[i].sample.pid),
                ) && self@.processes[(r@[i].sample.gpu_idx, r@[i].sample.pid)] == r@[i]@,
            forall|p: (u32, u32)|
                #[trigger] fresh_only(self@.processes, now).contains_key(p) ==> exists|i: int|
                    0 <= i < r@.len() && r@[i].sample.gpu_idx == p.0 && r@[i].sample.pid == p.1,
            forall|i: int, j: int|
                0 <= i < j < r@.len() ==> r@[i].sample.gpu_idx < r@[j].sample.gpu_idx || (
                r@[i].sample.gpu_idx == r@[j].sample.gpu_idx && r@[i].sample.pid
                    < r@[j].sample.pid),
    {
        let mut r: Vec<&ProcessInfo> = Vec::new();
        let ghost mut idx: Seq<int> = Seq::empty();
        let mut i: usize = 0;
        proof {
            self.processes.lemma_entries();
        }
        while i < self.processes.vals.len()
            invariant
                self.wf(),
                i <= self.processes.vals@.len(),
                r@.len() == idx.len(),
                forall|t: int|
                    0 <= t < idx.len() ==> 0 <= #[trigger] idx[t] < i && *r@[t]
                        == self.processes.vals@[idx[t]] && is_fresh(
                        self.processes.vals@[idx[t]].last_seen,
                        now,
                    ),
                forall|a: int, b: int| 0 <= a < b < idx.len() ==> idx[a] < idx[b],
                forall|j: int|
                    0 <= j < i && is_fresh(#[trigger] self.processes.vals@[j].last_seen, now)
                        ==> exists|t: int| 0 <= t < idx.len() && idx[t] == j,
            decreases self.processes.vals@.len() - i,
        {
            if fresh_at(self.processes.vals[i].last_seen, now) {
                r.push(&self.processes.vals[i]);
                proof {
                    let old_idx = idx;
                    idx = idx.push(i as int);
                    assert forall|j: int|
                        0 <= j < i + 1 && is_fresh(
                            #[trigger] self.processes.vals@[j].last_seen,
                            now,
                        ) implies exists|t: int| 0 <= t < idx.len() && idx[t] == j by {
                        if j < i {
                            let t = choose|t: int| 0 <= t < old_idx.len() && old_idx[t] == j;
                            assert(idx[t] == j);
                        } else {
                            assert(idx[idx.len() - 1] == j);
                        }
                    }
                }
            }
            i += 1;
        }
        proof {
            let ks = self.processes.keys@;
            let vs = self.processes.vals@;
            assert forall|i: int| 0 <= i < r@.len() implies #[trigger] fresh_only(
                self@.processes,
                now,
            ).contains_key((r@[i].sample.gpu_idx, r@[i].sample.pid))
                && self@.processes[(r@[i].sample.gpu_idx, r@[i].sample.pid)] == r@[i]@ by {
                let j = idx[i];
                assert(ks[j] == proc_key(vs[j].sample.gpu_idx, vs[j].sample.pid));
            }
            assert forall|p: (u32, u32)| #[trigger] fresh_only(self@.processes, now).contains_key(
                p,
            ) implies exists|i: int|
                0 <= i < r@.len() && r@[i].sample.gpu_idx == p.0 && r@[i].sample.pid == p.1 by {
                let j = choose|j: int| 0 <= j < ks.len() && #[trigger] ks[j] == proc_key(p.0, p.1);
                assert(ks[j] == proc_key(vs[j].sample.gpu_idx, vs[j].sample.pid));
                lemma_proc_key(p.0, p.1, vs[j].sample.gpu_idx, vs[j].sample.pid);
                assert(self.processes.map()[ks[j]] == vs[j]);
                assert(is_fresh(vs[j].last_seen, now));
                let t = choose|t: int| 0 <= t < idx.len() && idx[t] == j;
                assert(r@[t].sample.gpu_idx == p.0 && r@[t].sample.pid == p.1);
            }
            assert forall|i: int, j: int| 0 <= i < j < r@.len() implies r@[i].sample.gpu_idx
                < r@[j].sample.gpu_idx || (r@[i].sample.gpu_idx == r@[j].sample.gpu_idx
                && r@[i].sample.pid < r@[j].sample.pid) by {
                let a = idx[i];
                let b = idx[j];
                assert(ks[a] < ks[b]);
                assert(ks[a] == proc_key(vs[a].sample.gpu_idx, vs[a].sample.pid));
                assert(ks[b] == proc_key(vs[b].sample.gpu_idx, vs[b].sample.pid));
                lemma_proc_key(
                    vs[a].sample.gpu_idx,
                    vs[a].sample.pid,
                    vs[b].sample.gpu_idx,
                    vs[b].sample.pid,
                );
            }
        }
        r
    }

    /// Replaces the OS statistics with the batch `infos`; pids that are not
    /// in the batch are gone.
    pub fn update_process_sys_info(&mut self, infos: Vec<ProcessSystemInfo>)
        requires
            old(self).wf(),
        ensures
            final(self).wf(),
            final(self)@ == (StoreView { sys_info: sys_map_of(views(infos@)), ..old(self)@ }),
    {
        let ghost v0 = self@;
        let ghost all = views(infos@);
        self.process_sys_info.clear();
        let n: usize = infos.len();
        let mut rest = infos;
        let mut j: usize = 0;
        assert(self@.sys_info =~= sys_map_of(all.take(0)));
        assert(rest@ =~= infos@.skip(0));
        while rest.len() > 0
            invariant
                self.gpus == old(self).gpus,
                self.max_samples == old(self).max_samples,
                self.total_samples == old(self).total_samples,
                self.start_time == old(self).start_time,
                self.compute_apps == old(self).compute_apps,
                self.processes == old(self).processes,
                self.gpu_info == old(self).gpu_info,
                self.topology == old(self).topology,
                self.process_sys_info.wf(),
                forall|t: int|
                    0 <= t < self.process_sys_info.keys@.len() ==> #[trigger] self.process_sys_info.keys@[t]
                        == self.process_sys_info.vals@[t].pid as u64,
                all == views(infos@),
                n == infos@.len(),
                j <= infos@.len(),
                rest@ == infos@.skip(j as int),
                self@.sys_info == sys_map_of(all.take(j as int)),
            decreases rest@.len(),
        {
            assert(j < infos@.len());
            let x = rest.remove(0);
            let ghost before = self.process_sys_info;
            let ghost vb = self@.sys_info;
            assert(x == infos@[j as int]);
            let ghost xv = x@;
            let key = x.pid as u64;
            self.process_sys_info.upsert(key, x);
            proof {
                crate::keyed::lemma_keys_follow_values(
                    before,
                    self.process_sys_info,
                    key,
                    x,
                    |y: ProcessSystemInfo| y.pid as u64,
                );
                assert(all.take(j + 1).drop_last() =~= all.take(j as int));
                assert(all.take(j + 1).last() == xv);
                assert(self@.sys_info =~= vb.insert(xv.pid, xv));
            }
            j += 1;
            assert(rest@ =~= infos@.skip(j as int));
        }
        proof {
            assert(all.take(j as int) =~= all);
            assert(self@.gpus =~= v0.gpus);
            assert(self@.processes =~= v0.processes);
            assert(self@.gpu_info =~= v0.gpu_info);
        }
    }

    /// Stores each record of `info` under its device index; other devices
    /// keep theirs.
    pub fn update_gpu_info(&mut self, info: Vec<GpuInfo>)
        requires
            old(self).wf(),
        ensures
            final(self).wf(),
            final(self)@ == (StoreView {
                gpu_info: merged_info(old(self)@.gpu_info, views(info@)),
                ..old(self)@
            }),
    {
        let ghost v0 = self@;
        let ghost all = views(info@);
        let n: usize = info.len();
        let mut rest = info;
        let mut j: usize = 0;
        assert(all.take(0) =~= Seq::<GpuInfoView>::empty());
        assert(rest@ =~= info@.skip(0));
        while rest.len() > 0
            invariant
                self.gpus == old(self).gpus,
                self.max_samples == old(self).max_samples,
                self.total_samples == old(self).total_samples,
                self.start_time == old(self).start_time,
                self.compute_apps == old(self).compute_apps,
                self.processes == old(self).processes,
                self.process_sys_info == old(self).process_sys_info,
                self.topology == old(self).topology,
                self.gpu_info.wf(),
                forall|t: int|
                    0 <= t < self.gpu_info.keys@.len() ==> #[trigger] self.gpu_info.keys@[t]
                        == self.gpu_info.vals@[t].index as u64,
                all == views(info@),
                n == info@.len(),
                j <= info@.len(),
                rest@ == info@.skip(j as int),
                self@.gpu_info == merged_info(v0.gpu_info, all.take(j as int)),
            decreases rest@.len(),
        {
            assert(j < info@.len());
            let x = rest.remove(0);
            let ghost before = self.gpu_info;
            let ghost vb = self@.gpu_info;
            assert(x == info@[j as int]);
            let ghost xv = x@;
            let key = x.index as u64;
            self.gpu_info.upsert(key, x);
            proof {
                crate::keyed::lemma_keys_follow_values(
                    before,
                    self.gpu_info,
                    key,
                    x,
                    |y: GpuInfo| y.index as u64,
                );
                assert(all.take(j + 1).drop_last() =~= all.take(j as int));
                assert(all.take(j + 1).last() == xv);
                assert(self@.gpu_info =~= vb.insert(xv.index, xv));
            }
            j += 1;
            assert(rest@ =~= info@.skip(j as int));
        }
        proof {
            assert(all.take(j as int) =~= all);
            assert(self@.gpus =~= v0.gpus);
            assert(self@.processes =~= v0.processes);
            assert(self@.sys_info =~= v0.sys_info);
        }
    }

    /// Every device's info, by ascending device index.
    pub fn all_gpu_info(&self) -> (r: Vec<&GpuInfo>)
        requires
            self.wf(),
        ensures
            forall|i: int|
                0 <= i < r@.len() ==> #[trigger] self@.gpu_info.contains_key(r@[i].index)
                    && self@.gpu_info[r@[i].index] == r@[i]@,
            forall|k: u32|
                #[trigger] self@.gpu_info.contains_key(k) ==> exists|i: int|
                    0 <= i < r@.len() && r@[i].index == k,
            forall|i: int, j: int| 0 <= i < j < r@.len() ==> r@[i].index < r@[j].index,
    {
        let mut r: Vec<&GpuInfo> = Vec::new();
        let mut i: usize = 0;
        proof {
            self.gpu_info.lemma_entries();
        }
        while i < self.gpu_info.vals.len()
            invariant
                self.wf(),
                i <= self.gpu_info.vals@.len(),
                r@.len() == i,
                forall|t: int| 0 <= t < i ==> *r@[t] == self.gpu_info.vals@[t],
            decreases self.gpu_info.vals@.len() - i,
        {
            r.push(&self.gpu_info.vals[i]);
            i += 1;
        }
        proof {
            let ks = self.gpu_info.keys@;
            let vs = self.gpu_info.vals@;
            assert forall|i: int| 0 <= i < r@.len() implies #[trigger] self@.gpu_info.contains_key(
                r@[i].index,
            ) && self@.gpu_info[r@[i].index] == r@[i]@ by {
                assert(ks[i] == vs[i].index as u64);
            }
            assert forall|k: u32| #[trigger] self@.gpu_info.contains_key(k) implies exists|i: int|
                0 <= i < r@.len() && r@[i].index == k by {
                let j = choose|j: int| 0 <= j < ks.len() && #[trigger] ks[j] == k as u64;
                assert(ks[j] == vs[j].index as u64);
                assert(r@[j].index == k);
            }
            assert forall|i: int, j: int| 0 <= i < j < r@.len() implies r@[i].index
                < r@[j].index by {
                assert(ks[i] < ks[j]);
                assert(ks[i] == vs[i].index as u64);
                assert(ks[j] == vs[j].index as u64);
            }
        }
        r
    }
}

/// Device `i`'s info carries `uuid`.
pub open spec fn uuid_owner(info: Map<u32, GpuInfoView>, uuid: Seq<char>, i: u32) -> bool {
    info.contains_key(i) && info[i].uuid == uuid
}

/// The smallest device index whose info carries `uuid`, if any does.
pub open spec fn device_of_uuid(info: Map<u32, GpuInfoView>, uuid: Seq<char>) -> Option<u32> {
    if exists|i: u32| uuid_owner(info, uuid, i) {
        Some(
            choose|i: u32|
                uuid_owner(info, uuid, i) && forall|j: u32| j < i ==> !uuid_owner(info, uuid, j),
        )
    } else {
        None
    }
}

/// What follows the last `/` of a path (all of it when there is none).
pub open spec fn base_name(s: Seq<char>) -> Seq<char> {
    split_char(s, '/').last()
}

/// The joined row of one VRAM-allocation row at time `now`: its device comes
/// from the UUID (device 0, marked unresolved, when no device info carries
/// it); SM use comes from the process sample of that device and pid while it
/// is fresh at `now`; CPU, memory and run time come from the OS statistics of
/// the pid. Each is `None` (unknown) when its source has no match.
#[verifier::opaque]
pub open spec fn enrich(v: StoreView, app: ComputeAppView, now: u64) -> EnrichedProcessView {
    let dev = device_of_uuid(v.gpu_info, app.gpu_uuid);
    let g: u32 = match dev {
        Some(i) => i,
        None => 0,
    };
    let si = v.sys_info;
    EnrichedProcessView {
        pid: app.pid,
        command: base_name(app.name),
        gpu_idx: g,
        gpu_resolved: dev is Some,
        vram_mib: app.vram_used_mib,
        sm_util: if v.processes.contains_key((g, app.pid)) && is_fresh(
            v.processes[(g, app.pid)].last_seen,
            now,
        ) {
            v.processes[(g, app.pid)].sample.sm_util
        } else {
            None
        },
        cpu_milli_percent: if si.contains_key(app.pid) {
            Some(si[app.pid].cpu_milli_percent)
        } else {
            None
        },
        rss_mb: if si.contains_key(app.pid) {
            Some((si[app.pid].rss_kb / 1024) as u64)
        } else {
            None
        },
        elapsed: if si.contains_key(app.pid) {
            Some(si[app.pid].elapsed)
        } else {
            None
        },
    }
}

/// The joined rows at time `now`, one per VRAM-allocation row, in the order
/// of those rows.
pub open spec fn enriched_rows(v: StoreView, now: u64) -> Seq<EnrichedProcessView> {
    Seq::new(v.compute_apps.len(), |i: int| enrich(v, v.compute_apps[i], now))
}

/// `a` comes before `b`: a lower device index, or the same device and more
/// VRAM.
pub open spec fn ranks_before(a: EnrichedProcessView, b: EnrichedProcessView) -> bool {
    a.gpu_idx < b.gpu_idx || (a.gpu_idx == b.gpu_idx && a.vram_mib > b.vram_mib)
}

pub open spec fn is_index_perm(perm: Seq<int>, n: nat) -> bool {
    &&& perm.len() == n
    &&& forall|k: int| 0 <= k < n ==> 0 <= #[trigger] perm[k] < n
    &&& forall|a: int, b: int| 0 <= a < b < n ==> perm[a] != perm[b]
}

/// `out` is `rows` rearranged by `perm` (`out[k]` is `rows[perm[k]]`), in
/// rank order, and in their input order among rows of equal rank.
pub open spec fn sorted_by_perm(
    rows: Seq<EnrichedProcessView>,
    out: Seq<EnrichedProcessView>,
    perm: Seq<int>,
) -> bool {
    &&& is_index_perm(perm, rows.len())
    &&& out.len() == rows.len()
    &&& forall|k: int| 0 <= k < out.len() ==> out[k] == rows[#[trigger] perm[k]]
    &&& forall|a: int, b: int|
        0 <= a < b < out.len() ==> ranks_before(out[a], out[b]) || (!ranks_before(out[b], out[a])
            && perm[a] < perm[b])
}

/// `out` is `rows` stably sorted by rank.
pub open spec fn is_stable_sort(rows: Seq<EnrichedProcessView>, out: Seq<EnrichedProcessView>) -> bool {
    exists|perm: Seq<int>| sorted_by_perm(rows, out, perm)
}

/// Inserting `e` before the first row that it ranks before keeps a stable
/// sort stable.
proof fn lemma_insert_sorted(
    rows: Seq<EnrichedProcessView>,
    out: Seq<EnrichedProcessView>,
    perm: Seq<int>,
    e: EnrichedProcessView,
    p: int,
)
    requires
        sorted_by_perm(rows, out, perm),
        0 <= p <= out.len(),
        forall|q: int| 0 <= q < p ==> !ranks_before(e, #[trigger] out[q]),
        p < out.len() ==> ranks_before(e, out[p]),
    ensures
        sorted_by_perm(rows.push(e), out.insert(p, e), perm.insert(p, rows.len() as int)),
{
    let n = rows.len() as int;
    let nr = rows.push(e);
    let nv = out.insert(p, e);
    let np = perm.insert(p, n);
    assert forall|k: int| 0 <= k < nv.len() implies nv[k] == nr[#[trigger] np[k]] by {
        if k < p {
            assert(nv[k] == out[k] && np[k] == perm[k]);
        } else if k > p {
            assert(nv[k] == out[k - 1] && np[k] == perm[k - 1]);
        }
    }
    assert forall|k: int| 0 <= k < n + 1 implies 0 <= #[trigger] np[k] < n + 1 by {
        if k < p {
            assert(np[k] == perm[k]);
        } else if k > p {
            assert(np[k] == perm[k - 1]);
        }
    }
    assert forall|a: int, b: int| 0 <= a < b < n + 1 implies np[a] != np[b] by {
        if a < p && b < p {
            assert(np[a] == perm[a] && np[b] == perm[b]);
        } else if a < p && b == p {
            assert(np[a] == perm[a]);
        } else if a < p {
            assert(np[a] == perm[a] && np[b] == perm[b - 1]);
        } else if a == p {
            assert(np[b] == perm[b - 1]);
        } else {
            assert(np[a] == perm[a - 1] && np[b] == perm[b - 1]);
        }
    }
    assert forall|a: int, b: int| 0 <= a < b < nv.len() implies ranks_before(nv[a], nv[b]) || (
    !ranks_before(nv[b], nv[a]) && np[a] < np[b]) by {
        if b < p {
            assert(nv[a] == out[a] && nv[b] == out[b]);
            assert(np[a] == perm[a] && np[b] == perm[b]);
        } else if b == p {
            assert(nv[a] == out[a]);
            assert(np[a] == perm[a]);
            assert(!ranks_before(e, out[a]));
        } else if a < p {
            assert(nv[a] == out[a] && nv[b] == out[b - 1]);
            assert(np[a] == perm[a] && np[b] == perm[b - 1]);
        } else if a == p {
            assert(nv[b] == out[b - 1]);
            if b - 1 > p {
                assert(ranks_before(out[p], out[b - 1]) || !ranks_before(out[b - 1], out[p]));
            }
        } else {
            assert(nv[a] == out[a - 1] && nv[b] == out[b - 1]);
            assert(np[a] == perm[a - 1] && np[b] == perm[b - 1]);
        }
    }
}

fn ranks_before_exec(a: &EnrichedProcess, b: &EnrichedProcess) -> (r: bool)
    ensures
        r == ranks_before(a@, b@),
{
    a.gpu_idx < b.gpu_idx || (a.gpu_idx == b.gpu_idx && a.vram_mib > b.vram_mib)
}

fn base_name_of(s: &String) -> (r: String)
    ensures
        r@ == base_name(s@),
{
    let t = s.as_str();
    let v = chars_of(t);
    let n: usize = v.len();
    let ps = split_spans(&v, 0, n, '/');
    assert(v@.subrange(0, n as int) =~= v@);
    let (a, b) = ps[ps.len() - 1];
    assert(pieces(v@, ps@)[ps@.len() - 1] == v@.subrange(a as int, b as int));
    string_of_span(t, a, b)
}

impl DataStore {
    /// The device whose info carries `uuid`, the smallest index first.
    fn find_device(&self, uuid: &String) -> (r: Option<u32>)
        requires
            self.wf(),
        ensures
            r == device_of_uuid(self@.gpu_info, uuid@),
    {
        let ghost info = self@.gpu_info;
        proof {
            self.gpu_info.lemma_entries();
        }
        let mut i: usize = 0;
        while i < self.gpu_info.vals.len()
            invariant
                self.wf(),
                info == self@.gpu_info,
                i <= self.gpu_info.vals@.len(),
                forall|t: int| 0 <= t < i ==> self.gpu_info.vals@[t].uuid@ != uuid@,
            decreases self.gpu_info.vals@.len() - i,
        {
            if self.gpu_info.vals[i].uuid == *uuid {
                let idx = self.gpu_info.vals[i].index;
                proof {
                    let ks = self.gpu_info.keys@;
                    let vs = self.gpu_info.vals@;
                    assert(ks[i as int] == idx as u64);
                    assert(uuid_owner(info, uuid@, idx));
                    assert forall|j: u32| j < idx implies !uuid_owner(info, uuid@, j) by {
                        if info.contains_key(j) {
                            let t = choose|t: int| 0 <= t < ks.len() && #[trigger] ks[t] == j as u64;
                            assert(ks[t] == vs[t].index as u64);
                            assert(ks[t] < ks[i as int]);
                            if t >= i {
                                assert(ks[i as int] <= ks[t]);
                            }
                        }
                    }
                    let c = choose|c: u32|
                        uuid_owner(info, uuid@, c) && forall|j: u32| j < c ==> !uuid_owner(info, uuid@, j);
                    assert(c == idx) by {
                        if c < idx {
                        } else if c > idx {
                            assert(!uuid_owner(info, uuid@, idx));
                        }
                    }
                }
                return Some(idx);
            }
            i += 1;
        }
        proof {
            assert forall|j: u32| !uuid_owner(info, uuid@, j) by {
                if info.contains_key(j) {
                    let ks = self.gpu_info.keys@;
                    let t = choose|t: int| 0 <= t < ks.len() && #[trigger] ks[t] == j as u64;
                }
            }
        }
        None
    }

    /// SM use of the process sample of (`gpu_idx`, `pid`) while it is fresh
    /// at `now`.
    fn fresh_sm_util(&self, gpu_idx: u32, pid: u32, now: u64) -> (r: Option<u32>)
        requires
            self.wf(),
        ensures
            r == (if self@.processes.contains_key((gpu_idx, pid)) && is_fresh(
                self@.processes[(gpu_idx, pid)].last_seen,
                now,
            ) {
                self@.processes[(gpu_idx, pid)].sample.sm_util
            } else {
                None
            }),
    {
        let pkey = proc_key_of(gpu_idx, pid);
        proof {
            self.processes.lemma_entries();
            if self.processes.map().contains_key(pkey) {
                let ks = self.processes.keys@;
                let vs = self.processes.vals@;
                let t = choose|t: int| 0 <= t < ks.len() && #[trigger] ks[t] == pkey;
                assert(ks[t] == proc_key(vs[t].sample.gpu_idx, vs[t].sample.pid));
                lemma_proc_key(gpu_idx, pid, vs[t].sample.gpu_idx, vs[t].sample.pid);
            }
            assert(self@.processes.contains_key((gpu_idx, pid)) == self.processes.map().contains_key(pkey));
        }
        match self.processes.get(pkey) {
            Some(p) => if fresh_at(p.last_seen, now) {
                p.sample.sm_util
            } else {
                None
            },
            None => None,
        }
    }

    /// The joined row of one VRAM-allocation row.
    fn enrich_one(&self, app: &ComputeApp, now: u64) -> (r: EnrichedProcess)
        requires
            self.wf(),
        ensures
            r@ == enrich(self@, app@, now),
    {
        reveal(enrich);
        let dev = self.find_device(&app.gpu_uuid);
        let gpu_idx: u32 = match dev {
            Some(i) => i,
            None => 0,
        };
        let sm_util = self.fresh_sm_util(gpu_idx, app.pid, now);
        let (cpu, rss, elapsed) = match self.process_sys_info.get(app.pid as u64) {
            Some(s) => (Some(s.cpu_milli_percent), Some(s.rss_kb / 1024), Some(s.elapsed.clone())),
            None => (None, None, None),
        };
        EnrichedProcess {
            pid: app.pid,
            command: base_name_of(&app.name),
            gpu_idx,
            gpu_resolved: dev.is_some(),
            vram_mib: app.vram_used_mib,
            sm_util,
            cpu_milli_percent: cpu,
            rss_mb: rss,
            elapsed,
        }
    }

    /// One joined row per VRAM-allocation row at time `now`, by ascending
    /// device index, then descending VRAM, rows of equal rank in the order
    /// they came in.
    pub fn get_enriched_processes(&self, now: u64) -> (r: Vec<EnrichedProcess>)
        requires
            self.wf(),
        ensures
            is_stable_sort(enriched_rows(self@, now), views(r@)),
    {
        let ghost rows = enriched_rows(self@, now);
        let mut joined: Vec<EnrichedProcess> = Vec::new();
        let mut i: usize = 0;
        while i < self.compute_apps.len()
            invariant
                self.wf(),
                rows == enriched_rows(self@, now),
                rows.len() == self.compute_apps@.len(),
                i <= self.compute_apps@.len(),
                views(joined@) == rows.take(i as int),
            decreases self.compute_apps@.len() - i,
        {
            let e = self.enrich_one(&self.compute_apps[i], now);
            let ghost prev = views(joined@);
            joined.push(e);
            assert(views(joined@) =~= prev.push(e@));
            assert(rows.take(i + 1) =~= rows.take(i as int).push(rows[i as int]));
            i += 1;
        }
        assert(rows.take(i as int) =~= rows);
        stable_sort_rows(joined)
    }
}

/// `rows` stably sorted by rank.
fn stable_sort_rows(rows: Vec<EnrichedProcess>) -> (r: Vec<EnrichedProcess>)
    ensures
        is_stable_sort(views(rows@), views(r@)),
{
    let ghost all = views(rows@);
    let n: usize = rows.len();
    let mut rest = rows;
    let mut out: Vec<EnrichedProcess> = Vec::new();
    let ghost mut perm: Seq<int> = Seq::empty();
    let mut i: usize = 0;
    assert(all.take(0) =~= Seq::<EnrichedProcessView>::empty());
    assert(views(out@) =~= Seq::<EnrichedProcessView>::empty());
    assert(rest@ =~= rows@.skip(0));
    while rest.len() > 0
        invariant
            all == views(rows@),
            n == rows@.len(),
            i <= n,
            rest@ == rows@.skip(i as int),
            sorted_by_perm(all.take(i as int), views(out@), perm),
        decreases rest@.len(),
    {
        assert(i < n);
        let e = rest.remove(0);
        assert(e == rows@[i as int]);
        let mut p: usize = 0;
        while p < out.len() && !ranks_before_exec(&e, &out[p])
            invariant
                p <= out@.len(),
                forall|q: int| 0 <= q < p ==> !ranks_before(e@, #[trigger] out@[q]@),
            decreases out@.len() - p,
        {
            p += 1;
        }
        let ghost old_out = views(out@);
        let ghost old_perm = perm;
        let ghost old_rows = all.take(i as int);
        proof {
            assert forall|q: int| 0 <= q < p implies !ranks_before(e@, #[trigger] old_out[q]) by {
                assert(old_out[q] == out@[q]@);
            }
            if p < out@.len() {
                assert(old_out[p as int] == out@[p as int]@);
            }
        }
        out.insert(p, e);
        proof {
            perm = old_perm.insert(p as int, i as int);
            assert(views(out@) =~= old_out.insert(p as int, e@));
            assert(all.take(i + 1) =~= old_rows.push(e@));
            lemma_insert_sorted(old_rows, old_out, old_perm, e@, p as int);
        }
        i += 1;
        assert(rest@ =~= rows@.skip(i as int));
    }
    assert(all.take(i as int) =~= all);
    assert(sorted_by_perm(all, views(out@), perm));
    out
}

/// Staleness: a process sample last seen at `t` and not refreshed since is
/// absent at any query time `now >= t + 5 s`: the process list leaves it out,
/// and no joined row takes its SM use.
pub proof fn lemma_stale_sample_absent(v: StoreView, key: (u32, u32), now: u64)
    requires
        v.processes.contains_key(key),
        now as int >= v.processes[key].last_seen as int + STALE_AFTER_MS as int,
    ensures
        !fresh_only(v.processes, now).contains_key(key),
        forall|app: ComputeAppView|
            (#[trigger] enrich(v, app, now)).gpu_idx == key.0 && app.pid == key.1 ==> enrich(
                v,
                app,
                now,
            ).sm_util is None,
{
    reveal(enrich);
}

/// The pids of a batch of OS statistics.
pub open spec fn batch_pids(vs: Seq<ProcessSystemInfoView>) -> Set<u32> {
    Set::new(|pid: u32| exists|i: int| 0 <= i < vs.len() && vs[i].pid == pid)
}

pub proof fn lemma_sys_map_domain(vs: Seq<ProcessSystemInfoView>)
    ensures
        sys_map_of(vs).dom() == batch_pids(vs),
    decreases vs.len(),
{
    if vs.len() > 0 {
        let prev = vs.drop_last();
        lemma_sys_map_domain(prev);
        assert forall|pid: u32| #[trigger] batch_pids(vs).contains(pid) <==> batch_pids(prev).contains(
            pid,
        ) || pid == vs.last().pid by {
            if batch_pids(vs).contains(pid) {
                let i = choose|i: int| 0 <= i < vs.len() && vs[i].pid == pid;
                if i < vs.len() - 1 {
                    assert(prev[i].pid == pid);
                }
            }
            if batch_pids(prev).contains(pid) {
                let i = choose|i: int| 0 <= i < prev.len() && prev[i].pid == pid;
                assert(vs[i].pid == pid);
            }
        }
        assert(sys_map_of(vs).dom() =~= batch_pids(vs));
    }
}

/// Replacement: after a batch of OS statistics `first` and then a batch
/// `second`, the store holds statistics for exactly the pids of `second`.
pub proof fn lemma_sys_info_replaced(
    s: StoreView,
    first: Seq<ProcessSystemInfoView>,
    second: Seq<ProcessSystemInfoView>,
)
    ensures
        (StoreView { sys_info: sys_map_of(second), ..(StoreView { sys_info: sys_map_of(first), ..s }) }).sys_info.dom()
            == batch_pids(second),
{
    lemma_sys_map_domain(second);
}

} // verus!
