//! Record parsers for the diagnostic tools' line formats. Each returns a
//! complete record or `None` ("not a data line"), never a partial record.
use vstd::prelude::*;
use crate::text::{
    lemma_first_token, trim_start, unsigned_body, chars_of, has_prefix, join_spaced, join_spans, line_spans, lines, parse_milli_in,
    parse_milli_spec, parse_u32_in, parse_u32_spec, parse_u64_in, parse_u64_spec, pieces,
    replace_all, replace_in, span_starts_with, spans_ok, split_char, split_spans, split_ws,
    string_of_span, token_spans, trim, trim_span,
};

verus! {

/// A metric field: absent for `-` or for nothing, else its number (absent
/// too when it is no number).
pub open spec fn optional_field(s: Seq<char>) -> Option<u32> {
    let t = trim(s);
    if t == seq!['-'] || t.len() == 0 {
        None
    } else {
        parse_u32_spec(t)
    }
}

/// A header or comment line: its first token begins with `#`.
pub open spec fn is_comment_token(t: Seq<char>) -> bool {
    t.len() > 0 && t[0] == '#'
}

pub fn optional_in(v: &Vec<char>, a: usize, b: usize) -> (r: Option<u32>)
    requires
        a <= b <= v@.len(),
    ensures
        r == optional_field(v@.subrange(a as int, b as int)),
{
    let (x, y) = trim_span(v, a, b);
    if x == y {
        return None;
    }
    if y - x == 1 && v[x] == '-' {
        assert(v@.subrange(x as int, y as int) =~= seq!['-']);
        return None;
    }
    assert(v@.subrange(x as int, y as int) != seq!['-']) by {
        if y - x == 1 {
            assert(v@.subrange(x as int, y as int)[0] == v@[x as int]);
        }
    }
    parse_u32_in(v, x, y)
}

/// One device's metrics from one line of the device monitor.
#[derive(Debug, Clone, Copy, Default, PartialEq, Eq)]
pub struct GpuSample {
    pub gpu_idx: u32,
    pub power_w: Option<u32>,
    pub gpu_temp_c: Option<u32>,
    pub mem_temp_c: Option<u32>,
    pub sm_util: Option<u32>,
    pub mem_util: Option<u32>,
    pub enc_util: Option<u32>,
    pub dec_util: Option<u32>,
    pub jpg_util: Option<u32>,
    pub ofa_util: Option<u32>,
    pub mem_clock_mhz: Option<u32>,
    pub gpu_clock_mhz: Option<u32>,
}

/// The record that a device-monitor line holds: at least twelve tokens, the
/// first a device index, the next eleven metric fields in order.
pub open spec fn device_sample_of(line: Seq<char>) -> Option<GpuSample> {
    let t = split_ws(line);
    if t.len() < 12 || is_comment_token(t[0]) {
        None
    } else {
        match parse_u32_spec(t[0]) {
            None => None,
            Some(idx) => Some(
                GpuSample {
                    gpu_idx: idx,
                    power_w: optional_field(t[1]),
                    gpu_temp_c: optional_field(t[2]),
                    mem_temp_c: optional_field(t[3]),
                    sm_util: optional_field(t[4]),
                    mem_util: optional_field(t[5]),
                    enc_util: optional_field(t[6]),
                    dec_util: optional_field(t[7]),
                    jpg_util: optional_field(t[8]),
                    ofa_util: optional_field(t[9]),
                    mem_clock_mhz: optional_field(t[10]),
                    gpu_clock_mhz: optional_field(t[11]),
                },
            ),
        }
    }
}

impl GpuSample {
    /// A metric field: `-` or nothing is absent.
    pub fn parse_optional(s: &str) -> (r: Option<u32>)
        ensures
            r == optional_field(s@),
    {
        let v = chars_of(s);
        let n: usize = v.len();
        assert(v@.subrange(0, n as int) =~= v@);
        optional_in(&v, 0, n)
    }

    /// Reads one line of the device monitor; `None` for headers, blank lines
    /// and lines that hold no sample.
    pub fn parse_line(line: &str) -> (r: Option<Self>)
        ensures
            r == device_sample_of(line@),
    {
        let v = chars_of(line);
        let n: usize = v.len();
        let t = token_spans(&v, 0, n);
        assert(v@.subrange(0, n as int) =~= v@);
        let ghost toks = split_ws(line@);
        if t.len() < 12 {
            return None;
        }
        assert forall|k: int| 0 <= k < 12 implies toks[k] == v@.subrange(
            t@[k].0 as int,
            t@[k].1 as int,
        ) by {
            assert(pieces(v@, t@)[k] == toks[k]);
        }
        let (a0, b0) = t[0];
        if b0 > a0 && v[a0] == '#' {
            return None;
        }
        assert(!is_comment_token(toks[0]));
        let idx = match parse_u32_in(&v, a0, b0) {
            Some(x) => x,
            None => {
                return None;
            },
        };
        Some(
            GpuSample {
                gpu_idx: idx,
                power_w: optional_in(&v, t[1].0, t[1].1),
                gpu_temp_c: optional_in(&v, t[2].0, t[2].1),
                mem_temp_c: optional_in(&v, t[3].0, t[3].1),
                sm_util: optional_in(&v, t[4].0, t[4].1),
                mem_util: optional_in(&v, t[5].0, t[5].1),
                enc_util: optional_in(&v, t[6].0, t[6].1),
                dec_util: optional_in(&v, t[7].0, t[7].1),
                jpg_util: optional_in(&v, t[8].0, t[8].1),
                ofa_util: optional_in(&v, t[9].0, t[9].1),
                mem_clock_mhz: optional_in(&v, t[10].0, t[10].1),
                gpu_clock_mhz: optional_in(&v, t[11].0, t[11].1),
            },
        )
    }
}

/// One (device, process) row of the process monitor.
#[derive(Debug, Clone)]
pub struct ProcessSample {
    pub gpu_idx: u32,
    pub pid: u32,
    /// `C` for compute, `G` for graphics.
    pub process_type: String,
    pub sm_util: Option<u32>,
    pub mem_util: Option<u32>,
    pub enc_util: Option<u32>,
    pub dec_util: Option<u32>,
    pub command: String,
}

pub struct ProcessSampleView {
    pub gpu_idx: u32,
    pub pid: u32,
    pub process_type: Seq<char>,
    pub sm_util: Option<u32>,
    pub mem_util: Option<u32>,
    pub enc_util: Option<u32>,
    pub dec_util: Option<u32>,
    pub command: Seq<char>,
}

impl View for ProcessSample {
    type V = ProcessSampleView;

    open spec fn view(&self) -> ProcessSampleView {
        ProcessSampleView {
            gpu_idx: self.gpu_idx,
            pid: self.pid,
            process_type: self.process_type@,
            sm_util: self.sm_util,
            mem_util: self.mem_util,
            enc_util: self.enc_util,
            dec_util: self.dec_util,
            command: self.command@,
        }
    }
}

/// The record that a process-monitor line holds: at least ten tokens, the
/// device index, the pid, the type, four metric fields, two skipped fields,
/// and the command, which is every token from the tenth on.
pub open spec fn process_sample_of(line: Seq<char>) -> Option<ProcessSampleView> {
    let t = split_ws(line);
    if t.len() < 10 || is_comment_token(t[0]) {
        None
    } else {
        match (parse_u32_spec(t[0]), parse_u32_spec(t[1])) {
            (Some(g), Some(p)) => Some(
                ProcessSampleView {
                    gpu_idx: g,
                    pid: p,
                    process_type: t[2],
                    sm_util: optional_field(t[3]),
                    mem_util: optional_field(t[4]),
                    enc_util: optional_field(t[5]),
                    dec_util: optional_field(t[6]),
                    command: join_spaced(t.skip(9)),
                },
            ),
            _ => None,
        }
    }
}

impl ProcessSample {
    /// A metric field: `-` or nothing is absent.
    pub fn parse_optional(s: &str) -> (r: Option<u32>)
        ensures
            r == optional_field(s@),
    {
        let v = chars_of(s);
        let n: usize = v.len();
        assert(v@.subrange(0, n as int) =~= v@);
        optional_in(&v, 0, n)
    }

    /// Reads one line of the process monitor; `None` for headers, blank lines
    /// and lines that hold no row.
    pub fn parse_line(line: &str) -> (r: Option<Self>)
        ensures
            match r {
                Some(x) => process_sample_of(line@) == Some(x@),
                None => process_sample_of(line@) is None,
            },
    {
        let v = chars_of(line);
        let n: usize = v.len();
        let t = token_spans(&v, 0, n);
        assert(v@.subrange(0, n as int) =~= v@);
        let ghost toks = split_ws(line@);
        if t.len() < 10 {
            return None;
        }
        assert forall|k: int| 0 <= k < 10 implies toks[k] == v@.subrange(
            t@[k].0 as int,
            t@[k].1 as int,
        ) by {
            assert(pieces(v@, t@)[k] == toks[k]);
        }
        let (a0, b0) = t[0];
        if b0 > a0 && v[a0] == '#' {
            return None;
        }
        let gpu_idx = match parse_u32_in(&v, a0, b0) {
            Some(x) => x,
            None => {
                return None;
            },
        };
        let pid = match parse_u32_in(&v, t[1].0, t[1].1) {
            Some(x) => x,
            None => {
                return None;
            },
        };
        let r = ProcessSample {
            gpu_idx,
            pid,
            process_type: string_of_span(line, t[2].0, t[2].1),
            sm_util: optional_in(&v, t[3].0, t[3].1),
            mem_util: optional_in(&v, t[4].0, t[4].1),
            enc_util: optional_in(&v, t[5].0, t[5].1),
            dec_util: optional_in(&v, t[6].0, t[6].1),
            command: join_spans(line, &t, 9),
        };
        assert(r@ == process_sample_of(line@)->0);
        Some(r)
    }
}

/// The used-memory cell of a VRAM row in MiB: a ` MiB` unit is dropped, the
/// marker `[N/A]` reads as zero, and what is still no number counts as zero.
pub open spec fn vram_of(cell: Seq<char>) -> u64 {
    match parse_u64_spec(trim(replace_all(replace_all(cell, " MiB"@, ""@), "[N/A]"@, "0"@))) {
        Some(x) => x,
        None => 0,
    }
}

/// One (process, device) row of current VRAM allocation.
#[derive(Debug, Clone)]
pub struct ComputeApp {
    pub pid: u32,
    pub name: String,
    pub gpu_uuid: String,
    pub vram_used_mib: u64,
}

pub struct ComputeAppView {
    pub pid: u32,
    pub name: Seq<char>,
    pub gpu_uuid: Seq<char>,
    pub vram_used_mib: u64,
}

impl View for ComputeApp {
    type V = ComputeAppView;

    open spec fn view(&self) -> ComputeAppView {
        ComputeAppView {
            pid: self.pid,
            name: self.name@,
            gpu_uuid: self.gpu_uuid@,
            vram_used_mib: self.vram_used_mib,
        }
    }
}

/// Cell `k` of a comma-separated row, without surrounding whitespace.
pub open spec fn csv_cell(line: Seq<char>, k: int) -> Seq<char> {
    trim(split_char(line, ',')[k])
}

/// The row that a VRAM-allocation line holds: not the header (which begins
/// with `pid`), at least four cells, the first a pid.
pub open spec fn compute_app_of(line: Seq<char>) -> Option<ComputeAppView> {
    if has_prefix(line, "pid"@) || split_char(line, ',').len() < 4 {
        None
    } else {
        match parse_u32_spec(csv_cell(line, 0)) {
            None => None,
            Some(pid) => Some(
                ComputeAppView {
                    pid,
                    name: csv_cell(line, 1),
                    gpu_uuid: csv_cell(line, 2),
                    vram_used_mib: vram_of(csv_cell(line, 3)),
                },
            ),
        }
    }
}

/// Trimmed spans of the comma-separated cells of `v[a..b]`, or `None` when
/// there are fewer than `min` cells.
fn csv_spans(v: &Vec<char>, a: usize, b: usize, min: usize) -> (r: Option<Vec<(usize, usize)>>)
    requires
        a <= b <= v@.len(),
    ensures
        match r {
            Some(c) => {
                &&& split_char(v@.subrange(a as int, b as int), ',').len() >= min
                &&& c@.len() == min
                &&& spans_ok(c@, v@.len() as int)
                &&& forall|k: int|
                    0 <= k < min ==> pieces(v@, c@)[k] == trim(
                        split_char(v@.subrange(a as int, b as int), ',')[k],
                    )
            },
            None => split_char(v@.subrange(a as int, b as int), ',').len() < min,
        },
{
    let ps = split_spans(v, a, b, ',');
    if ps.len() < min {
        return None;
    }
    let ghost parts = split_char(v@.subrange(a as int, b as int), ',');
    let mut c: Vec<(usize, usize)> = Vec::new();
    let mut k: usize = 0;
    while k < min
        invariant
            k <= min <= ps@.len(),
            a <= b <= v@.len(),
            parts == split_char(v@.subrange(a as int, b as int), ','),
            pieces(v@, ps@) == parts,
            spans_ok(ps@, v@.len() as int),
            c@.len() == k,
            spans_ok(c@, v@.len() as int),
            forall|j: int| 0 <= j < k ==> pieces(v@, c@)[j] == trim(parts[j]),
        decreases min - k,
    {
        let (x, y) = ps[k];
        assert(pieces(v@, ps@)[k as int] == v@.subrange(x as int, y as int));
        let tr = trim_span(v, x, y);
        let ghost old_c = c@;
        c.push(tr);
        assert(pieces(v@, c@)[k as int] == trim(parts[k as int]));
        assert forall|j: int| 0 <= j < k implies pieces(v@, c@)[j] == trim(parts[j]) by {
            assert(pieces(v@, c@)[j] == pieces(v@, old_c)[j]);
        }
        k += 1;
    }
    Some(c)
}

fn vram_in(v: &Vec<char>, a: usize, b: usize) -> (r: u64)
    requires
        a <= b <= v@.len(),
    ensures
        r == vram_of(v@.subrange(a as int, b as int)),
{
    proof {
        reveal_strlit(" MiB");
        reveal_strlit("[N/A]");
    }
    let r1 = replace_in(v, a, b, " MiB", "");
    let r2 = replace_in(&r1, 0, r1.len(), "[N/A]", "0");
    assert(r1@.subrange(0, r1@.len() as int) =~= r1@);
    let (x, y) = trim_span(&r2, 0, r2.len());
    assert(r2@.subrange(0, r2@.len() as int) =~= r2@);
    match parse_u64_in(&r2, x, y) {
        Some(m) => m,
        None => 0,
    }
}

impl ComputeApp {
    /// The row in `text[a..b]`, whose characters are `v`.
    fn parse_span(text: &str, v: &Vec<char>, a: usize, b: usize) -> (r: Option<Self>)
        requires
            v@ == text@,
            a <= b <= v@.len(),
        ensures
            match r {
                Some(x) => compute_app_of(v@.subrange(a as int, b as int)) == Some(x@),
                None => compute_app_of(v@.subrange(a as int, b as int)) is None,
            },
    {
        let ghost line = v@.subrange(a as int, b as int);
        if span_starts_with(v, a, b, "pid") {
            return None;
        }
        let c = match csv_spans(v, a, b, 4) {
            Some(c) => c,
            None => {
                return None;
            },
        };
        assert forall|k: int| 0 <= k < 4 implies csv_cell(line, k) == v@.subrange(
            c@[k].0 as int,
            c@[k].1 as int,
        ) by {
            assert(pieces(v@, c@)[k] == csv_cell(line, k));
        }
        let pid = match parse_u32_in(v, c[0].0, c[0].1) {
            Some(x) => x,
            None => {
                return None;
            },
        };
        let r = ComputeApp {
            pid,
            name: string_of_span(text, c[1].0, c[1].1),
            gpu_uuid: string_of_span(text, c[2].0, c[2].1),
            vram_used_mib: vram_in(v, c[3].0, c[3].1),
        };
        assert(r@ == compute_app_of(line)->0);
        Some(r)
    }

    /// Reads one line of the VRAM-allocation query; `None` for the header and
    /// for lines that hold no row.
    pub fn parse_csv_line(line: &str) -> (r: Option<Self>)
        ensures
            match r {
                Some(x) => compute_app_of(line@) == Some(x@),
                None => compute_app_of(line@) is None,
            },
    {
        let v = chars_of(line);
        let n: usize = v.len();
        assert(v@.subrange(0, n as int) =~= v@);
        Self::parse_span(line, &v, 0, n)
    }
}

/// OS-level statistics of one process. CPU use is kept in thousandths of a
/// percent.
#[derive(Debug, Clone, Default)]
pub struct ProcessSystemInfo {
    pub pid: u32,
    pub cpu_milli_percent: u64,
    /// Resident memory in KB.
    pub rss_kb: u64,
    /// Run time as the OS prints it.
    pub elapsed: String,
}

pub struct ProcessSystemInfoView {
    pub pid: u32,
    pub cpu_milli_percent: u64,
    pub rss_kb: u64,
    pub elapsed: Seq<char>,
}

impl View for ProcessSystemInfo {
    type V = ProcessSystemInfoView;

    open spec fn view(&self) -> ProcessSystemInfoView {
        ProcessSystemInfoView {
            pid: self.pid,
            cpu_milli_percent: self.cpu_milli_percent,
            rss_kb: self.rss_kb,
            elapsed: self.elapsed@,
        }
    }
}

/// The row that a process-stats line holds: at least four tokens, the pid,
/// the CPU percentage, the resident memory and the elapsed time; a CPU or
/// memory field that is no number counts as zero.
pub open spec fn ps_info_of(line: Seq<char>) -> Option<ProcessSystemInfoView> {
    let t = split_ws(line);
    if t.len() < 4 {
        None
    } else {
        match parse_u32_spec(t[0]) {
            None => None,
            Some(pid) => Some(
                ProcessSystemInfoView {
                    pid,
                    cpu_milli_percent: match parse_milli_spec(t[1]) {
                        Some(x) => x,
                        None => 0,
                    },
                    rss_kb: match parse_u64_spec(t[2]) {
                        Some(x) => x,
                        None => 0,
                    },
                    elapsed: t[3],
                },
            ),
        }
    }
}

impl ProcessSystemInfo {
    fn parse_span(text: &str, v: &Vec<char>, a: usize, b: usize) -> (r: Option<Self>)
        requires
            v@ == text@,
            a <= b <= v@.len(),
        ensures
            match r {
                Some(x) => ps_info_of(v@.subrange(a as int, b as int)) == Some(x@),
                None => ps_info_of(v@.subrange(a as int, b as int)) is None,
            },
    {
        let ghost toks = split_ws(v@.subrange(a as int, b as int));
        let t = token_spans(v, a, b);
        if t.len() < 4 {
            return None;
        }
        assert forall|k: int| 0 <= k < 4 implies toks[k] == v@.subrange(
            t@[k].0 as int,
            t@[k].1 as int,
        ) by {
            assert(pieces(v@, t@)[k] == toks[k]);
        }
        let pid = match parse_u32_in(v, t[0].0, t[0].1) {
            Some(x) => x,
            None => {
                return None;
            },
        };
        let cpu = match parse_milli_in(v, t[1].0, t[1].1) {
            Some(x) => x,
            None => 0,
        };
        let rss = match parse_u64_in(v, t[2].0, t[2].1) {
            Some(x) => x,
            None => 0,
        };
        let r = ProcessSystemInfo {
            pid,
            cpu_milli_percent: cpu,
            rss_kb: rss,
            elapsed: string_of_span(text, t[3].0, t[3].1),
        };
        assert(r@ == ps_info_of(v@.subrange(a as int, b as int))->0);
        Some(r)
    }

    /// Reads one line of the process-stats query.
    pub fn parse_ps_line(line: &str) -> (r: Option<Self>)
        ensures
            match r {
                Some(x) => ps_info_of(line@) == Some(x@),
                None => ps_info_of(line@) is None,
            },
    {
        let v = chars_of(line);
        let n: usize = v.len();
        assert(v@.subrange(0, n as int) =~= v@);
        Self::parse_span(line, &v, 0, n)
    }
}

/// A device-info cell with the markers `[Not Supported]` and `[N/A]` removed.
pub open spec fn cleaned(cell: Seq<char>) -> Seq<char> {
    replace_all(replace_all(cell, "[Not Supported]"@, ""@), "[N/A]"@, ""@)
}

pub open spec fn u64_or_zero(o: Option<u64>) -> u64 {
    match o {
        Some(x) => x,
        None => 0,
    }
}

/// Static and slow-changing attributes of one device. Power figures are in
/// milliwatts.
#[derive(Debug, Clone, Default)]
pub struct GpuInfo {
    pub index: u32,
    pub name: String,
    pub uuid: String,
    pub driver_version: String,
    pub memory_total_mib: u64,
    pub memory_used_mib: u64,
    pub memory_free_mib: u64,
    pub power_limit_mw: Option<u64>,
    pub power_draw_mw: Option<u64>,
    pub temperature_c: Option<u32>,
    pub temperature_limit_c: Option<u32>,
    pub pcie_gen_current: Option<u32>,
    pub pcie_gen_max: Option<u32>,
    pub pcie_width_current: Option<u32>,
    pub pcie_width_max: Option<u32>,
    pub fan_speed_pct: Option<u32>,
    pub pstate: String,
    pub throttle_reasons: Vec<String>,
}

pub struct GpuInfoView {
    pub index: u32,
    pub name: Seq<char>,
    pub uuid: Seq<char>,
    pub driver_version: Seq<char>,
    pub memory_total_mib: u64,
    pub memory_used_mib: u64,
    pub memory_free_mib: u64,
    pub power_limit_mw: Option<u64>,
    pub power_draw_mw: Option<u64>,
    pub temperature_c: Option<u32>,
    pub temperature_limit_c: Option<u32>,
    pub pcie_gen_current: Option<u32>,
    pub pcie_gen_max: Option<u32>,
    pub pcie_width_current: Option<u32>,
    pub pcie_width_max: Option<u32>,
    pub fan_speed_pct: Option<u32>,
    pub pstate: Seq<char>,
    pub throttle_reasons: Seq<Seq<char>>,
}

impl View for GpuInfo {
    type V = GpuInfoView;

    open spec fn view(&self) -> GpuInfoView {
        GpuInfoView {
            index: self.index,
            name: self.name@,
            uuid: self.uuid@,
            driver_version: self.driver_version@,
            memory_total_mib: self.memory_total_mib,
            memory_used_mib: self.memory_used_mib,
            memory_free_mib: self.memory_free_mib,
            power_limit_mw: self.power_limit_mw,
            power_draw_mw: self.power_draw_mw,
            temperature_c: self.temperature_c,
            temperature_limit_c: self.temperature_limit_c,
            pcie_gen_current: self.pcie_gen_current,
            pcie_gen_max: self.pcie_gen_max,
            pcie_width_current: self.pcie_width_current,
            pcie_width_max: self.pcie_width_max,
            fan_speed_pct: self.fan_speed_pct,
            pstate: self.pstate@,
            throttle_reasons: Seq::new(
                self.throttle_reasons@.len(),
                |k: int| self.throttle_reasons@[k]@,
            ),
        }
    }
}

/// The record that a device-info row holds, for the device at `index`: at
/// least sixteen cells, in the order name, UUID, driver version, memory
/// total, used and free, power limit and draw, temperature and its limit,
/// PCIe generation current and max, PCIe width current and max, fan speed,
/// performance state.
pub open spec fn gpu_info_of(line: Seq<char>, index: u32) -> Option<GpuInfoView> {
    if split_char(line, ',').len() < 16 {
        None
    } else {
        Some(
            GpuInfoView {
                index,
                name: csv_cell(line, 0),
                uuid: csv_cell(line, 1),
                driver_version: csv_cell(line, 2),
                memory_total_mib: u64_or_zero(parse_u64_spec(cleaned(csv_cell(line, 3)))),
                memory_used_mib: u64_or_zero(parse_u64_spec(cleaned(csv_cell(line, 4)))),
                memory_free_mib: u64_or_zero(parse_u64_spec(cleaned(csv_cell(line, 5)))),
                power_limit_mw: parse_milli_spec(cleaned(csv_cell(line, 6))),
                power_draw_mw: parse_milli_spec(cleaned(csv_cell(line, 7))),
                temperature_c: parse_u32_spec(cleaned(csv_cell(line, 8))),
                temperature_limit_c: parse_u32_spec(cleaned(csv_cell(line, 9))),
                pcie_gen_current: parse_u32_spec(cleaned(csv_cell(line, 10))),
                pcie_gen_max: parse_u32_spec(cleaned(csv_cell(line, 11))),
                pcie_width_current: parse_u32_spec(cleaned(csv_cell(line, 12))),
                pcie_width_max: parse_u32_spec(cleaned(csv_cell(line, 13))),
                fan_speed_pct: parse_u32_spec(cleaned(csv_cell(line, 14))),
                pstate: csv_cell(line, 15),
                throttle_reasons: Seq::empty(),
            },
        )
    }
}

fn cleaned_in(v: &Vec<char>, a: usize, b: usize) -> (r: Vec<char>)
    requires
        a <= b <= v@.len(),
    ensures
        r@ == cleaned(v@.subrange(a as int, b as int)),
{
    proof {
        reveal_strlit("[Not Supported]");
        reveal_strlit("[N/A]");
    }
    let r1 = replace_in(v, a, b, "[Not Supported]", "");
    let r2 = replace_in(&r1, 0, r1.len(), "[N/A]", "");
    assert(r1@.subrange(0, r1@.len() as int) =~= r1@);
    r2
}

fn cell_u32(v: &Vec<char>, a: usize, b: usize) -> (r: Option<u32>)
    requires
        a <= b <= v@.len(),
    ensures
        r == parse_u32_spec(cleaned(v@.subrange(a as int, b as int))),
{
    let c = cleaned_in(v, a, b);
    assert(c@.subrange(0, c@.len() as int) =~= c@);
    parse_u32_in(&c, 0, c.len())
}

fn cell_u64(v: &Vec<char>, a: usize, b: usize) -> (r: u64)
    requires
        a <= b <= v@.len(),
    ensures
        r == u64_or_zero(parse_u64_spec(cleaned(v@.subrange(a as int, b as int)))),
{
    let c = cleaned_in(v, a, b);
    assert(c@.subrange(0, c@.len() as int) =~= c@);
    match parse_u64_in(&c, 0, c.len()) {
        Some(x) => x,
        None => 0,
    }
}

fn cell_milli(v: &Vec<char>, a: usize, b: usize) -> (r: Option<u64>)
    requires
        a <= b <= v@.len(),
    ensures
        r == parse_milli_spec(cleaned(v@.subrange(a as int, b as int))),
{
    let c = cleaned_in(v, a, b);
    assert(c@.subrange(0, c@.len() as int) =~= c@);
    parse_milli_in(&c, 0, c.len())
}

impl GpuInfo {
    fn parse_span(text: &str, v: &Vec<char>, a: usize, b: usize, index: u32) -> (r: Option<Self>)
        requires
            v@ == text@,
            a <= b <= v@.len(),
        ensures
            match r {
                Some(x) => gpu_info_of(v@.subrange(a as int, b as int), index) == Some(x@),
                None => gpu_info_of(v@.subrange(a as int, b as int), index) is None,
            },
    {
        let ghost line = v@.subrange(a as int, b as int);
        let c = match csv_spans(v, a, b, 16) {
            Some(c) => c,
            None => {
                return None;
            },
        };
        assert forall|k: int| 0 <= k < 16 implies csv_cell(line, k) == v@.subrange(
            c@[k].0 as int,
            c@[k].1 as int,
        ) by {
            assert(pieces(v@, c@)[k] == csv_cell(line, k));
        }
        let r = GpuInfo {
            index,
            name: string_of_span(text, c[0].0, c[0].1),
            uuid: string_of_span(text, c[1].0, c[1].1),
            driver_version: string_of_span(text, c[2].0, c[2].1),
            memory_total_mib: cell_u64(v, c[3].0, c[3].1),
            memory_used_mib: cell_u64(v, c[4].0, c[4].1),
            memory_free_mib: cell_u64(v, c[5].0, c[5].1),
            power_limit_mw: cell_milli(v, c[6].0, c[6].1),
            power_draw_mw: cell_milli(v, c[7].0, c[7].1),
            temperature_c: cell_u32(v, c[8].0, c[8].1),
            temperature_limit_c: cell_u32(v, c[9].0, c[9].1),
            pcie_gen_current: cell_u32(v, c[10].0, c[10].1),
            pcie_gen_max: cell_u32(v, c[11].0, c[11].1),
            pcie_width_current: cell_u32(v, c[12].0, c[12].1),
            pcie_width_max: cell_u32(v, c[13].0, c[13].1),
            fan_speed_pct: cell_u32(v, c[14].0, c[14].1),
            pstate: string_of_span(text, c[15].0, c[15].1),
            throttle_reasons: Vec::new(),
        };
        assert(r@.throttle_reasons =~= Seq::<Seq<char>>::empty());
        assert(r@ == gpu_info_of(line, index)->0);
        Some(r)
    }

    /// Reads one row of the device-info query for the device at `index`.
    pub fn parse_csv_line(line: &str, index: u32) -> (r: Option<Self>)
        ensures
            match r {
                Some(x) => gpu_info_of(line@, index) == Some(x@),
                None => gpu_info_of(line@, index) is None,
            },
    {
        let v = chars_of(line);
        let n: usize = v.len();
        assert(v@.subrange(0, n as int) =~= v@);
        Self::parse_span(line, &v, 0, n, index)
    }
}

/// The views of the elements of `v`, in order.
pub open spec fn views<T: View>(v: Seq<T>) -> Seq<T::V> {
    Seq::new(v.len(), |k: int| v[k]@)
}

/// The device-info records of the first `n` rows `ls`: row `k` describes
/// device `k`, and rows that hold no record are skipped.
pub open spec fn gpu_infos_of(ls: Seq<Seq<char>>, n: int) -> Seq<GpuInfoView>
    decreases n,
{
    if n <= 0 {
        Seq::empty()
    } else {
        let prev = gpu_infos_of(ls, n - 1);
        match gpu_info_of(ls[n - 1], (n - 1) as u32) {
            Some(g) => prev.push(g),
            None => prev,
        }
    }
}

/// The VRAM rows of the first `n` lines `ls`, skipping the others.
pub open spec fn compute_apps_of(ls: Seq<Seq<char>>, n: int) -> Seq<ComputeAppView>
    decreases n,
{
    if n <= 0 {
        Seq::empty()
    } else {
        let prev = compute_apps_of(ls, n - 1);
        match compute_app_of(ls[n - 1]) {
            Some(g) => prev.push(g),
            None => prev,
        }
    }
}

/// The process-stats rows of the first `n` lines `ls`, skipping the others.
pub open spec fn ps_infos_of(ls: Seq<Seq<char>>, n: int) -> Seq<ProcessSystemInfoView>
    decreases n,
{
    if n <= 0 {
        Seq::empty()
    } else {
        let prev = ps_infos_of(ls, n - 1);
        match ps_info_of(ls[n - 1]) {
            Some(g) => prev.push(g),
            None => prev,
        }
    }
}

impl GpuInfo {
    /// Reads the whole output of the device-info query, one row per device in
    /// index order.
    pub fn parse_csv_output(text: &str) -> (r: Vec<GpuInfo>)
        ensures
            views(r@) == gpu_infos_of(lines(text@), lines(text@).len() as int),
    {
        let v = chars_of(text);
        let ls = line_spans(&v);
        let ghost lv = lines(text@);
        let mut out: Vec<GpuInfo> = Vec::new();
        let mut k: usize = 0;
        assert(views(out@) =~= gpu_infos_of(lv, 0));
        while k < ls.len()
            invariant
                v@ == text@,
                lv == lines(text@),
                pieces(v@, ls@) == lv,
                spans_ok(ls@, v@.len() as int),
                k <= ls@.len(),
                views(out@) == gpu_infos_of(lv, k as int),
            decreases ls@.len() - k,
        {
            let (a, b) = ls[k];
            assert(pieces(v@, ls@)[k as int] == v@.subrange(a as int, b as int));
            let ghost prev = out@;
            match GpuInfo::parse_span(text, &v, a, b, k as u32) {
                Some(g) => {
                    out.push(g);
                    assert(views(out@) =~= views(prev).push(g@));
                },
                None => {},
            }
            k += 1;
        }
        out
    }
}

impl ComputeApp {
    /// Reads the whole output of the VRAM-allocation query.
    pub fn parse_csv_output(text: &str) -> (r: Vec<ComputeApp>)
        ensures
            views(r@) == compute_apps_of(lines(text@), lines(text@).len() as int),
    {
        let v = chars_of(text);
        let ls = line_spans(&v);
        let ghost lv = lines(text@);
        let mut out: Vec<ComputeApp> = Vec::new();
        let mut k: usize = 0;
        assert(views(out@) =~= compute_apps_of(lv, 0));
        while k < ls.len()
            invariant
                v@ == text@,
                lv == lines(text@),
                pieces(v@, ls@) == lv,
                spans_ok(ls@, v@.len() as int),
                k <= ls@.len(),
                views(out@) == compute_apps_of(lv, k as int),
            decreases ls@.len() - k,
        {
            let (a, b) = ls[k];
            assert(pieces(v@, ls@)[k as int] == v@.subrange(a as int, b as int));
            let ghost prev = out@;
            match ComputeApp::parse_span(text, &v, a, b) {
                Some(g) => {
                    out.push(g);
                    assert(views(out@) =~= views(prev).push(g@));
                },
                None => {},
            }
            k += 1;
        }
        out
    }
}

impl ProcessSystemInfo {
    /// Reads the whole output of the process-stats query.
    pub fn parse_ps_output(text: &str) -> (r: Vec<ProcessSystemInfo>)
        ensures
            views(r@) == ps_infos_of(lines(text@), lines(text@).len() as int),
    {
        let v = chars_of(text);
        let ls = line_spans(&v);
        let ghost lv = lines(text@);
        let mut out: Vec<ProcessSystemInfo> = Vec::new();
        let mut k: usize = 0;
        assert(views(out@) =~= ps_infos_of(lv, 0));
        while k < ls.len()
            invariant
                v@ == text@,
                lv == lines(text@),
                pieces(v@, ls@) == lv,
                spans_ok(ls@, v@.len() as int),
                k <= ls@.len(),
                views(out@) == ps_infos_of(lv, k as int),
            decreases ls@.len() - k,
        {
            let (a, b) = ls[k];
            assert(pieces(v@, ls@)[k as int] == v@.subrange(a as int, b as int));
            let ghost prev = out@;
            match ProcessSystemInfo::parse_span(text, &v, a, b) {
                Some(g) => {
                    out.push(g);
                    assert(views(out@) =~= views(prev).push(g@));
                },
                None => {},
            }
            k += 1;
        }
        out
    }
}

/// The column of the device-monitor line that holds metric `m`.
pub open spec fn metric_column(m: crate::history::Metric) -> int {
    match m {
        crate::history::Metric::Power => 1,
        crate::history::Metric::GpuTemp => 2,
        crate::history::Metric::MemTemp => 3,
        crate::history::Metric::SmUtil => 4,
        crate::history::Metric::MemUtil => 5,
        crate::history::Metric::EncUtil => 6,
        crate::history::Metric::DecUtil => 7,
        crate::history::Metric::JpgUtil => 8,
        crate::history::Metric::OfaUtil => 9,
        crate::history::Metric::MemClock => 10,
        crate::history::Metric::GpuClock => 11,
    }
}

proof fn lemma_number_is_no_comment(t: Seq<char>)
    requires
        parse_u32_spec(t) is Some,
    ensures
        !is_comment_token(t),
{
    if t.len() > 0 && t[0] == '#' {
        assert(unsigned_body(t) == t);
        assert(!crate::text::is_digit(t[0]));
    }
}

/// Device lines are read in full: a line with at least twelve tokens whose
/// first is a device index always gives a sample (and, being a function of
/// the line, the same sample every time); a `-` in a metric's column makes
/// that metric absent rather than the line unreadable.
pub proof fn lemma_device_line_total(line: Seq<char>, m: crate::history::Metric)
    requires
        split_ws(line).len() >= 12,
        parse_u32_spec(split_ws(line)[0]) is Some,
    ensures
        device_sample_of(line) is Some,
        split_ws(line)[metric_column(m)] == seq!['-'] ==> crate::history::metric_of(
            m,
            device_sample_of(line)->0,
        ) is None,
{
    lemma_number_is_no_comment(split_ws(line)[0]);
    let dash = seq!['-'];
    assert(crate::text::trim_start(dash) == dash);
    assert(crate::text::trim_end(dash) == dash);
}

/// Blank lines, and header or comment lines (the first non-blank character
/// is `#`), are not data for either monitor.
pub proof fn lemma_blank_or_comment_not_data(line: Seq<char>)
    requires
        trim_start(line).len() == 0 || trim_start(line)[0] == '#',
    ensures
        device_sample_of(line) is None,
        process_sample_of(line) is None,
{
    lemma_first_token(line);
}

} // verus!
