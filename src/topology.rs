//! The interconnect block: link types between every pair of devices, and
//! each device's CPU and NUMA affinity.
use vstd::prelude::*;
use crate::parser::views;
use crate::text::{
    chars_of, has_prefix, line_spans, lines, parse_u32_in, parse_u32_spec, pieces, span_is,
    span_starts_with, spans_ok, split_ws, string_of_span, token_spans, trim, trim_span,
};

verus! {

/// How two devices are connected.
#[derive(Debug, Clone, Copy, PartialEq, Eq)]
pub enum GpuLink {
    /// The device itself.
    Self_,
    /// A single PCIe bridge.
    PIX,
    /// Several PCIe bridges.
    PXB,
    /// A PCIe host bridge.
    PHB,
    /// The same NUMA node.
    NODE,
    /// Across NUMA nodes.
    SYS,
    /// NVLink with this many links.
    NVLink(u32),
}

/// The link that a matrix cell names: `X`, `PIX`, `PXB`, `PHB`, `NODE`,
/// `SYS`, or `NV` followed by a link count.
pub open spec fn link_of(s: Seq<char>) -> Option<GpuLink> {
    let t = trim(s);
    if t == "X"@ {
        Some(GpuLink::Self_)
    } else if t == "PIX"@ {
        Some(GpuLink::PIX)
    } else if t == "PXB"@ {
        Some(GpuLink::PXB)
    } else if t == "PHB"@ {
        Some(GpuLink::PHB)
    } else if t == "NODE"@ {
        Some(GpuLink::NODE)
    } else if t == "SYS"@ {
        Some(GpuLink::SYS)
    } else if has_prefix(t, "NV"@) {
        match parse_u32_spec(t.skip(2)) {
            Some(n) => Some(GpuLink::NVLink(n)),
            None => None,
        }
    } else {
        None
    }
}

pub open spec fn link_description(l: GpuLink) -> Seq<char> {
    match l {
        GpuLink::Self_ => "Self"@,
        GpuLink::PIX => "Single PCIe bridge (fast)"@,
        GpuLink::PXB => "Multiple PCIe bridges"@,
        GpuLink::PHB => "PCIe Host Bridge"@,
        GpuLink::NODE => "Same NUMA node"@,
        GpuLink::SYS => "Cross NUMA (slow)"@,
        GpuLink::NVLink(n) => if n == 1 {
            "NVLink x1"@
        } else if n == 2 {
            "NVLink x2"@
        } else {
            "NVLink"@
        },
    }
}

fn link_in(v: &Vec<char>, a: usize, b: usize) -> (r: Option<GpuLink>)
    requires
        a <= b <= v@.len(),
    ensures
        r == link_of(v@.subrange(a as int, b as int)),
{
    let (x, y) = trim_span(v, a, b);
    if span_is(v, x, y, "X") {
        Some(GpuLink::Self_)
    } else if span_is(v, x, y, "PIX") {
        Some(GpuLink::PIX)
    } else if span_is(v, x, y, "PXB") {
        Some(GpuLink::PXB)
    } else if span_is(v, x, y, "PHB") {
        Some(GpuLink::PHB)
    } else if span_is(v, x, y, "NODE") {
        Some(GpuLink::NODE)
    } else if span_is(v, x, y, "SYS") {
        Some(GpuLink::SYS)
    } else if span_starts_with(v, x, y, "NV") {
        proof {
            reveal_strlit("NV");
        }
        assert(v@.subrange(x as int, y as int).skip(2) =~= v@.subrange(x + 2, y as int));
        match parse_u32_in(v, x + 2, y) {
            Some(n) => Some(GpuLink::NVLink(n)),
            None => None,
        }
    } else {
        None
    }
}

impl GpuLink {
    /// The link that a matrix cell names.
    pub fn from_str(s: &str) -> (r: Option<Self>)
        ensures
            r == link_of(s@),
    {
        let v = chars_of(s);
        let n: usize = v.len();
        assert(v@.subrange(0, n as int) =~= v@);
        link_in(&v, 0, n)
    }

    /// A short human-readable account of the link.
    pub fn description(&self) -> (r: &'static str)
        ensures
            r@ == link_description(*self),
    {
        match self {
            GpuLink::Self_ => "Self",
            GpuLink::PIX => "Single PCIe bridge (fast)",
            GpuLink::PXB => "Multiple PCIe bridges",
            GpuLink::PHB => "PCIe Host Bridge",
            GpuLink::NODE => "Same NUMA node",
            GpuLink::SYS => "Cross NUMA (slow)",
            GpuLink::NVLink(n) => if *n == 1 {
                "NVLink x1"
            } else if *n == 2 {
                "NVLink x2"
            } else {
                "NVLink"
            },
        }
    }
}

/// The adjacency matrix of the devices and their affinities. Row `i` holds
/// the links of device `i` (`None` where a cell names no link).
#[derive(Debug, Clone, Default)]
pub struct GpuTopology {
    pub gpu_count: usize,
    pub matrix: Vec<Vec<Option<GpuLink>>>,
    pub cpu_affinity: Vec<String>,
    pub numa_affinity: Vec<String>,
}

pub struct TopologyView {
    pub gpu_count: nat,
    pub matrix: Seq<Seq<Option<GpuLink>>>,
    pub cpu_affinity: Seq<Seq<char>>,
    pub numa_affinity: Seq<Seq<char>>,
}

impl View for GpuTopology {
    type V = TopologyView;

    open spec fn view(&self) -> TopologyView {
        TopologyView {
            gpu_count: self.gpu_count as nat,
            matrix: Seq::new(self.matrix@.len(), |k: int| self.matrix@[k]@),
            cpu_affinity: views(self.cpu_affinity@),
            numa_affinity: views(self.numa_affinity@),
        }
    }
}

pub open spec fn empty_topology() -> TopologyView {
    TopologyView {
        gpu_count: 0,
        matrix: Seq::empty(),
        cpu_affinity: Seq::empty(),
        numa_affinity: Seq::empty(),
    }
}

/// The cells, CPU affinities and NUMA affinities after reading tokens
/// `1..n` of a row, on top of the topology `t`. A cell at a link column
/// (`1..=t.gpu_count`) that names no link is an absent link; past the link
/// columns, a token that names no link fills the row's CPU affinity, then its
/// NUMA affinity, then is dropped.
pub open spec fn row_cells(t: TopologyView, toks: Seq<Seq<char>>, n: int) -> (
    Seq<Option<GpuLink>>,
    Seq<Seq<char>>,
    Seq<Seq<char>>,
)
    decreases n,
{
    if n <= 1 {
        (Seq::empty(), t.cpu_affinity, t.numa_affinity)
    } else {
        let (row, cpu, numa) = row_cells(t, toks, n - 1);
        let i = n - 1;
        match link_of(toks[i]) {
            Some(l) => (row.push(Some(l)), cpu, numa),
            None => if i <= t.gpu_count {
                (row.push(None), cpu, numa)
            } else if cpu.len() <= t.matrix.len() {
                (row, cpu.push(toks[i]), numa)
            } else if numa.len() <= t.matrix.len() {
                (row, cpu, numa.push(toks[i]))
            } else {
                (row, cpu, numa)
            },
        }
    }
}

/// `t` after reading one row line: a line whose first token begins with
/// `GPU` adds its row and the row's affinities when the row has a cell, and
/// widens the device count to the widest row; a row without a cell, and any
/// other line, changes nothing.
pub open spec fn topo_line(t: TopologyView, line: Seq<char>) -> TopologyView {
    let toks = split_ws(line);
    if toks.len() == 0 || !has_prefix(toks[0], "GPU"@) {
        t
    } else {
        let (row, cpu, numa) = row_cells(t, toks, toks.len() as int);
        TopologyView {
            gpu_count: if row.len() > t.gpu_count {
                row.len()
            } else {
                t.gpu_count
            },
            matrix: if row.len() > 0 {
                t.matrix.push(row)
            } else {
                t.matrix
            },
            cpu_affinity: if row.len() > 0 {
                cpu
            } else {
                t.cpu_affinity
            },
            numa_affinity: if row.len() > 0 {
                numa
            } else {
                t.numa_affinity
            },
        }
    }
}

/// The first line from `i` on that begins with `GPU0` once leading and
/// trailing whitespace is dropped, or the line count.
pub open spec fn block_start(ls: Seq<Seq<char>>, i: int) -> int
    decreases ls.len() - i,
{
    if i >= ls.len() {
        ls.len() as int
    } else if has_prefix(trim(ls[i]), "GPU0"@) {
        i
    } else {
        block_start(ls, i + 1)
    }
}

/// A blank line or the legend ends the block.
pub open spec fn ends_block(l: Seq<char>) -> bool {
    trim(l).len() == 0 || has_prefix(l, "Legend"@)
}

/// The first line from `i` on that ends the block, or the line count.
pub open spec fn block_end(ls: Seq<Seq<char>>, i: int) -> int
    decreases ls.len() - i,
{
    if i >= ls.len() {
        ls.len() as int
    } else if ends_block(ls[i]) {
        i
    } else {
        block_end(ls, i + 1)
    }
}

/// The topology read from lines `lo..j` of `ls`; only lines that begin with
/// `GPU` are rows.
pub open spec fn topo_rows(ls: Seq<Seq<char>>, lo: int, j: int) -> TopologyView
    decreases j - lo,
{
    if j <= lo {
        empty_topology()
    } else {
        let t = topo_rows(ls, lo, j - 1);
        if has_prefix(ls[j - 1], "GPU"@) {
            topo_line(t, ls[j - 1])
        } else {
            t
        }
    }
}

/// The topology that a block of text describes: the rows run from the first
/// line that begins with `GPU0` (after trimming) up to a blank line or the
/// legend.
pub open spec fn topology_of(s: Seq<char>) -> TopologyView {
    let ls = lines(s);
    let lo = block_start(ls, 0);
    if lo >= ls.len() {
        empty_topology()
    } else {
        topo_rows(ls, lo, block_end(ls, lo))
    }
}

fn starts_block_in(v: &Vec<char>, a: usize, b: usize) -> (r: bool)
    requires
        a <= b <= v@.len(),
    ensures
        r == has_prefix(trim(v@.subrange(a as int, b as int)), "GPU0"@),
{
    let (x, y) = trim_span(v, a, b);
    span_starts_with(v, x, y, "GPU0")
}

fn ends_block_in(v: &Vec<char>, a: usize, b: usize) -> (r: bool)
    requires
        a <= b <= v@.len(),
    ensures
        r == ends_block(v@.subrange(a as int, b as int)),
{
    let (x, y) = trim_span(v, a, b);
    x == y || span_starts_with(v, a, b, "Legend")
}

impl GpuTopology {
    /// Reads the interconnect block that the topology query prints.
    pub fn parse(output: &str) -> (r: Self)
        ensures
            r@ == topology_of(output@),
            well_shaped(r@),
    {
        proof {
            lemma_topology_well_shaped(output@);
        }
        let v = chars_of(output);
        let ls = line_spans(&v);
        let ghost lv = lines(output@);
        let mut topo = GpuTopology {
            gpu_count: 0,
            matrix: Vec::new(),
            cpu_affinity: Vec::new(),
            numa_affinity: Vec::new(),
        };
        assert(topo@.matrix =~= Seq::<Seq<Option<GpuLink>>>::empty());
        assert(topo@.cpu_affinity =~= Seq::<Seq<char>>::empty());
        assert(topo@.numa_affinity =~= Seq::<Seq<char>>::empty());
        let mut i: usize = 0;
        while i < ls.len() && !starts_block_in(&v, ls[i].0, ls[i].1)
            invariant
                v@ == output@,
                lv == lines(output@),
                pieces(v@, ls@) == lv,
                spans_ok(ls@, v@.len() as int),
                i <= ls@.len(),
                block_start(lv, 0) == block_start(lv, i as int),
            decreases ls@.len() - i,
        {
            assert(pieces(v@, ls@)[i as int] == v@.subrange(ls@[i as int].0 as int, ls@[i as int].1 as int));
            i += 1;
        }
        if i == ls.len() {
            return topo;
        }
        assert(pieces(v@, ls@)[i as int] == v@.subrange(ls@[i as int].0 as int, ls@[i as int].1 as int));
        assert(block_start(lv, i as int) == i);
        let mut j: usize = i;
        while j < ls.len() && !ends_block_in(&v, ls[j].0, ls[j].1)
            invariant
                v@ == output@,
                lv == lines(output@),
                pieces(v@, ls@) == lv,
                spans_ok(ls@, v@.len() as int),
                i <= j <= ls@.len(),
                block_end(lv, i as int) == block_end(lv, j as int),
                topo@ == topo_rows(lv, i as int, j as int),
            decreases ls@.len() - j,
        {
            let (a, b) = ls[j];
            assert(pieces(v@, ls@)[j as int] == v@.subrange(a as int, b as int));
            if span_starts_with(&v, a, b, "GPU") {
                topo.add_row(output, &v, a, b);
            }
            j += 1;
        }
        proof {
            if j < ls@.len() {
                assert(pieces(v@, ls@)[j as int] == v@.subrange(ls@[j as int].0 as int, ls@[j as int].1 as int));
            }
        }
        assert(block_end(lv, i as int) == j);
        topo
    }

    /// Reads one row line into the topology.
    pub fn parse_topo_line(&mut self, line: &str)
        ensures
            final(self)@ == topo_line(old(self)@, line@),
    {
        let v = chars_of(line);
        let n: usize = v.len();
        assert(v@.subrange(0, n as int) =~= v@);
        self.add_row(line, &v, 0, n);
    }

    /// Reads the row line `text[a..b]`, whose characters are `v`.
    fn add_row(&mut self, text: &str, v: &Vec<char>, a: usize, b: usize)
        requires
            v@ == text@,
            a <= b <= v@.len(),
        ensures
            final(self)@ == topo_line(old(self)@, v@.subrange(a as int, b as int)),
    {
        let ghost t0 = self@;
        let ghost toks = split_ws(v@.subrange(a as int, b as int));
        let t = token_spans(v, a, b);
        if t.len() == 0 {
            return;
        }
        assert(pieces(v@, t@)[0] == v@.subrange(t@[0].0 as int, t@[0].1 as int));
        if !span_starts_with(v, t[0].0, t[0].1, "GPU") {
            return;
        }
        let mut row: Vec<Option<GpuLink>> = Vec::new();
        let mut k: usize = 1;
        let cpu_before: usize = self.cpu_affinity.len();
        let numa_before: usize = self.numa_affinity.len();
        let ghost cpu0 = self.cpu_affinity@;
        let ghost numa0 = self.numa_affinity@;
        assert(views(self.cpu_affinity@) == t0.cpu_affinity);
        assert(self.cpu_affinity@.take(cpu_before as int) =~= cpu0);
        assert(self.numa_affinity@.take(numa_before as int) =~= numa0);
        while k < t.len()
            invariant
                v@ == text@,
                toks == pieces(v@, t@),
                spans_ok(t@, v@.len() as int),
                1 <= k <= t@.len(),
                self.gpu_count == t0.gpu_count,
                self@.matrix == t0.matrix,
                (row@, self@.cpu_affinity, self@.numa_affinity) == row_cells(t0, toks, k as int),
                cpu_before <= self.cpu_affinity@.len(),
                numa_before <= self.numa_affinity@.len(),
                self.cpu_affinity@.take(cpu_before as int) == cpu0,
                self.numa_affinity@.take(numa_before as int) == numa0,
                views(cpu0) == t0.cpu_affinity,
                views(numa0) == t0.numa_affinity,
            decreases t@.len() - k,
        {
            let (x, y) = t[k];
            assert(pieces(v@, t@)[k as int] == v@.subrange(x as int, y as int));
            let ghost before = (row@, self@.cpu_affinity, self@.numa_affinity);
            match link_in(v, x, y) {
                Some(l) => {
                    row.push(Some(l));
                },
                None => {
                    if k <= self.gpu_count {
                        row.push(None);
                    } else if self.cpu_affinity.len() <= self.matrix.len() {
                        let s = string_of_span(text, x, y);
                        let ghost old_cpu = self.cpu_affinity@;
                        self.cpu_affinity.push(s);
                        assert(views(self.cpu_affinity@) =~= views(old_cpu).push(s@));
                        assert(self.cpu_affinity@.take(cpu_before as int) =~= old_cpu.take(
                            cpu_before as int,
                        ));
                    } else if self.numa_affinity.len() <= self.matrix.len() {
                        let s = string_of_span(text, x, y);
                        let ghost old_numa = self.numa_affinity@;
                        self.numa_affinity.push(s);
                        assert(views(self.numa_affinity@) =~= views(old_numa).push(s@));
                        assert(self.numa_affinity@.take(numa_before as int) =~= old_numa.take(
                            numa_before as int,
                        ));
                    }
                },
            }
            k += 1;
        }
        if row.len() > 0 {
            if row.len() > self.gpu_count {
                self.gpu_count = row.len();
            }
            let ghost old_m = self.matrix@;
            self.matrix.push(row);
            assert(self@.matrix =~= t0.matrix.push(row@)) by {
                assert(old_m.len() == t0.matrix.len());
            }
        } else {
            self.cpu_affinity.truncate(cpu_before);
            self.numa_affinity.truncate(numa_before);
        }
    }
}

/// The affinity lists are no longer than the matrix, and every row has a
/// cell and is no wider than the device count.
pub open spec fn well_shaped(t: TopologyView) -> bool {
    &&& t.cpu_affinity.len() <= t.matrix.len()
    &&& t.numa_affinity.len() <= t.matrix.len()
    &&& forall|i: int|
        0 <= i < t.matrix.len() ==> 0 < (#[trigger] t.matrix[i]).len() <= t.gpu_count
}

proof fn lemma_row_cells_bound(t: TopologyView, toks: Seq<Seq<char>>, n: int)
    requires
        t.cpu_affinity.len() <= t.matrix.len(),
        t.numa_affinity.len() <= t.matrix.len(),
    ensures
        row_cells(t, toks, n).1.len() <= t.matrix.len() + 1,
        row_cells(t, toks, n).2.len() <= t.matrix.len() + 1,
    decreases n,
{
    if n > 1 {
        lemma_row_cells_bound(t, toks, n - 1);
    }
}

proof fn lemma_topo_rows_shaped(ls: Seq<Seq<char>>, lo: int, j: int)
    ensures
        well_shaped(topo_rows(ls, lo, j)),
    decreases j - lo,
{
    if j > lo {
        lemma_topo_rows_shaped(ls, lo, j - 1);
        let t = topo_rows(ls, lo, j - 1);
        let toks = split_ws(ls[j - 1]);
        if has_prefix(ls[j - 1], "GPU"@) && toks.len() > 0 && has_prefix(toks[0], "GPU"@) {
            lemma_row_cells_bound(t, toks, toks.len() as int);
            let n = topo_line(t, ls[j - 1]);
            assert forall|i: int| 0 <= i < n.matrix.len() implies 0 < (
            #[trigger] n.matrix[i]).len() <= n.gpu_count by {
                if i < t.matrix.len() {
                    assert(n.matrix[i] == t.matrix[i]);
                }
            }
        }
    } else {
        assert(empty_topology().matrix.len() == 0);
    }
}

/// A parsed topology is well shaped: no affinity without its row, no row
/// without a cell, no row wider than the device count.
pub proof fn lemma_topology_well_shaped(s: Seq<char>)
    ensures
        well_shaped(topology_of(s)),
{
    let ls = lines(s);
    let lo = block_start(ls, 0);
    if lo < ls.len() {
        lemma_topo_rows_shaped(ls, lo, block_end(ls, lo));
    }
}

} // verus!
