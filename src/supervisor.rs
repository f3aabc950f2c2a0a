//! What the supervisor decides between its reads: which message a line of a
//! streaming source becomes, when a source stops, and what the periodic
//! process query asks for.
use vstd::prelude::*;
use vstd::string::*;
use crate::app::NvidiaMessage;
use crate::format::{decimal, push_decimal};
use crate::parser::{device_sample_of, process_sample_of, ComputeApp, GpuSample, ProcessSample};

verus! {

/// The two streaming sources.
#[derive(Debug, Clone, Copy, PartialEq, Eq, Structural)]
pub enum StreamSource {
    /// The device monitor.
    Dmon,
    /// The process monitor.
    Pmon,
}

pub open spec fn source_name(s: StreamSource) -> Seq<char> {
    match s {
        StreamSource::Dmon => "dmon"@,
        StreamSource::Pmon => "pmon"@,
    }
}

impl StreamSource {
    pub fn name(&self) -> (r: &'static str)
        ensures
            r@ == source_name(*self),
    {
        match self {
            StreamSource::Dmon => "dmon",
            StreamSource::Pmon => "pmon",
        }
    }
}

/// What reading a streaming source's output gave.
#[derive(Debug)]
pub enum StreamEvent {
    /// One line.
    Line(String),
    /// The end of the output.
    End,
    /// A read error, with its text.
    Failed(String),
}

/// What to do after an event: the message to send, if any, and whether the
/// source is done for good.
#[derive(Debug)]
pub struct StreamStep {
    pub message: Option<NvidiaMessage>,
    pub stop: bool,
}

/// A line becomes the record its source's parser reads from it, or nothing;
/// the end of the output becomes `Exited` and a read error becomes `Error`,
/// and either stops the source.
pub fn stream_step(source: StreamSource, event: StreamEvent) -> (r: StreamStep)
    ensures
        match event {
            StreamEvent::Line(l) => !r.stop && match source {
                StreamSource::Dmon => match r.message {
                    Some(NvidiaMessage::GpuSample(s)) => device_sample_of(l@) == Some(s),
                    None => device_sample_of(l@) is None,
                    _ => false,
                },
                StreamSource::Pmon => match r.message {
                    Some(NvidiaMessage::ProcessSample(p)) => process_sample_of(l@) == Some(p@),
                    None => process_sample_of(l@) is None,
                    _ => false,
                },
            },
            StreamEvent::End => r.stop && match r.message {
                Some(NvidiaMessage::Exited(w)) => w@ == source_name(source),
                _ => false,
            },
            StreamEvent::Failed(e) => r.stop && match r.message {
                Some(NvidiaMessage::Error(m)) => m@ == source_name(source) + ": "@ + e@,
                _ => false,
            },
        },
{
    match event {
        StreamEvent::Line(l) => {
            let message = match source {
                StreamSource::Dmon => match GpuSample::parse_line(&l) {
                    Some(s) => Some(NvidiaMessage::GpuSample(s)),
                    None => None,
                },
                StreamSource::Pmon => match ProcessSample::parse_line(&l) {
                    Some(p) => Some(NvidiaMessage::ProcessSample(p)),
                    None => None,
                },
            };
            StreamStep { message, stop: false }
        },
        StreamEvent::End => {
            let w = String::from_str(source.name());
            StreamStep { message: Some(NvidiaMessage::Exited(w)), stop: true }
        },
        StreamEvent::Failed(e) => {
            let mut m = String::from_str(source.name());
            m.append(": ");
            m.append(e.as_str());
            StreamStep { message: Some(NvidiaMessage::Error(m)), stop: true }
        },
    }
}

/// The distinct values of `s`, in order of first appearance.
pub open spec fn distinct(s: Seq<u32>) -> Seq<u32>
    decreases s.len(),
{
    if s.len() == 0 {
        Seq::empty()
    } else {
        let d = distinct(s.drop_last());
        if d.contains(s.last()) {
            d
        } else {
            d.push(s.last())
        }
    }
}

pub open spec fn app_pids(apps: Seq<ComputeApp>) -> Seq<u32> {
    Seq::new(apps.len(), |i: int| apps[i].pid)
}

/// The pids of `apps`, each once.
pub fn unique_pids(apps: &Vec<ComputeApp>) -> (r: Vec<u32>)
    ensures
        r@ == distinct(app_pids(apps@)),
{
    let ghost all = app_pids(apps@);
    let mut out: Vec<u32> = Vec::new();
    let mut i: usize = 0;
    assert(all.take(0) =~= Seq::<u32>::empty());
    while i < apps.len()
        invariant
            all == app_pids(apps@),
            i <= apps@.len(),
            out@ == distinct(all.take(i as int)),
        decreases apps@.len() - i,
    {
        let pid = apps[i].pid;
        let mut seen = false;
        let mut k: usize = 0;
        while k < out.len()
            invariant
                k <= out@.len(),
                seen == exists|t: int| 0 <= t < k && out@[t] == pid,
            decreases out@.len() - k,
        {
            if out[k] == pid {
                seen = true;
            }
            k += 1;
        }
        assert(seen == out@.contains(pid));
        assert(all.take(i + 1).drop_last() =~= all.take(i as int));
        assert(all.take(i + 1).last() == pid);
        if !seen {
            out.push(pid);
        }
        i += 1;
    }
    assert(all.take(i as int) =~= all);
    out
}

/// The pids written in decimal and joined by commas.
pub open spec fn pid_list(pids: Seq<u32>) -> Seq<char>
    decreases pids.len(),
{
    if pids.len() == 0 {
        Seq::empty()
    } else if pids.len() == 1 {
        decimal(pids[0] as nat)
    } else {
        pid_list(pids.drop_last()) + seq![','] + decimal(pids.last() as nat)
    }
}

/// The pid argument of the process-stats query, or `None` when there are no
/// pids and the query is not run (its batch is then empty).
pub fn ps_pid_argument(pids: &Vec<u32>) -> (r: Option<String>)
    ensures
        match r {
            Some(s) => pids@.len() > 0 && s@ == pid_list(pids@),
            None => pids@.len() == 0,
        },
{
    if pids.len() == 0 {
        return None;
    }
    let mut s = String::new();
    let mut i: usize = 0;
    assert(pids@.take(0) =~= Seq::<u32>::empty());
    while i < pids.len()
        invariant
            i <= pids@.len(),
            s@ == pid_list(pids@.take(i as int)),
        decreases pids@.len() - i,
    {
        let ghost next = pids@.take(i + 1);
        assert(next.drop_last() =~= pids@.take(i as int));
        if i > 0 {
            proof {
                reveal_strlit(",");
            }
            s.append(",");
        } else {
            assert(s@ =~= Seq::<char>::empty());
        }
        push_decimal(&mut s, pids[i] as u64);
        proof {
            if i == 0 {
                assert(s@ =~= decimal(pids@[0] as nat));
            } else {
                assert(s@ =~= pid_list(next.drop_last()) + seq![','] + decimal(next.last() as nat));
            }
        }
        i += 1;
    }
    assert(pids@.take(i as int) =~= pids@);
    Some(s)
}

} // verus!
