//! The consumer of the message stream: it applies each message to the store,
//! keeps the most recent error, and tracks what the operator looks at.
use vstd::prelude::*;
use vstd::string::*;
use crate::parser::{views, ComputeApp, GpuInfo, GpuSample, ProcessSample, ProcessSystemInfo};
use crate::store::{
    after_process_sample, after_sample, merged_info, sys_map_of, DataStore, StoreView,
};
use crate::topology::GpuTopology;

verus! {

/// The main views.
#[derive(Debug, Clone, Copy, PartialEq, Eq, Structural)]
pub enum ViewMode {
    Dashboard,
    Charts,
}

pub open spec fn view_mode_name(m: ViewMode) -> Seq<char> {
    match m {
        ViewMode::Dashboard => "Dashboard"@,
        ViewMode::Charts => "Charts"@,
    }
}

pub open spec fn next_mode(m: ViewMode) -> ViewMode {
    match m {
        ViewMode::Dashboard => ViewMode::Charts,
        ViewMode::Charts => ViewMode::Dashboard,
    }
}

impl ViewMode {
    pub fn name(&self) -> (r: &'static str)
        ensures
            r@ == view_mode_name(*self),
    {
        match self {
            ViewMode::Dashboard => "Dashboard",
            ViewMode::Charts => "Charts",
        }
    }

    /// Every view, in tab order.
    pub fn all() -> (r: Vec<ViewMode>)
        ensures
            r@ == seq![ViewMode::Dashboard, ViewMode::Charts],
    {
        let mut v: Vec<ViewMode> = Vec::new();
        v.push(ViewMode::Dashboard);
        v.push(ViewMode::Charts);
        assert(v@ =~= seq![ViewMode::Dashboard, ViewMode::Charts]);
        v
    }

    /// The view after this one in tab order, wrapping around.
    pub fn next(&self) -> (r: Self)
        ensures
            r == next_mode(*self),
    {
        match self {
            ViewMode::Dashboard => ViewMode::Charts,
            ViewMode::Charts => ViewMode::Dashboard,
        }
    }
}

/// The panel drawn over the main view, if any.
#[derive(Debug, Clone, Copy, PartialEq, Eq, Structural)]
pub enum Overlay {
    Hidden,
    Info,
    Topology,
}

/// The keys that the operator's input is reduced to.
#[derive(Debug, Clone, Copy, PartialEq, Eq, Structural)]
pub enum Key {
    Esc,
    Enter,
    Tab,
    Up,
    Down,
    Char(char),
    Other,
}

/// A message of the merged stream.
#[derive(Debug)]
pub enum NvidiaMessage {
    GpuSample(GpuSample),
    ProcessSample(ProcessSample),
    GpuInfo(Vec<GpuInfo>),
    ComputeApps(Vec<ComputeApp>),
    ProcessSystemInfo(Vec<ProcessSystemInfo>),
    Error(String),
    Exited(String),
}

/// The consumer's state.
pub struct App {
    data: DataStore,
    view_mode: ViewMode,
    overlay: Overlay,
    selected_gpu: usize,
    error: Option<String>,
    should_quit: bool,
}

pub struct AppView {
    pub data: StoreView,
    pub view_mode: ViewMode,
    pub overlay: Overlay,
    pub selected_gpu: nat,
    /// The most recent error.
    pub error: Option<Seq<char>>,
    pub should_quit: bool,
}

pub open spec fn error_view(e: Option<String>) -> Option<Seq<char>> {
    match e {
        Some(s) => Some(s@),
        None => None,
    }
}

impl View for App {
    type V = AppView;

    closed spec fn view(&self) -> AppView {
        AppView {
            data: self.data@,
            view_mode: self.view_mode,
            overlay: self.overlay,
            selected_gpu: self.selected_gpu as nat,
            error: error_view(self.error),
            should_quit: self.should_quit,
        }
    }
}

/// The state after key `k`, for a store of `devices` devices, and whether
/// the operator asked to quit. While an overlay is open, Esc and Enter close
/// it, `i` and `t` toggle theirs and `q` quits. Otherwise `q` and Esc quit,
/// Tab cycles the view, Up/`k` and Down/`j` move the device selection within
/// range, `1` and `2` pick a view, and `i` and `t` open an overlay.
pub open spec fn key_step(s: AppView, devices: nat, k: Key) -> (AppView, bool) {
    if s.overlay != Overlay::Hidden {
        match k {
            Key::Esc | Key::Enter => (AppView { overlay: Overlay::Hidden, ..s }, false),
            Key::Char('i') => (AppView {
                overlay: if s.overlay == Overlay::Info {
                    Overlay::Hidden
                } else {
                    Overlay::Info
                },
                ..s
            }, false),
            Key::Char('t') => (AppView {
                overlay: if s.overlay == Overlay::Topology {
                    Overlay::Hidden
                } else {
                    Overlay::Topology
                },
                ..s
            }, false),
            Key::Char('q') => (AppView { should_quit: true, ..s }, true),
            _ => (s, false),
        }
    } else {
        match k {
            Key::Char('q') | Key::Esc => (AppView { should_quit: true, ..s }, true),
            Key::Tab => (AppView { view_mode: next_mode(s.view_mode), ..s }, false),
            Key::Up | Key::Char('k') => (AppView {
                selected_gpu: if s.selected_gpu > 0 {
                    (s.selected_gpu - 1) as nat
                } else {
                    s.selected_gpu
                },
                ..s
            }, false),
            Key::Down | Key::Char('j') => (AppView {
                selected_gpu: if s.selected_gpu + 1 < devices {
                    s.selected_gpu + 1
                } else {
                    s.selected_gpu
                },
                ..s
            }, false),
            Key::Char('1') => (AppView { view_mode: ViewMode::Dashboard, ..s }, false),
            Key::Char('2') => (AppView { view_mode: ViewMode::Charts, ..s }, false),
            Key::Char('i') => (AppView { overlay: Overlay::Info, ..s }, false),
            Key::Char('t') => (AppView { overlay: Overlay::Topology, ..s }, false),
            _ => (s, false),
        }
    }
}

impl App {
    pub closed spec fn wf(&self) -> bool {
        self.data.wf()
    }

    pub fn new(history_seconds: u64, now: u64) -> (r: Self)
        ensures
            r.wf(),
            r@.data.gpus.dom().len() == 0,
            r@.data.capacity == history_seconds as usize as nat,
            r@.data.start_time == now,
            r@.view_mode == ViewMode::Dashboard,
            r@.overlay == Overlay::Hidden,
            r@.selected_gpu == 0,
            r@.error is None,
            !r@.should_quit,
    {
        let data = DataStore::new(history_seconds, now);
        App {
            data,
            view_mode: ViewMode::Dashboard,
            overlay: Overlay::Hidden,
            selected_gpu: 0,
            error: None,
            should_quit: false,
        }
    }

    /// Applies one message received at `now`: samples and batches go to the
    /// store; a device sample clears the error; an error or an exit becomes
    /// the error.
    pub fn apply_message(&mut self, msg: NvidiaMessage, now: u64)
        requires
            old(self).wf(),
        ensures
            final(self).wf(),
            final(self)@.view_mode == old(self)@.view_mode,
            final(self)@.overlay == old(self)@.overlay,
            final(self)@.selected_gpu == old(self)@.selected_gpu,
            final(self)@.should_quit == old(self)@.should_quit,
            match msg {
                NvidiaMessage::GpuSample(s) => final(self)@.data == after_sample(
                    old(self)@.data,
                    s,
                    now,
                ) && final(self)@.error is None,
                NvidiaMessage::ProcessSample(p) => final(self)@.data == after_process_sample(
                    old(self)@.data,
                    p@,
                    now,
                ) && final(self)@.error == old(self)@.error,
                NvidiaMessage::GpuInfo(v) => final(self)@.data == (StoreView {
                    gpu_info: merged_info(old(self)@.data.gpu_info, views(v@)),
                    ..old(self)@.data
                }) && final(self)@.error == old(self)@.error,
                NvidiaMessage::ComputeApps(v) => final(self)@.data == (StoreView {
                    compute_apps: views(v@),
                    ..old(self)@.data
                }) && final(self)@.error == old(self)@.error,
                NvidiaMessage::ProcessSystemInfo(v) => final(self)@.data == (StoreView {
                    sys_info: sys_map_of(views(v@)),
                    ..old(self)@.data
                }) && final(self)@.error == old(self)@.error,
                NvidiaMessage::Error(e) => final(self)@.data == old(self)@.data
                    && final(self)@.error == Some(e@),
                NvidiaMessage::Exited(w) => final(self)@.data == old(self)@.data
                    && final(self)@.error == Some(w@ + " exited"@),
            },
    {
        match msg {
            NvidiaMessage::GpuSample(s) => {
                self.data.add_sample(s, now);
                self.error = None;
            },
            NvidiaMessage::ProcessSample(p) => {
                self.data.add_process_sample(p, now);
            },
            NvidiaMessage::GpuInfo(v) => {
                self.data.update_gpu_info(v);
            },
            NvidiaMessage::ComputeApps(v) => {
                self.data.update_compute_apps(v);
            },
            NvidiaMessage::ProcessSystemInfo(v) => {
                self.data.update_process_sys_info(v);
            },
            NvidiaMessage::Error(e) => {
                self.error = Some(e);
            },
            NvidiaMessage::Exited(w) => {
                let mut m = w;
                m.append(" exited");
                self.error = Some(m);
            },
        }
    }

    /// Applies key `k`; the result says whether the operator asked to quit.
    pub fn handle_key(&mut self, k: Key) -> (r: bool)
        requires
            old(self).wf(),
        ensures
            final(self).wf(),
            (final(self)@, r) == key_step(old(self)@, old(self)@.data.gpus.dom().len(), k),
    {
        if self.overlay != Overlay::Hidden {
            match k {
                Key::Esc | Key::Enter => {
                    self.overlay = Overlay::Hidden;
                },
                Key::Char('i') => {
                    self.overlay = if self.overlay == Overlay::Info {
                        Overlay::Hidden
                    } else {
                        Overlay::Info
                    };
                },
                Key::Char('t') => {
                    self.overlay = if self.overlay == Overlay::Topology {
                        Overlay::Hidden
                    } else {
                        Overlay::Topology
                    };
                },
                Key::Char('q') => {
                    self.should_quit = true;
                    return true;
                },
                _ => {},
            }
            return false;
        }
        match k {
            Key::Char('q') | Key::Esc => {
                self.should_quit = true;
                return true;
            },
            Key::Tab => {
                self.view_mode = self.view_mode.next();
            },
            Key::Up | Key::Char('k') => {
                if self.selected_gpu > 0 {
                    self.selected_gpu -= 1;
                }
            },
            Key::Down | Key::Char('j') => {
                let devices: usize = self.data.gpu_indices().len();
                if devices > 0 && self.selected_gpu < devices - 1 {
                    self.selected_gpu += 1;
                }
            },
            Key::Char('1') => {
                self.view_mode = ViewMode::Dashboard;
            },
            Key::Char('2') => {
                self.view_mode = ViewMode::Charts;
            },
            Key::Char('i') => {
                self.overlay = Overlay::Info;
            },
            Key::Char('t') => {
                self.overlay = Overlay::Topology;
            },
            _ => {},
        }
        false
    }

    /// Records an error that a source reported outside the message stream.
    pub fn set_error(&mut self, e: String)
        requires
            old(self).wf(),
        ensures
            final(self).wf(),
            final(self)@ == (AppView { error: Some(e@), ..old(self)@ }),
    {
        self.error = Some(e);
    }

    /// Installs the topology queried at start-up.
    pub fn set_topology(&mut self, t: GpuTopology)
        requires
            old(self).wf(),
        ensures
            final(self).wf(),
            final(self)@ == (AppView {
                data: StoreView { topology: Some(t@), ..old(self)@.data },
                ..old(self)@
            }),
    {
        self.data.set_topology(t);
    }

    pub fn data(&self) -> (r: &DataStore)
        requires
            self.wf(),
        ensures
            r.wf(),
            r@ == self@.data,
    {
        &self.data
    }

    pub fn view_mode(&self) -> (r: ViewMode)
        ensures
            r == self@.view_mode,
    {
        self.view_mode
    }

    pub fn overlay(&self) -> (r: Overlay)
        ensures
            r == self@.overlay,
    {
        self.overlay
    }

    pub fn selected_gpu(&self) -> (r: usize)
        ensures
            r == self@.selected_gpu,
    {
        self.selected_gpu
    }

    pub fn error(&self) -> (r: Option<&String>)
        ensures
            match r {
                Some(e) => self@.error == Some(e@),
                None => self@.error is None,
            },
    {
        match &self.error {
            Some(e) => Some(e),
            None => None,
        }
    }

    pub fn should_quit(&self) -> (r: bool)
        ensures
            r == self@.should_quit,
    {
        self.should_quit
    }
}

} // verus!
