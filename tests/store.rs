use nvidiagpu_top::app::{App, Key, NvidiaMessage, Overlay, ViewMode};
use nvidiagpu_top::format::{decimal_string, fmt_val, format_duration};
use nvidiagpu_top::history::{GpuHistory, Metric};
use nvidiagpu_top::parser::{ComputeApp, GpuInfo, GpuSample, ProcessSample, ProcessSystemInfo};
use nvidiagpu_top::store::DataStore;
use nvidiagpu_top::supervisor::{ps_pid_argument, stream_step, unique_pids, StreamEvent, StreamSource};
use nvidiagpu_top::topology::{GpuLink, GpuTopology};

fn sample(idx: u32, sm: u32) -> GpuSample {
    GpuSample { gpu_idx: idx, sm_util: Some(sm), ..GpuSample::default() }
}

fn process(gpu: u32, pid: u32, sm: Option<u32>) -> ProcessSample {
    ProcessSample {
        gpu_idx: gpu,
        pid,
        process_type: "C".to_string(),
        sm_util: sm,
        mem_util: None,
        enc_util: None,
        dec_util: None,
        command: "cmd".to_string(),
    }
}

fn sys(pid: u32, cpu: u64, rss_kb: u64, elapsed: &str) -> ProcessSystemInfo {
    ProcessSystemInfo { pid, cpu_milli_percent: cpu, rss_kb, elapsed: elapsed.to_string() }
}

fn app_row(pid: u32, uuid: &str, vram: u64, name: &str) -> ComputeApp {
    ComputeApp { pid, name: name.to_string(), gpu_uuid: uuid.to_string(), vram_used_mib: vram }
}

fn info(index: u32, uuid: &str) -> GpuInfo {
    GpuInfo { index, uuid: uuid.to_string(), ..GpuInfo::default() }
}

#[test]
fn ring_buffer_keeps_last_capacity() {
    let cap = 3;
    let mut h = GpuHistory::new(cap);
    for k in 0..(cap as u32 + 4) {
        h.push(sample(0, k), k as u64);
    }
    assert_eq!(h.len(), cap);
    let vals = h.recent_values(100, Metric::SmUtil);
    assert_eq!(vals, vec![4, 5, 6]);
    assert_eq!(h.latest().unwrap().sm_util, Some(6));
}

#[test]
fn ring_buffer_zero_capacity_stays_empty() {
    let mut h = GpuHistory::new(0);
    h.push(sample(0, 1), 0);
    assert!(h.is_empty());
    assert!(h.latest().is_none());
}

#[test]
fn history_recent_values_and_chart() {
    let mut h = GpuHistory::new(10);
    h.push(sample(0, 10), 1000);
    h.push(GpuSample { gpu_idx: 0, ..GpuSample::default() }, 2000);
    h.push(sample(0, 30), 3000);
    assert_eq!(h.recent_values(2, Metric::SmUtil), vec![30]);
    assert_eq!(h.recent_values(3, Metric::SmUtil), vec![10, 30]);
    assert_eq!(h.recent_values(3, Metric::Power), Vec::<u32>::new());
    assert_eq!(h.chart_data(Metric::SmUtil, 3500), vec![(2500, 10), (500, 30)]);
    assert_eq!(Metric::GpuClock.of(&GpuSample { gpu_clock_mhz: Some(9), ..GpuSample::default() }), Some(9));
}

#[test]
fn store_counts_and_indexes_devices() {
    let mut s = DataStore::new(2, 100);
    s.add_sample(sample(3, 1), 100);
    s.add_sample(sample(1, 2), 110);
    s.add_sample(sample(3, 3), 120);
    s.add_sample(sample(3, 4), 130);
    assert_eq!(s.total_samples(), 4);
    assert_eq!(s.gpu_indices(), vec![1, 3]);
    let h = s.get_gpu(3).unwrap();
    assert_eq!(h.len(), 2);
    assert_eq!(h.recent_values(5, Metric::SmUtil), vec![3, 4]);
    assert!(s.get_gpu(2).is_none());
    assert_eq!(s.uptime(1100), 1000);
    assert_eq!(s.uptime(50), 0);
}

#[test]
fn stale_process_samples_are_dropped() {
    let mut s = DataStore::new(10, 0);
    s.add_process_sample(process(0, 10, Some(1)), 1000);
    s.add_process_sample(process(0, 11, Some(2)), 5999);
    assert_eq!(s.get_processes(5999).len(), 2);
    s.add_process_sample(process(1, 12, Some(3)), 6000);
    let procs = s.get_processes(6000);
    assert_eq!(procs.len(), 2);
    assert_eq!(procs[0].sample.pid, 11);
    assert_eq!(procs[1].sample.pid, 12);
    // refreshing keeps a sample alive
    s.add_process_sample(process(0, 11, Some(4)), 10000);
    s.add_process_sample(process(1, 12, Some(5)), 10999);
    let procs = s.get_processes(10999);
    assert_eq!(procs.len(), 2);
    assert_eq!(procs[0].sample.sm_util, Some(4));
}

#[test]
fn process_samples_sorted_by_device_then_pid() {
    let mut s = DataStore::new(10, 0);
    s.add_process_sample(process(1, 5, None), 0);
    s.add_process_sample(process(0, 9, None), 0);
    s.add_process_sample(process(0, 3, None), 0);
    let keys: Vec<(u32, u32)> = s.get_processes(0).iter().map(|p| (p.sample.gpu_idx, p.sample.pid)).collect();
    assert_eq!(keys, vec![(0, 3), (0, 9), (1, 5)]);
}

#[test]
fn sys_info_batches_replace() {
    let mut s = DataStore::new(10, 0);
    s.update_compute_apps(vec![app_row(1, "GPU-a", 1, "a"), app_row(2, "GPU-a", 1, "b"), app_row(3, "GPU-a", 1, "c")]);
    s.update_process_sys_info(vec![sys(1, 1000, 1024, "x"), sys(2, 2000, 2048, "y")]);
    s.update_process_sys_info(vec![sys(2, 3000, 4096, "z"), sys(3, 4000, 8192, "w")]);
    let rows = s.get_enriched_processes(0);
    let by_pid = |pid: u32| rows.iter().find(|r| r.pid == pid).unwrap();
    assert_eq!(by_pid(1).cpu_milli_percent, None);
    assert_eq!(by_pid(1).rss_mb, None);
    assert_eq!(by_pid(1).elapsed, None);
    assert_eq!(by_pid(2).cpu_milli_percent, Some(3000));
    assert_eq!(by_pid(2).rss_mb, Some(4));
    assert_eq!(by_pid(3).elapsed.as_deref(), Some("w"));
}

#[test]
fn join_example() {
    let mut s = DataStore::new(10, 0);
    s.update_compute_apps(vec![app_row(100, "GPU-aaa", 512, "/opt/bin/llama-server")]);
    s.update_gpu_info(vec![info(1, "GPU-aaa")]);
    s.add_process_sample(process(1, 100, Some(42)), 0);
    s.update_process_sys_info(vec![sys(100, 3500, 204800, "00:10:00")]);
    let rows = s.get_enriched_processes(0);
    assert_eq!(rows.len(), 1);
    let r = &rows[0];
    assert_eq!(r.pid, 100);
    assert_eq!(r.gpu_idx, 1);
    assert!(r.gpu_resolved);
    assert_eq!(r.vram_mib, 512);
    assert_eq!(r.sm_util, Some(42));
    assert_eq!(r.cpu_milli_percent, Some(3500));
    assert_eq!(r.rss_mb, Some(200));
    assert_eq!(r.elapsed.as_deref(), Some("00:10:00"));
    assert_eq!(r.command, "llama-server");
}

#[test]
fn join_unknown_uuid_falls_back_to_device_zero() {
    let mut s = DataStore::new(10, 0);
    s.update_compute_apps(vec![app_row(7, "GPU-zzz", 10, "tool")]);
    s.add_process_sample(process(0, 7, Some(9)), 0);
    let rows = s.get_enriched_processes(0);
    assert_eq!(rows[0].gpu_idx, 0);
    assert!(!rows[0].gpu_resolved);
    assert_eq!(rows[0].sm_util, Some(9));
    assert_eq!(rows[0].cpu_milli_percent, None);
    assert_eq!(rows[0].command, "tool");
}

#[test]
fn join_sorted_by_device_then_vram_descending() {
    let mut s = DataStore::new(10, 0);
    s.update_gpu_info(vec![info(0, "GPU-0"), info(1, "GPU-1")]);
    s.update_compute_apps(vec![
        app_row(1, "GPU-1", 100, "a"),
        app_row(2, "GPU-0", 50, "b"),
        app_row(3, "GPU-0", 300, "c"),
        app_row(4, "GPU-1", 100, "d"),
        app_row(5, "GPU-0", 50, "e"),
    ]);
    let pids: Vec<u32> = s.get_enriched_processes(0).iter().map(|r| r.pid).collect();
    assert_eq!(pids, vec![3, 2, 5, 1, 4]);
}

#[test]
fn gpu_info_merges_per_index() {
    let mut s = DataStore::new(10, 0);
    s.update_gpu_info(vec![info(0, "GPU-0"), info(1, "GPU-1")]);
    s.update_gpu_info(vec![info(1, "GPU-x")]);
    assert_eq!(s.get_gpu_info(0).unwrap().uuid, "GPU-0");
    assert_eq!(s.get_gpu_info(1).unwrap().uuid, "GPU-x");
    assert!(s.get_gpu_info(2).is_none());
    let all: Vec<u32> = s.all_gpu_info().iter().map(|g| g.index).collect();
    assert_eq!(all, vec![0, 1]);
}

#[test]
fn topology_two_devices() {
    let text = "\tGPU0\tGPU1\tCPU Affinity\tNUMA Affinity\n\
                GPU0\t X \tPIX\t0-15\t0\n\
                GPU1\tPIX\t X \t0-15\t0\n\
                \n\
                Legend:\n\
                  X    = Self\n";
    let t = GpuTopology::parse(text);
    assert_eq!(t.gpu_count, 2);
    assert_eq!(t.matrix.len(), 2);
    assert_eq!(t.matrix[0], vec![Some(GpuLink::Self_), Some(GpuLink::PIX)]);
    assert_eq!(t.matrix[1], vec![Some(GpuLink::PIX), Some(GpuLink::Self_)]);
    assert_eq!(t.cpu_affinity, vec!["0-15".to_string(), "0-15".to_string()]);
    assert_eq!(t.numa_affinity, vec!["0".to_string(), "0".to_string()]);
}

#[test]
fn topology_links_and_missing_block() {
    assert_eq!(GpuLink::from_str(" NV4 "), Some(GpuLink::NVLink(4)));
    assert_eq!(GpuLink::from_str("NV"), None);
    assert_eq!(GpuLink::from_str("SYS"), Some(GpuLink::SYS));
    assert_eq!(GpuLink::from_str("NODE"), Some(GpuLink::NODE));
    assert_eq!(GpuLink::from_str("PXB"), Some(GpuLink::PXB));
    assert_eq!(GpuLink::from_str("PHB"), Some(GpuLink::PHB));
    assert_eq!(GpuLink::from_str("N/A"), None);
    assert_eq!(GpuLink::NVLink(2).description(), "NVLink x2");
    assert_eq!(GpuLink::NVLink(12).description(), "NVLink");
    assert_eq!(GpuLink::PIX.description(), "Single PCIe bridge (fast)");
    let t = GpuTopology::parse("no topology here\n");
    assert_eq!(t.gpu_count, 0);
    assert!(t.matrix.is_empty());
    let mut u = GpuTopology::parse("");
    u.parse_topo_line("GPU0 X NV2 0-7 0");
    assert_eq!(u.matrix[0], vec![Some(GpuLink::Self_), Some(GpuLink::NVLink(2))]);
    assert_eq!(u.cpu_affinity, vec!["0-7".to_string()]);
}

#[test]
fn app_messages_and_error_slot() {
    let mut app = App::new(10, 0);
    app.apply_message(NvidiaMessage::Exited("dmon".to_string()), 1);
    assert_eq!(app.error().unwrap(), "dmon exited");
    app.apply_message(NvidiaMessage::GpuSample(sample(0, 5)), 2);
    assert!(app.error().is_none());
    assert_eq!(app.data().total_samples(), 1);
    app.apply_message(NvidiaMessage::Error("pmon: broken pipe".to_string()), 3);
    assert_eq!(app.error().unwrap(), "pmon: broken pipe");
    app.apply_message(NvidiaMessage::ComputeApps(vec![app_row(1, "GPU-a", 1, "a")]), 4);
    app.apply_message(NvidiaMessage::GpuInfo(vec![info(0, "GPU-a")]), 5);
    app.apply_message(NvidiaMessage::ProcessSystemInfo(vec![sys(1, 1, 1, "t")]), 6);
    app.apply_message(NvidiaMessage::ProcessSample(process(0, 1, Some(3))), 7);
    let rows = app.data().get_enriched_processes(0);
    assert_eq!(rows[0].sm_util, Some(3));
    assert_eq!(rows[0].elapsed.as_deref(), Some("t"));
}

#[test]
fn app_keys() {
    let mut app = App::new(10, 0);
    assert_eq!(app.view_mode(), ViewMode::Dashboard);
    assert!(!app.handle_key(Key::Tab));
    assert_eq!(app.view_mode(), ViewMode::Charts);
    assert_eq!(app.view_mode().name(), "Charts");
    assert!(!app.handle_key(Key::Char('1')));
    assert_eq!(app.view_mode(), ViewMode::Dashboard);
    // selection stays within the devices
    assert!(!app.handle_key(Key::Down));
    assert_eq!(app.selected_gpu(), 0);
    app.apply_message(NvidiaMessage::GpuSample(sample(0, 1)), 0);
    app.apply_message(NvidiaMessage::GpuSample(sample(1, 1)), 0);
    app.handle_key(Key::Char('j'));
    app.handle_key(Key::Down);
    assert_eq!(app.selected_gpu(), 1);
    app.handle_key(Key::Up);
    app.handle_key(Key::Char('k'));
    assert_eq!(app.selected_gpu(), 0);
    // overlays
    app.handle_key(Key::Char('i'));
    assert_eq!(app.overlay(), Overlay::Info);
    app.handle_key(Key::Char('t'));
    assert_eq!(app.overlay(), Overlay::Topology);
    app.handle_key(Key::Char('t'));
    assert_eq!(app.overlay(), Overlay::Hidden);
    app.handle_key(Key::Char('i'));
    assert!(!app.handle_key(Key::Esc));
    assert_eq!(app.overlay(), Overlay::Hidden);
    assert!(app.handle_key(Key::Char('q')));
    assert!(app.should_quit());
    assert_eq!(ViewMode::all(), vec![ViewMode::Dashboard, ViewMode::Charts]);
    assert_eq!(ViewMode::Charts.next(), ViewMode::Dashboard);
}

#[test]
fn stream_steps() {
    let s = stream_step(StreamSource::Dmon, StreamEvent::Line("0 1 2 3 4 5 6 7 8 9 10 11".to_string()));
    assert!(!s.stop);
    assert!(matches!(s.message, Some(NvidiaMessage::GpuSample(g)) if g.power_w == Some(1)));
    let s = stream_step(StreamSource::Pmon, StreamEvent::Line("# header".to_string()));
    assert!(!s.stop);
    assert!(s.message.is_none());
    let s = stream_step(StreamSource::Pmon, StreamEvent::End);
    assert!(s.stop);
    assert!(matches!(s.message, Some(NvidiaMessage::Exited(ref w)) if w == "pmon"));
    let s = stream_step(StreamSource::Dmon, StreamEvent::Failed("boom".to_string()));
    assert!(s.stop);
    assert!(matches!(s.message, Some(NvidiaMessage::Error(ref m)) if m == "dmon: boom"));
}

#[test]
fn periodic_pid_query() {
    let apps = vec![app_row(5, "a", 1, "x"), app_row(3, "a", 1, "y"), app_row(5, "b", 1, "z")];
    let pids = unique_pids(&apps);
    assert_eq!(pids, vec![5, 3]);
    assert_eq!(ps_pid_argument(&pids), Some("5,3".to_string()));
    assert_eq!(ps_pid_argument(&vec![]), None);
    assert_eq!(ps_pid_argument(&vec![4294967295]), Some("4294967295".to_string()));
}

#[test]
fn formatting() {
    assert_eq!(decimal_string(0), "0");
    assert_eq!(decimal_string(1200), "1200");
    assert_eq!(fmt_val(Some(69), "W"), "69W");
    assert_eq!(fmt_val(None, "W"), "-");
    assert_eq!(format_duration(59), "59s");
    assert_eq!(format_duration(60), "1m 0s");
    assert_eq!(format_duration(3599), "59m 59s");
    assert_eq!(format_duration(3600 * 2 + 5 * 60 + 9), "2h 5m");
}

#[test]
fn stale_sample_absent_at_query_time_without_insertion() {
    let mut s = DataStore::new(10, 0);
    s.update_compute_apps(vec![app_row(100, "GPU-aaa", 512, "x")]);
    s.update_gpu_info(vec![info(1, "GPU-aaa")]);
    s.add_process_sample(process(1, 100, Some(42)), 1000);
    assert_eq!(s.get_processes(5999).len(), 1);
    assert_eq!(s.get_enriched_processes(5999)[0].sm_util, Some(42));
    assert!(s.get_processes(6000).is_empty());
    assert_eq!(s.get_enriched_processes(6000)[0].sm_util, None);
}

#[test]
fn history_stays_time_ordered() {
    let mut s = DataStore::new(5, 0);
    s.add_sample(sample(0, 1), 3000);
    s.add_sample(sample(0, 2), 1000);
    let h = s.get_gpu(0).unwrap();
    assert_eq!(h.last_timestamp(), Some(3000));
    assert_eq!(h.chart_data(Metric::SmUtil, 4000), vec![(1000, 1), (1000, 2)]);
}

#[test]
fn topology_block_start_trims_and_stops_at_blank() {
    let t = GpuTopology::parse("\tGPU0\tGPU1\n\nGPU0\tX\n");
    assert!(t.matrix.is_empty());
    assert_eq!(t.gpu_count, 0);
    let u = GpuTopology::parse("  GPU0 X\n");
    assert!(u.matrix.is_empty());
}

#[test]
fn topology_row_without_cells_adds_no_affinity() {
    let t = GpuTopology::parse("GPU0 foo bar\n");
    assert!(t.matrix.is_empty());
    assert!(t.cpu_affinity.is_empty());
    assert!(t.numa_affinity.is_empty());
}
