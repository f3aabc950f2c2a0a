use nvidiagpu_top::parser::{ComputeApp, GpuInfo, GpuSample, ProcessSample, ProcessSystemInfo};

#[test]
fn test_parse_data_line() {
    let line = "    0     69     13      -    100     30      0      0      -      -   3615   1531";
    let sample = GpuSample::parse_line(line).unwrap();

    assert_eq!(sample.gpu_idx, 0);
    assert_eq!(sample.power_w, Some(69));
    assert_eq!(sample.gpu_temp_c, Some(13));
    assert_eq!(sample.mem_temp_c, None);
    assert_eq!(sample.sm_util, Some(100));
    assert_eq!(sample.mem_util, Some(30));
    assert_eq!(sample.enc_util, Some(0));
    assert_eq!(sample.dec_util, Some(0));
    assert_eq!(sample.jpg_util, None);
    assert_eq!(sample.ofa_util, None);
    assert_eq!(sample.mem_clock_mhz, Some(3615));
    assert_eq!(sample.gpu_clock_mhz, Some(1531));
}

#[test]
fn test_skip_header_lines() {
    assert!(GpuSample::parse_line("# gpu    pwr  gtemp  mtemp").is_none());
    assert!(GpuSample::parse_line("# Idx      W      C      C").is_none());
}

#[test]
fn test_skip_empty_lines() {
    assert!(GpuSample::parse_line("").is_none());
    assert!(GpuSample::parse_line("   ").is_none());
}

#[test]
fn device_line_unpadded_scenario() {
    let s = GpuSample::parse_line("0 69 13 - 100 30 0 0 - - 3615 1531").unwrap();
    assert_eq!(s.gpu_idx, 0);
    assert_eq!(s.power_w, Some(69));
    assert_eq!(s.gpu_temp_c, Some(13));
    assert_eq!(s.mem_temp_c, None);
    assert_eq!(s.sm_util, Some(100));
    assert_eq!(s.mem_util, Some(30));
    assert_eq!(s.enc_util, Some(0));
    assert_eq!(s.dec_util, Some(0));
    assert_eq!(s.jpg_util, None);
    assert_eq!(s.ofa_util, None);
    assert_eq!(s.mem_clock_mhz, Some(3615));
    assert_eq!(s.gpu_clock_mhz, Some(1531));
}

#[test]
fn device_line_is_deterministic_and_sentinel_is_absent() {
    let line = "1 - 40 41 5 6 7 8 9 10 11 12";
    let a = GpuSample::parse_line(line).unwrap();
    let b = GpuSample::parse_line(line).unwrap();
    assert_eq!(a, b);
    assert_eq!(a.gpu_idx, 1);
    assert_eq!(a.power_w, None);
    assert_eq!(a.gpu_clock_mhz, Some(12));
}

#[test]
fn device_line_needs_twelve_fields_and_an_index() {
    assert!(GpuSample::parse_line("0 1 2 3 4 5 6 7 8 9 10").is_none());
    assert!(GpuSample::parse_line("x 1 2 3 4 5 6 7 8 9 10 11").is_none());
    // an optional field that is no number is absent, not fatal
    let s = GpuSample::parse_line("2 abc 2 3 4 5 6 7 8 9 10 11").unwrap();
    assert_eq!(s.gpu_idx, 2);
    assert_eq!(s.power_w, None);
    // a leading plus sign reads as an integer does
    assert_eq!(GpuSample::parse_line("+3 1 2 3 4 5 6 7 8 9 10 11").unwrap().gpu_idx, 3);
    // beyond u32 the index does not parse
    assert!(GpuSample::parse_line("4294967296 1 2 3 4 5 6 7 8 9 10 11").is_none());
}

#[test]
fn parse_optional_fields() {
    assert_eq!(GpuSample::parse_optional(" 42 "), Some(42));
    assert_eq!(GpuSample::parse_optional("-"), None);
    assert_eq!(GpuSample::parse_optional("   "), None);
    assert_eq!(ProcessSample::parse_optional("7"), Some(7));
    assert_eq!(ProcessSample::parse_optional("N/A"), None);
}

#[test]
fn process_line_headers_and_blanks_are_not_data() {
    assert!(ProcessSample::parse_line("# gpu    pid   type     sm    mem    enc    dec    jpg    ofa    command").is_none());
    assert!(ProcessSample::parse_line("# Idx      #    C/G      %      %      %      %      %      %    name").is_none());
    assert!(ProcessSample::parse_line("").is_none());
    assert!(ProcessSample::parse_line("  \t ").is_none());
}

#[test]
fn process_line_reassembles_command() {
    let p = ProcessSample::parse_line("    1  27581     C     99     14      -      -      -      -    python train.py --lr 3").unwrap();
    assert_eq!(p.gpu_idx, 1);
    assert_eq!(p.pid, 27581);
    assert_eq!(p.process_type, "C");
    assert_eq!(p.sm_util, Some(99));
    assert_eq!(p.mem_util, Some(14));
    assert_eq!(p.enc_util, None);
    assert_eq!(p.dec_util, None);
    assert_eq!(p.command, "python train.py --lr 3");
}

#[test]
fn process_line_needs_ten_fields_and_numeric_keys() {
    assert!(ProcessSample::parse_line("0 21093 C - - - - - -").is_none());
    assert!(ProcessSample::parse_line("0 abc C - - - - - - llama-server").is_none());
    let p = ProcessSample::parse_line("0 21093 C - - - - - - llama-server").unwrap();
    assert_eq!(p.command, "llama-server");
    assert_eq!(p.sm_util, None);
}

#[test]
fn compute_app_rows() {
    assert!(ComputeApp::parse_csv_line("pid, process_name, gpu_uuid, used_gpu_memory [MiB]").is_none());
    let a = ComputeApp::parse_csv_line("1234, /usr/bin/python3, GPU-aaa, 512 MiB").unwrap();
    assert_eq!(a.pid, 1234);
    assert_eq!(a.name, "/usr/bin/python3");
    assert_eq!(a.gpu_uuid, "GPU-aaa");
    assert_eq!(a.vram_used_mib, 512);
    let b = ComputeApp::parse_csv_line("77, x, GPU-b, [N/A]").unwrap();
    assert_eq!(b.vram_used_mib, 0);
    let c = ComputeApp::parse_csv_line("78, x, GPU-b, lots").unwrap();
    assert_eq!(c.vram_used_mib, 0);
    assert!(ComputeApp::parse_csv_line("78, x, GPU-b").is_none());
    assert!(ComputeApp::parse_csv_line("nope, x, GPU-b, 3 MiB").is_none());
}

#[test]
fn compute_app_output_skips_header() {
    let out = "pid, process_name, gpu_uuid, used_gpu_memory [MiB]\n10, a, GPU-1, 100 MiB\n11, b, GPU-2, 200 MiB\n";
    let apps = ComputeApp::parse_csv_output(out);
    assert_eq!(apps.len(), 2);
    assert_eq!(apps[0].pid, 10);
    assert_eq!(apps[1].vram_used_mib, 200);
}

#[test]
fn ps_rows() {
    let p = ProcessSystemInfo::parse_ps_line("  100  3.5 204800    00:10:00 python x.py").unwrap();
    assert_eq!(p.pid, 100);
    assert_eq!(p.cpu_milli_percent, 3500);
    assert_eq!(p.rss_kb, 204800);
    assert_eq!(p.elapsed, "00:10:00");
    let q = ProcessSystemInfo::parse_ps_line("5 ? ? 1-02:03:04").unwrap();
    assert_eq!(q.cpu_milli_percent, 0);
    assert_eq!(q.rss_kb, 0);
    assert!(ProcessSystemInfo::parse_ps_line("").is_none());
    assert!(ProcessSystemInfo::parse_ps_line("5 1.0 10").is_none());
    assert!(ProcessSystemInfo::parse_ps_line("x 1.0 10 00:01").is_none());
    let r = ProcessSystemInfo::parse_ps_line("6 12.3456 1 00:01").unwrap();
    assert_eq!(r.cpu_milli_percent, 12345);
}

#[test]
fn ps_output_lines() {
    let v = ProcessSystemInfo::parse_ps_output("1 0.0 10 00:01\r\n2 101 20 00:02\n\n");
    assert_eq!(v.len(), 2);
    assert_eq!(v[1].cpu_milli_percent, 101000);
    assert_eq!(v[0].elapsed, "00:01");
}

#[test]
fn gpu_info_row() {
    let line = "NVIDIA GeForce RTX 4090, GPU-abc, 550.54, 24564, 1024, 23540, 450.00, 69.42, 45, 90, 4, 4, 16, 16, 30, P2";
    let g = GpuInfo::parse_csv_line(line, 3).unwrap();
    assert_eq!(g.index, 3);
    assert_eq!(g.name, "NVIDIA GeForce RTX 4090");
    assert_eq!(g.uuid, "GPU-abc");
    assert_eq!(g.driver_version, "550.54");
    assert_eq!(g.memory_total_mib, 24564);
    assert_eq!(g.memory_used_mib, 1024);
    assert_eq!(g.memory_free_mib, 23540);
    assert_eq!(g.power_limit_mw, Some(450000));
    assert_eq!(g.power_draw_mw, Some(69420));
    assert_eq!(g.temperature_c, Some(45));
    assert_eq!(g.temperature_limit_c, Some(90));
    assert_eq!(g.pcie_gen_current, Some(4));
    assert_eq!(g.pcie_width_max, Some(16));
    assert_eq!(g.fan_speed_pct, Some(30));
    assert_eq!(g.pstate, "P2");
    assert!(g.throttle_reasons.is_empty());
}

#[test]
fn gpu_info_markers_and_short_rows() {
    let line = "A, GPU-x, 1, [N/A], 0, 0, [Not Supported], [N/A], 40, [N/A], 3, 4, 8, 16, [Not Supported], P8";
    let g = GpuInfo::parse_csv_line(line, 0).unwrap();
    assert_eq!(g.memory_total_mib, 0);
    assert_eq!(g.power_limit_mw, None);
    assert_eq!(g.power_draw_mw, None);
    assert_eq!(g.temperature_limit_c, None);
    assert_eq!(g.fan_speed_pct, None);
    assert!(GpuInfo::parse_csv_line("A, GPU-x, 1", 0).is_none());
    let out = GpuInfo::parse_csv_output(&format!("{}\nshort\n{}\n", line, line));
    assert_eq!(out.len(), 2);
    assert_eq!(out[0].index, 0);
    assert_eq!(out[1].index, 2);
}
