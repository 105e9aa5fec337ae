use server_status::disk::{df_output_fits, get_hdd, HddStat};
use server_status::meminfo::{get_memory, match_memory_line, memory_entry_of};
use server_status::netdev::{
    counters_fit, match_traffic_line, net_dev_sample, sum_counters, traffic_sample,
};
use server_status::ping::{PingData, PingWindow, ProbeOutcome};
use server_status::status::{
    command_count, cpu_sample, cpu_step, cpu_step_is_defined, network_from_flags, parse_uptime,
    tupd,
};

#[test]
fn test_memory_regex_valid_line() {
    let line = "MemTotal:       16384000 kB";
    let caps = match_memory_line(line).unwrap();
    assert_eq!(caps.key, "MemTotal");
    assert_eq!(caps.value, "16384000");
}

#[test]
fn test_memory_regex_with_spaces() {
    let line = "MemFree:        8192000 kB";
    let caps = match_memory_line(line).unwrap();
    assert_eq!(caps.key, "MemFree");
    assert_eq!(caps.value, "8192000");
}

#[test]
fn test_memory_regex_invalid_line() {
    let line = "Invalid line without proper format";
    assert!(match_memory_line(line).is_none());
}

#[test]
fn test_traffic_regex_valid_line() {
    let line = "eth0: 1000 2000 0 0 0 0 0 0 3000 4000 0 0 0 0 0 0";
    assert!(match_traffic_line(line).is_some());

    let caps = match_traffic_line(line).unwrap();
    assert_eq!(caps.name, "eth0");
    assert_eq!(caps.counters[0], "1000"); // rx bytes
    assert_eq!(caps.counters[8], "3000"); // tx bytes
}

#[test]
fn test_traffic_regex_with_interface_name() {
    let line = "wlan0:  500000 1000 0 0 0 0 0 0 250000 500 0 0 0 0 0 0";
    assert!(match_traffic_line(line).is_some());

    let caps = match_traffic_line(line).unwrap();
    assert_eq!(caps.name, "wlan0");
    assert_eq!(caps.counters[0], "500000");
    assert_eq!(caps.counters[8], "250000");
}

#[test]
fn test_traffic_regex_invalid_line() {
    let line = "Invalid: not enough fields";
    assert!(match_traffic_line(line).is_none());
}

#[test]
fn test_get_uptime_fallback() {
    assert_eq!(parse_uptime("12345.67 890.12\n"), Some(12345));
    assert_eq!(parse_uptime("invalid"), None);
    assert_eq!(parse_uptime(""), None);
}

#[test]
fn uptime_edge_cases() {
    assert_eq!(parse_uptime("42"), Some(42));
    assert_eq!(parse_uptime("+7.5"), Some(7));
    assert_eq!(parse_uptime("-7.5"), None);
    assert_eq!(parse_uptime("18446744073709551615.0"), Some(u64::MAX));
    assert_eq!(parse_uptime("18446744073709551616.0"), None);
    assert_eq!(parse_uptime(" 5.0"), None);
}

#[test]
fn memory_keys_may_contain_colons() {
    let caps = match_memory_line("a:b:  12 kB").unwrap();
    assert_eq!(caps.key, "a:b");
    assert_eq!(caps.value, "12");
    let caps = match_memory_line("Foo:kB").unwrap();
    assert_eq!(caps.key, "Foo");
    assert_eq!(caps.value, "");
    assert!(memory_entry_of("Foo:kB").is_none());
    assert!(match_memory_line(" MemTotal: 1 kB").is_none());
    assert!(match_memory_line("HugePages_Total:       0").is_none());
}

#[test]
fn memory_pattern_knows_unicode_digits() {
    let caps = match_memory_line("A:5kB:\u{661}kB").unwrap();
    assert_eq!(caps.key, "A:5kB");
    assert_eq!(caps.value, "\u{661}");
    assert!(memory_entry_of("A:5kB:\u{661}kB").is_none());
    let lines = vec!["MemTotal: 9 kB".to_string(), "MemFree:5kB:\u{661}kB".to_string()];
    assert_eq!(get_memory(&lines), (9, 9, 0, 0));
}

#[test]
fn traffic_pattern_knows_unicode_digits() {
    let line = "x: \u{661} 1 1 1 1 1 1 1 1 1 1 y: 2 2 2 2 2 2 2 2 2 2 2";
    let caps = match_traffic_line(line).unwrap();
    assert_eq!(caps.name, "x");
    assert_eq!(caps.counters[0], "\u{661}");
    assert!(traffic_sample(line).is_none());
}

#[test]
fn memory_summary_from_meminfo() {
    let lines: Vec<String> = [
        "MemTotal:       16000 kB",
        "MemFree:         4000 kB",
        "MemAvailable:    9000 kB",
        "Buffers:          500 kB",
        "Cached:          3000 kB",
        "SwapCached:         0 kB",
        "SReclaimable:     500 kB",
        "SwapTotal:       2048 kB",
        "SwapFree:        1024 kB",
        "HugePages_Total:    0",
    ]
    .iter()
    .map(|s| s.to_string())
    .collect();
    assert_eq!(get_memory(&lines), (16000, 8000, 2048, 1024));
}

#[test]
fn memory_used_saturates_at_zero_and_last_entry_wins() {
    let lines: Vec<String> = [
        "MemTotal: 100 kB",
        "MemFree: 80 kB",
        "Cached: 50 kB",
        "MemTotal: 120 kB",
    ]
    .iter()
    .map(|s| s.to_string())
    .collect();
    assert_eq!(get_memory(&lines), (120, 0, 0, 0));
    assert_eq!(get_memory(&Vec::new()), (0, 0, 0, 0));
}

#[test]
fn traffic_match_is_leftmost() {
    let line = "    lo: 5 6 7 8 9 10 11 12 13 14 15 16 17";
    let caps = match_traffic_line(line).unwrap();
    assert_eq!(caps.name, "lo");
    assert_eq!(caps.counters.len(), 11);
    assert_eq!(caps.counters[10], "15");
    let s = traffic_sample(line).unwrap();
    assert_eq!((s.0.as_str(), s.1, s.2), ("lo", 5, 13));
    let caps = match_traffic_line("x:y:1 2 3 4 5 6 7 8 9 10 11").unwrap();
    assert_eq!(caps.name, "x:y");
    assert!(match_traffic_line("eth0: 1 2 3 4 5 6 7 8 9 10").is_none());
}

#[test]
fn traffic_sample_rejects_oversized_counters() {
    let line = "eth0: 18446744073709551616 0 0 0 0 0 0 0 1 0 0";
    assert!(match_traffic_line(line).is_some());
    assert!(traffic_sample(line).is_none());
}

#[test]
fn net_dev_sample_reads_fields_after_first_colon() {
    let line = "  eth0: 1000 2000 0 0 0 0 0 0 3000 4000 0 0 0 0 0 0";
    let s = net_dev_sample(line).unwrap();
    assert_eq!((s.0.as_str(), s.1, s.2), ("  eth0", 1000, 3000));
    assert!(net_dev_sample("Inter-|   Receive").is_none());
    assert!(net_dev_sample(" face |bytes    packets errs drop fifo frame compressed").is_none());
    assert!(net_dev_sample("eth0: 1 2 3 4 5 6 7 8").is_none());
    assert!(net_dev_sample("eth0: 1 2 3 4 5:6 7 8 9").is_none());
}

#[test]
fn counter_sums() {
    let v = vec![(1u64, 2u64), (10, 20), (100, 200)];
    assert!(counters_fit(&v));
    assert_eq!(sum_counters(&v), (111, 222));
    let big = vec![(u64::MAX, 0u64), (1, 0)];
    assert!(!counters_fit(&big));
    assert!(counters_fit(&Vec::new()));
}

#[test]
fn df_output_is_read_into_disks_and_totals() {
    let out = "Filesystem     Type 1M-blocks  Used Available Use% Mounted on\n\
/dev/sda1      ext4     100000 40000     60000  40% /\n\
/dev/sdb1      xfs        2000   500      1500  25% /data\n\
short line\n\
total          -        102000 40500     61500  40% -\n";
    assert!(df_output_fits(out));
    let mut stat = HddStat { hdd_total: 0, hdd_used: 0, disks: Vec::new() };
    get_hdd(out, &mut stat);
    assert_eq!(stat.hdd_total, 102000);
    assert_eq!(stat.hdd_used, 40500);
    assert_eq!(stat.disks.len(), 2);
    assert_eq!(stat.disks[0].name, "/dev/sda1");
    assert_eq!(stat.disks[0].file_system, "ext4");
    assert_eq!(stat.disks[0].mount_point, "/");
    assert_eq!(stat.disks[0].total, 100000 * 1024 * 1024);
    assert_eq!(stat.disks[1].used, 500 * 1024 * 1024);
    assert_eq!(stat.disks[1].free, 1500 * 1024 * 1024);
}

#[test]
fn df_output_edge_cases() {
    let mut stat = HddStat { hdd_total: 7, hdd_used: 8, disks: Vec::new() };
    get_hdd("Filesystem Type 1M-blocks Used Available Use% Mounted\n", &mut stat);
    assert_eq!((stat.hdd_total, stat.hdd_used, stat.disks.len()), (7, 8, 0));
    get_hdd("", &mut stat);
    assert_eq!((stat.hdd_total, stat.hdd_used, stat.disks.len()), (7, 8, 0));
    get_hdd("header\r\nfs t x y z w m\r\ntotal - 5 3 2 60% -", &mut stat);
    assert_eq!((stat.hdd_total, stat.hdd_used, stat.disks.len()), (5, 3, 1));
    assert_eq!(stat.disks[0].total, 0);
    assert!(!df_output_fits("h\nfs t 17592186044416 1 1 1% /\ntotal - 1 1 1 1% -"));
    assert!(df_output_fits("h\nfs t 17592186044415 1 1 1% /\ntotal - 1 1 1 1% -"));
}

#[test]
fn tupd_counts() {
    assert_eq!(command_count(Some(" 12\n")), 12);
    assert_eq!(command_count(Some("x")), 0);
    assert_eq!(command_count(None), 0);
    assert_eq!(command_count(Some("4294967296")), 0);
    assert_eq!(tupd(Some("10\n"), Some("1\n"), Some("120\n"), None), (9, 0, 118, 0));
}

#[test]
fn cpu_usage_step() {
    let line = "cpu  100 5 50 1000 20 0 3 0 0 0\n";
    let cur = cpu_sample(line).unwrap();
    assert_eq!(cur, vec![100, 5, 50, 1000]);
    let pre = vec![0u64, 0, 0, 0];
    assert!(cpu_step_is_defined(&pre, &cur));
    assert_eq!(cpu_step(&pre, &cur), (1000, 1155));
    assert_eq!(cpu_step(&cur, &cur), (0, 1));
    assert!(!cpu_step_is_defined(&cur, &pre));
    assert!(cpu_sample("cpu 1 x 2 3").is_none());
    assert_eq!(cpu_sample("cpu 1 2").unwrap(), vec![1, 2]);
    assert!(!cpu_step_is_defined(&pre, &vec![1, 2]));
}

#[test]
fn network_flags() {
    assert_eq!(network_from_flags(0), None);
    assert_eq!(network_from_flags(1), Some((true, false)));
    assert_eq!(network_from_flags(2), Some((false, true)));
    assert_eq!(network_from_flags(3), Some((true, true)));
    assert_eq!(network_from_flags(4), None);
}

#[test]
fn ping_window_keeps_latest_outcomes() {
    let mut w = PingWindow::new();
    for _ in 0..30 {
        w.record(ProbeOutcome::Failed);
    }
    assert_eq!(w.loss_rate(), None);
    w.record(ProbeOutcome::Connected);
    assert_eq!(w.len(), 31);
    assert_eq!(w.lost(), 30);
    assert_eq!(w.loss_rate(), Some(96));
    for _ in 0..200 {
        w.record(ProbeOutcome::Refused);
    }
    assert_eq!(w.len(), 101);
    assert_eq!(w.lost(), 0);
    assert_eq!(w.loss_rate(), Some(0));
    for _ in 0..50 {
        w.record(ProbeOutcome::Failed);
    }
    assert_eq!(w.lost(), 50);
    assert_eq!(w.loss_rate(), Some(49));
}

#[test]
fn ping_rounds_report_loss_of_latest_outcomes() {
    let mut w = PingWindow::new();
    let mut d = PingData { lost_rate: 7, ..Default::default() };
    for k in 0..30 {
        d.record_round(&mut w, ProbeOutcome::Failed, k);
        assert_eq!(d.lost_rate, 7);
        assert_eq!(d.ping_time, k as u32);
    }
    d.record_round(&mut w, ProbeOutcome::Connected, 5);
    assert_eq!(d.lost_rate, 30 * 100 / 31);
    for _ in 0..101 {
        d.record_round(&mut w, ProbeOutcome::Refused, 1);
    }
    assert_eq!(d.lost_rate, 0);
    for _ in 0..10 {
        d.record_round(&mut w, ProbeOutcome::Failed, 1);
    }
    assert_eq!(d.lost_rate, 10 * 100 / 101);
}

#[test]
fn ping_data_update() {
    let mut w = PingWindow::new();
    let mut d = PingData { probe_uri: "example.org:80".to_string(), ..Default::default() };
    w.record(ProbeOutcome::Failed);
    d.update(&w, 12);
    assert_eq!((d.ping_time, d.lost_rate), (12, 0));
    d.update(&w, u128::from(u32::MAX) + 1);
    assert_eq!(d.ping_time, u32::MAX);
    for _ in 0..40 {
        w.record(ProbeOutcome::Failed);
    }
    d.update(&w, 3);
    assert_eq!(d.lost_rate, 100);
    assert_eq!(d.probe_uri, "example.org:80");
}
