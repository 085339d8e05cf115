use pluvia::ini::MeasureConfig;
use pluvia::measures::memory::{memory_metric_for, parse_meminfo, MemoryMetric};
use pluvia::measures::network::{parse_net_dev, NetCounters, NetMeasureType};
use pluvia::measures::thermal::choose_hwmon;
use pluvia::measures::uptime::{format_uptime, uptime_format};
use pluvia::measures::{measure_kind, MeasureKind};
use pluvia::plugins::process::{is_pid_name, process_name_for, process_name_matches};
use pluvia::variables::VariableMap;

fn config(measure_type: &str, plugin: Option<&str>, props: &[(&str, &str)]) -> MeasureConfig {
    let mut properties = VariableMap::empty();
    for (k, v) in props {
        properties.set(k, v);
    }
    MeasureConfig {
        name: "M".to_string(),
        measure_type: measure_type.to_string(),
        plugin: plugin.map(|p| p.to_string()),
        format: None,
        formula: None,
        update_divider: 1,
        disabled: false,
        dynamic_variables: false,
        properties,
    }
}

const MEMINFO: &str = "MemTotal:       16000000 kB\nMemFree:         4000000 kB\nMemAvailable:    8000000 kB\nSwapTotal:       8000000 kB\nSwapFree:        6000000 kB\n";

#[test]
fn test_meminfo_counters_and_derived_amounts() {
    let m = parse_meminfo(MEMINFO);
    assert_eq!(m.total, 16000000 * 1024);
    assert_eq!(m.available, 8000000 * 1024);
    assert_eq!(m.free_bytes(), 8000000 * 1024);
    assert_eq!(m.used_bytes(), 8000000 * 1024);
    assert_eq!(m.swap_used_bytes(), 2000000 * 1024);
    // Without MemAvailable, free is free + buffers + cache.
    let m = parse_meminfo("MemTotal: 100 kB\nMemFree: 10 kB\nBuffers: 5 kB\nCached: 20 kB\nbogus line\n");
    assert_eq!(m.free_bytes(), 35 * 1024);
    assert_eq!(m.used_bytes(), 65 * 1024);
    // The last line of a key wins; a bad number reads as 0.
    let m = parse_meminfo("MemTotal: 1 kB\nMemTotal: 2 kB\nSwapFree: x kB\n");
    assert_eq!(m.total, 2048);
    assert_eq!(m.swap_free, 0);
}

#[test]
fn test_memory_metric_selection() {
    assert_eq!(memory_metric_for(&config("PhysicalMemory", None, &[])), "used");
    assert_eq!(memory_metric_for(&config("PhysicalMemory", None, &[("Total", "1")])), "total");
    assert_eq!(memory_metric_for(&config("Memory", None, &[("Percentual", "1")])), "used_percent");
    assert_eq!(memory_metric_for(&config("SwapMemory", None, &[("Percent", "1")])), "swap_percent");
    assert_eq!(memory_metric_for(&config("swapmemory", None, &[])), "swap_used");
    assert_eq!(MemoryMetric::named("FREE_PERCENT"), MemoryMetric::FreePercent);
    assert_eq!(MemoryMetric::named("swap_free"), MemoryMetric::SwapFree);
    assert_eq!(MemoryMetric::named("whatever"), MemoryMetric::UsedPercent);
}

const NET_DEV: &str = "Inter-|   Receive                                                |  Transmit\n face |bytes    packets errs drop fifo frame compressed multicast|bytes    packets errs drop fifo colls carrier compressed\n    lo:   50000     100    0    0    0     0          0         0    50000     100    0    0    0     0       0          0\n  eth0:    1000      10    0    0    0     0          0         0     2000      20    0    0    0     0       0          0\n wlan0:     300       3    0    0    0     0          0         0      400       4    0    0    0     0       0          0\n";

#[test]
fn test_net_dev_totals_and_interface_filter() {
    assert_eq!(parse_net_dev(NET_DEV, None), (1300, 2400));
    assert_eq!(parse_net_dev(NET_DEV, Some("ETH0")), (1000, 2000));
    assert_eq!(parse_net_dev(NET_DEV, Some("all")), (1300, 2400));
    assert_eq!(parse_net_dev(NET_DEV, Some("0")), (1300, 2400));
    assert_eq!(parse_net_dev(NET_DEV, Some("lo")), (50000, 50000));
    assert_eq!(parse_net_dev("only one line\n", None), (0, 0));
}

#[test]
fn test_net_counters_deltas() {
    let mut c = NetCounters::new();
    assert_eq!(c.record((100, 50), NetMeasureType::Total), None);
    assert_eq!(c.record((160, 90), NetMeasureType::Total), Some(100));
    assert_eq!(c.record((170, 95), NetMeasureType::In), Some(10));
    assert_eq!(c.record((10, 99), NetMeasureType::In), Some(0));
    assert_eq!(c.record((10, 120), NetMeasureType::Out), Some(21));
    assert_eq!(NetMeasureType::from_config(&config("NetIn", None, &[])), NetMeasureType::In);
    assert_eq!(NetMeasureType::from_config(&config("NETOUT", None, &[])), NetMeasureType::Out);
    assert_eq!(NetMeasureType::from_config(&config("Net", None, &[])), NetMeasureType::Total);
}

#[test]
fn test_hwmon_choice() {
    let names = vec![
        Some("acpitz".to_string()),
        Some("asus".to_string()),
        None,
        Some("k10temp".to_string()),
    ];
    assert_eq!(choose_hwmon(&names, None), Some((3, "k10temp".to_string())));
    let names = vec![Some("acpitz".to_string()), Some("ThinkPad".to_string()), Some("cpu_fan".to_string())];
    assert_eq!(choose_hwmon(&names, None), Some((1, "ThinkPad".to_string())));
    assert_eq!(choose_hwmon(&names, Some("ACPI")), Some((0, "acpitz".to_string())));
    let names = vec![None, Some("nvme".to_string())];
    assert_eq!(choose_hwmon(&names, None), Some((0, "hwmon0".to_string())));
    assert_eq!(choose_hwmon(&names, Some("gpu")), Some((0, "hwmon0".to_string())));
    assert_eq!(choose_hwmon(&Vec::new(), None), None);
}

#[test]
fn test_measure_factory_kinds() {
    assert_eq!(measure_kind(&config("Time", None, &[])), Some(MeasureKind::Time));
    assert_eq!(measure_kind(&config("CPU", None, &[])), Some(MeasureKind::Cpu));
    assert_eq!(measure_kind(&config("PhysicalMemory", None, &[])), Some(MeasureKind::Memory));
    assert_eq!(measure_kind(&config("FreeDiskSpace", None, &[])), Some(MeasureKind::Disk));
    assert_eq!(measure_kind(&config("NetIn", None, &[])), Some(MeasureKind::Net));
    assert_eq!(measure_kind(&config("Plugin", Some("NowPlaying.dll"), &[])), Some(MeasureKind::NowPlaying));
    assert_eq!(
        measure_kind(&config("Plugin", Some("UsageMonitor.dll"), &[("Category", "GPU Engine")])),
        Some(MeasureKind::Gpu)
    );
    assert_eq!(
        measure_kind(&config("Plugin", Some("PerfMon"), &[("Category", "Memory")])),
        Some(MeasureKind::Memory)
    );
    assert_eq!(measure_kind(&config("Plugin", Some("UsageMonitor"), &[])), Some(MeasureKind::Cpu));
    assert_eq!(measure_kind(&config("Plugin", Some("SysInfo.dll"), &[])), Some(MeasureKind::FallbackPlugin));
    assert_eq!(measure_kind(&config("Registry", None, &[])), None);
}

#[test]
fn test_uptime_format() {
    assert_eq!(format_uptime("%4!02d!:%3!02d!:%2!02d!:%1!02d!", 90061), "01:01:01:01");
    assert_eq!(format_uptime("%4!d!d %3!d!h %2!d!m %1!d!s", 3 * 86400 + 5 * 3600 + 7 * 60 + 42), "3d 5h 7m 42s");
    assert_eq!(format_uptime("%3!02d!", 12 * 3600), "12");
    assert_eq!(format_uptime("up", 5), "up");
    let mut c = config("Uptime", None, &[("Format", "%1!d!")]);
    assert_eq!(uptime_format(&c), Some("%1!d!".to_string()));
    c.format = Some("x".to_string());
    assert_eq!(uptime_format(&c), Some("x".to_string()));
}

#[test]
fn test_process_name_matching() {
    assert!(process_name_matches("notepad.exe", "notepad"));
    assert!(process_name_matches("discord", "Discord.exe"));
    assert!(process_name_matches("NOTEPAD", "notepad.exe"));
    assert!(!process_name_matches("notepad2", "notepad"));
    assert!(!process_name_matches("anything", "   "));
    assert!(is_pid_name("1001"));
    assert!(!is_pid_name("self"));
    assert_eq!(process_name_for(&config("Plugin", None, &[("Process", "firefox")])), "firefox");
    assert_eq!(process_name_for(&config("Plugin", None, &[])), "");
}

#[test]
fn test_net_measure_filters_loopback_on_all_and_zero() {
    let first = "Inter-|   Receive                                                |  Transmit\n face |bytes    packets errs drop fifo frame compressed multicast|bytes    packets errs drop fifo colls carrier compressed\n    lo: 1000000     100    0    0    0     0          0         0  1000000     100    0    0    0     0       0          0\n  eth0:     500      10    0    0    0     0          0         0      200      10    0    0    0     0       0          0\n";
    let second = "Inter-|   Receive                                                |  Transmit\n face |bytes    packets errs drop fifo frame compressed multicast|bytes    packets errs drop fifo colls carrier compressed\n    lo: 2000000     100    0    0    0     0          0         0  2000000     100    0    0    0     0       0          0\n  eth0:     600      10    0    0    0     0          0         0      300      10    0    0    0     0       0          0\n";

    // Interface="0": lo changed by 1,000,000, eth0 by 100; only eth0 counts.
    let mut net_zero = NetCounters::new();
    assert_eq!(net_zero.record(parse_net_dev(first, Some("0")), NetMeasureType::In), None);
    let delta_zero = net_zero.record(parse_net_dev(second, Some("0")), NetMeasureType::In).unwrap();
    assert_eq!(delta_zero, 100);
    assert!((delta_zero as f64) / 0.05 < 50_000.0, "lo was not filtered!");

    // Interface="all"
    let mut net_all = NetCounters::new();
    net_all.record(parse_net_dev(first, Some("all")), NetMeasureType::In);
    let delta_all = net_all.record(parse_net_dev(second, Some("all")), NetMeasureType::In).unwrap();
    assert_eq!(delta_all, 100);
    assert!((delta_all as f64) / 0.05 < 50_000.0, "lo was not filtered on 'all'!");
}
