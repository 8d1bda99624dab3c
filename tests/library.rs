use system_sentinel::aggregate::aggregate_groups;
use system_sentinel::collector::{merge_parents, percent_exec, sort_by_memory_exec, HostSample, MetricsCollector};
use system_sentinel::config::{default_process_watchlist, Config, ThresholdConfig};
use system_sentinel::detector::{matches_watchlist, AlertLevel, AnomalyDetector, AnomalyType};
use system_sentinel::health::HealthState;
use system_sentinel::metrics::{extract_app_name, ProcessInfo, SystemMetrics};
use system_sentinel::narration::Narrator;
use system_sentinel::ps_output::parse_parent_map;
use system_sentinel::notifier::{DeliveryAction, DeliveryEvent, Notifier};
use system_sentinel::text::{push_decimal, remove_all_exec, round_div};

const GIB: u64 = 1024 * 1024 * 1024;
const MIB: u64 = 1024 * 1024;

fn process(pid: u32, parent: Option<u32>, name: &str, memory: u64, cpu: u64, exe: Option<&str>) -> ProcessInfo {
    ProcessInfo {
        pid,
        parent_pid: parent,
        name: name.to_string(),
        memory_bytes: memory,
        cpu_usage: cpu,
        exe: exe.map(|e| e.to_string()),
    }
}

fn metrics(mem_percent: u64, swap_percent: u64, load: u64, growth: Option<i64>, procs: Vec<ProcessInfo>) -> SystemMetrics {
    SystemMetrics {
        timestamp: 0,
        memory_total: 100 * GIB,
        memory_used: mem_percent * GIB / 100,
        memory_free: 0,
        memory_percent: mem_percent,
        swap_total: 100 * GIB,
        swap_used: swap_percent * GIB / 100,
        swap_percent,
        load_1m: load,
        load_5m: load,
        load_15m: load,
        top_processes: procs,
        aggregated_processes: vec![],
        memory_growth_rate: growth,
    }
}

fn eager_config() -> Config {
    let mut config = Config::default();
    config.detection.persistent_breach_threshold = 1;
    config
}

fn sample(timestamp: i64, used: u64, procs: Vec<ProcessInfo>) -> HostSample {
    HostSample {
        timestamp,
        memory_total: 64 * GIB,
        memory_used: used,
        memory_free: 64 * GIB - used,
        swap_total: 0,
        swap_used: 0,
        load_1m: 150,
        load_5m: 120,
        load_15m: 110,
        processes: procs,
    }
}

#[test]
fn damping_reports_critical_memory_on_third_tick() {
    let mut config = Config::default();
    config.detection.persistent_breach_threshold = 3;
    let mut detector = AnomalyDetector::new(&config);
    let m = metrics(9700, 0, 100, None, vec![]);
    assert!(detector.check_at(&m, 0).is_none());
    assert_eq!(detector.breach_count(AnomalyType::Memory), Some(1));
    assert!(detector.check_at(&m, 30).is_none());
    assert_eq!(detector.breach_count(AnomalyType::Memory), Some(2));
    let a = detector.check_at(&m, 60).expect("third tick reports");
    assert_eq!(a.anomaly_type, AnomalyType::Memory);
    assert_eq!(a.level, AlertLevel::Critical);
    assert_eq!(a.message, "Mem 97%: Unknown");
    assert!(a.details.is_empty());
}

#[test]
fn clean_tick_resets_breach_counter() {
    let mut config = Config::default();
    config.detection.persistent_breach_threshold = 3;
    let mut detector = AnomalyDetector::new(&config);
    assert!(detector.check_at(&metrics(9500, 0, 100, None, vec![]), 0).is_none());
    assert!(detector.check_at(&metrics(5000, 0, 100, None, vec![]), 30).is_none());
    assert_eq!(detector.breach_count(AnomalyType::Memory), None);
    assert!(detector.check_at(&metrics(9500, 0, 100, None, vec![]), 60).is_none());
    assert_eq!(detector.breach_count(AnomalyType::Memory), Some(1));
}

#[test]
fn hysteresis_keeps_and_clears_active_alert() {
    let mut config = eager_config();
    config.detection.notification_cooldown_minutes = 0;
    let mut detector = AnomalyDetector::new(&config);
    let a = detector.check_at(&metrics(8200, 0, 100, None, vec![]), 0).unwrap();
    assert_eq!((a.anomaly_type, a.level), (AnomalyType::Memory, AlertLevel::Warning));
    assert_eq!(detector.active_alert(AnomalyType::Memory), Some(AlertLevel::Warning));
    let a = detector.check_at(&metrics(7800, 0, 100, None, vec![]), 30).unwrap();
    assert_eq!(a.level, AlertLevel::Warning);
    assert!(detector.check_at(&metrics(7400, 0, 100, None, vec![]), 60).is_none());
    assert_eq!(detector.active_alert(AnomalyType::Memory), None);
}

#[test]
fn inhibited_growth_is_not_counted() {
    let mut config = eager_config();
    config.thresholds.memory_growth_rate_warning = 100;
    let mut detector = AnomalyDetector::new(&config);
    let a = detector.check_at(&metrics(8500, 0, 100, Some(500), vec![]), 0).unwrap();
    assert_eq!(a.anomaly_type, AnomalyType::Memory);
    assert_eq!(detector.breach_count(AnomalyType::MemoryGrowthRate), None);
}

#[test]
fn growth_alone_is_reported_with_its_rate() {
    let mut config = eager_config();
    config.thresholds.memory_warning = 9500;
    config.thresholds.memory_critical = 9800;
    let mut detector = AnomalyDetector::new(&config);
    let a = detector.check_at(&metrics(8500, 0, 100, Some(849), vec![]), 0).unwrap();
    assert_eq!(a.anomaly_type, AnomalyType::MemoryGrowthRate);
    assert_eq!(a.level, AlertLevel::Critical);
    assert_eq!(a.message, "Growth 8GB/h: Unknown");
}

#[test]
fn growth_below_sixty_percent_memory_is_ignored() {
    let mut detector = AnomalyDetector::new(&eager_config());
    assert!(detector.check_at(&metrics(5000, 0, 100, Some(2000), vec![]), 0).is_none());
}

#[test]
fn swap_is_silent_without_swap_space() {
    let mut detector = AnomalyDetector::new(&eager_config());
    let mut m = metrics(8500, 9900, 100, None, vec![]);
    m.swap_total = 0;
    let r = detector.check_at(&m, 0);
    assert_eq!(r.map(|a| a.anomaly_type), Some(AnomalyType::Memory));
}

#[test]
fn swap_critical_message_names_culprit() {
    let mut config = eager_config();
    config.thresholds.memory_warning = 9000;
    let mut detector = AnomalyDetector::new(&config);
    let procs = vec![
        process(1, None, "kernel_task", 3 * GIB, 0, None),
        process(2, None, "Electron", 6 * GIB + GIB / 2, 0, Some("/Applications/Beeper.app/Contents/MacOS/Electron")),
    ];
    let a = detector.check_at(&metrics(8500, 9600, 100, None, procs), 0).unwrap();
    assert_eq!(a.anomaly_type, AnomalyType::Swap);
    assert_eq!(a.level, AlertLevel::Critical);
    assert_eq!(a.message, "Swap 96%: Beeper (6GB)");
}

#[test]
fn cooldown_suppresses_repeat_but_not_escalation() {
    let config = eager_config();
    assert_eq!(config.detection.notification_cooldown_minutes, 20);
    let mut detector = AnomalyDetector::new(&config);
    let warn = metrics(8500, 0, 100, None, vec![]);
    let crit = metrics(9500, 0, 100, None, vec![]);
    assert_eq!(detector.check_at(&warn, 0).unwrap().level, AlertLevel::Warning);
    assert!(detector.check_at(&warn, 600).is_none());
    assert_eq!(detector.check_at(&crit, 601).unwrap().level, AlertLevel::Critical);
    assert!(detector.check_at(&crit, 700).is_none());
    assert_eq!(detector.check_at(&crit, 601 + 1200).unwrap().level, AlertLevel::Critical);
    assert_eq!(detector.last_notified(AnomalyType::Memory), Some((1801, AlertLevel::Critical)));
}

#[test]
fn load_must_be_sustained_for_two_minutes() {
    let mut detector = AnomalyDetector::new(&eager_config());
    let procs = vec![process(7, None, "ffmpeg", GIB, 12050, None)];
    let m = metrics(5000, 0, 1234, None, procs);
    assert!(detector.check_at(&m, 1000).is_none());
    assert_eq!(detector.load_started_at(), Some(1000));
    assert!(detector.check_at(&m, 1119).is_none());
    let a = detector.check_at(&m, 1120).unwrap();
    assert_eq!(a.anomaly_type, AnomalyType::Load);
    assert_eq!(a.level, AlertLevel::Warning);
    assert_eq!(a.message, "Load 12.3: ffmpeg (120%)");
    assert!(detector.check_at(&metrics(5000, 0, 900, None, vec![]), 1150).is_none());
    assert_eq!(detector.load_started_at(), None);
}

#[test]
fn watchlist_matches_case_insensitively() {
    let mut detector = AnomalyDetector::new(&eager_config());
    let procs = vec![
        process(3, None, "GHOSTTY", 3000 * MIB, 0, None),
        process(4, None, "node", 100 * MIB, 0, None),
    ];
    let a = detector.check_at(&metrics(5000, 0, 100, None, procs), 0).unwrap();
    assert_eq!(a.anomaly_type, AnomalyType::ProcessWatchlist);
    assert_eq!(a.level, AlertLevel::Warning);
    assert_eq!(a.message, "Heavy App: GHOSTTY (3GB)");
}

#[test]
fn watchlist_ignores_light_processes() {
    let mut detector = AnomalyDetector::new(&eager_config());
    let procs = vec![process(3, None, "ghostty", 1999 * MIB, 0, None)];
    assert!(detector.check_at(&metrics(5000, 0, 100, None, procs), 0).is_none());
}

#[test]
fn watchlist_matching_on_lowered_names() {
    let name: Vec<char> = "visual studio code".chars().collect();
    let watched: Vec<Vec<char>> = vec!["arc".chars().collect(), "studio".chars().collect()];
    assert!(matches_watchlist(&name, &watched));
    let others: Vec<Vec<char>> = vec!["arc".chars().collect()];
    assert!(!matches_watchlist(&name, &others));
}

#[test]
fn critical_outranks_earlier_warning() {
    let mut config = eager_config();
    config.thresholds.memory_warning = 8000;
    config.thresholds.swap_critical = 9000;
    let mut detector = AnomalyDetector::new(&config);
    let a = detector.check_at(&metrics(8500, 9500, 100, None, vec![]), 0).unwrap();
    assert_eq!((a.anomaly_type, a.level), (AnomalyType::Swap, AlertLevel::Critical));
    assert_eq!(detector.breach_count(AnomalyType::Memory), Some(1));
}

#[test]
fn percentages_are_exact_hundredths() {
    assert_eq!(percent_exec(1, 3), 3333);
    assert_eq!(percent_exec(50, 200), 2500);
    assert_eq!(percent_exec(7, 0), 0);
    assert_eq!(percent_exec(u64::MAX, 1), u64::MAX);
}

#[test]
fn rounding_is_half_to_even() {
    assert_eq!(round_div(5, 2), 2);
    assert_eq!(round_div(7, 2), 4);
    assert_eq!(round_div(3, 2), 2);
    assert_eq!(round_div(149, 100), 1);
    assert_eq!(round_div(151, 100), 2);
}

#[test]
fn decimal_rendering() {
    let mut out = vec!['x'];
    push_decimal(&mut out, 1200);
    assert_eq!(out.iter().collect::<String>(), "x1200");
    let mut zero = Vec::new();
    push_decimal(&mut zero, 0);
    assert_eq!(zero, vec!['0']);
}

#[test]
fn remove_all_drops_every_occurrence() {
    let s: Vec<char> = "a (Group)b (Group)".chars().collect();
    let p: Vec<char> = " (Group)".chars().collect();
    assert_eq!(remove_all_exec(&s, &p).iter().collect::<String>(), "ab");
}

#[test]
fn collect_builds_snapshot() {
    let mut collector = MetricsCollector::new();
    let procs: Vec<ProcessInfo> = (0..12).map(|i| process(i, None, &format!("p{}", i), (i as u64 % 4) * MIB, 0, None)).collect();
    let m = collector.collect(sample(1000, 16 * GIB, procs));
    assert_eq!(m.memory_percent, 2500);
    assert_eq!(m.swap_percent, 0);
    assert_eq!(m.load_1m, 150);
    assert_eq!(m.top_processes.len(), 10);
    let order: Vec<u32> = m.top_processes.iter().map(|p| p.pid).collect();
    assert_eq!(order, vec![3, 7, 11, 2, 6, 10, 1, 5, 9, 0]);
    assert!(m.aggregated_processes.is_empty());
    assert_eq!(m.memory_growth_rate, None);
}

#[test]
fn sort_keeps_order_of_equals() {
    let procs = vec![
        process(1, None, "a", 5, 0, None),
        process(2, None, "b", 9, 0, None),
        process(3, None, "c", 5, 0, None),
    ];
    let sorted: Vec<u32> = sort_by_memory_exec(procs).iter().map(|p| p.pid).collect();
    assert_eq!(sorted, vec![2, 1, 3]);
}

#[test]
fn linear_growth_gives_exact_rate() {
    // 225 s between samples, 1/16 GB per sample: exactly 1 GB per hour.
    let mut collector = MetricsCollector::new();
    let mut last = None;
    for i in 0..6i64 {
        let m = collector.collect(sample(10_000 + 225 * i, 8 * GIB + (i as u64) * (GIB / 16), vec![]));
        last = m.memory_growth_rate;
    }
    assert_eq!(last, Some(100));
    assert_eq!(collector.calculate_growth_rate(), Some(100));
}

#[test]
fn falling_memory_gives_negative_rate() {
    let mut collector = MetricsCollector::new();
    collector.collect(sample(0, 10 * GIB, vec![]));
    let m = collector.collect(sample(3600, 7 * GIB, vec![]));
    assert_eq!(m.memory_growth_rate, Some(-300));
}

#[test]
fn growth_rate_unknown_cases() {
    let mut collector = MetricsCollector::new();
    let m = collector.collect(sample(500, GIB, vec![]));
    assert_eq!(m.memory_growth_rate, None);
    let m = collector.collect(sample(500, 2 * GIB, vec![]));
    assert_eq!(m.memory_growth_rate, None);
}

#[test]
fn history_is_bounded() {
    let mut collector = MetricsCollector::new();
    for i in 0..70i64 {
        collector.collect(sample(i * 30, GIB + (i as u64) * MIB, vec![]));
    }
    // 1 MiB per 30 s is 120 MiB per hour, 0.1171875 GB per hour.
    assert_eq!(collector.calculate_growth_rate(), Some(11));
}

fn app_table() -> Vec<ProcessInfo> {
    vec![
        process(1, None, "launchd", 10, 0, Some("/sbin/launchd")),
        process(10, Some(1), "Foo", 100, 150, Some("/Applications/Foo.app/Contents/MacOS/Foo")),
        process(11, Some(10), "Foo Helper", 50, 25, Some("/Applications/Foo.app/Contents/Frameworks/Helper")),
        process(12, Some(11), "worker", 25, 0, None),
        process(20, Some(1), "daemon", 1000, 0, None),
        process(30, Some(1), "Bar", 0, 0, Some("/Applications/Bar.app/Contents/MacOS/Bar")),
        process(40, Some(41), "Baz", 7, 0, Some("/Applications/Baz.app/Contents/MacOS/Baz")),
        process(41, Some(40), "Baz", 9, 0, Some("/Applications/Baz.app/Contents/MacOS/Baz")),
    ]
}

#[test]
fn aggregation_sums_each_subtree_once() {
    let procs = app_table();
    let parents: Vec<Option<u32>> = procs.iter().map(|p| p.parent_pid).collect();
    let groups = aggregate_groups(&procs, &parents);
    assert_eq!(groups.len(), 1);
    assert_eq!(groups[0].name, "Foo (Group)");
    assert_eq!(groups[0].pid, 0);
    assert_eq!(groups[0].parent_pid, None);
    assert_eq!(groups[0].exe, None);
    assert_eq!(groups[0].memory_bytes, 175);
    assert_eq!(groups[0].cpu_usage, 175);
    // Running it again on the same table changes nothing.
    let again = aggregate_groups(&procs, &parents);
    assert_eq!(again.len(), 1);
    assert_eq!(again[0].memory_bytes, 175);
}

#[test]
fn aggregation_counts_shared_process_once() {
    // 12 is reachable from both roots through a cycle-free but shared link.
    let procs = vec![
        process(10, None, "Foo", 100, 0, Some("/Applications/Foo.app/Contents/MacOS/Foo")),
        process(20, None, "Qux", 1, 0, Some("/Applications/Qux.app/Contents/MacOS/Qux")),
        process(12, Some(10), "shared", 40, 0, None),
        process(13, Some(12), "leaf", 2, 0, None),
    ];
    let mut parents: Vec<Option<u32>> = procs.iter().map(|p| p.parent_pid).collect();
    parents[1] = Some(12); // Qux's parent is inside Foo's tree, but not of its bundle
    let groups = aggregate_groups(&procs, &parents);
    let total: u64 = groups.iter().map(|g| g.memory_bytes).sum();
    assert_eq!(total, 143);
    assert_eq!(groups[0].name, "Foo (Group)");
    assert_eq!(groups[0].memory_bytes, 143);
    assert_eq!(groups.len(), 1);
}

#[test]
fn oracle_parents_take_precedence() {
    let procs = vec![process(5, Some(1), "a", 1, 0, None), process(6, None, "b", 1, 0, None)];
    let map = vec![(6, 5), (5, 2), (5, 3)];
    assert_eq!(merge_parents(&procs, &map), vec![Some(3), Some(5)]);
    assert_eq!(merge_parents(&procs, &vec![]), vec![Some(1), None]);
}

#[test]
fn collect_aggregated_uses_oracle_links() {
    let mut collector = MetricsCollector::new();
    let procs = vec![
        process(10, None, "Foo", 100, 0, Some("/Applications/Foo.app/Contents/MacOS/Foo")),
        process(11, None, "orphan", 30, 0, None),
    ];
    let m = collector.collect_aggregated(sample(0, GIB, procs), &vec![(11, 10)]);
    assert_eq!(m.aggregated_processes.len(), 1);
    assert_eq!(m.aggregated_processes[0].memory_bytes, 130);
    assert_eq!(m.top_processes.len(), 2);
}

#[test]
fn app_names_from_paths() {
    assert_eq!(
        extract_app_name("/Applications/Visual Studio Code.app/Contents/MacOS/Electron"),
        Some("Visual Studio Code".to_string())
    );
    assert_eq!(extract_app_name("/usr/bin/python3"), None);
    assert_eq!(extract_app_name("Foo.app/x"), None);
}

#[test]
fn human_names_resolve_generic_hosts() {
    let p = process(1, None, "Electron Helper (Renderer)", 1, 0, Some("/Applications/Slack.app/Contents/Frameworks/x"));
    assert_eq!(p.human_name(), "Slack");
    let g = process(0, None, "Ghostty (Group)", 1, 0, None);
    assert_eq!(g.human_name(), "Ghostty");
    let plain = process(2, None, "Safari", 1, 0, Some("/Applications/Safari.app/Contents/MacOS/Safari"));
    assert_eq!(plain.human_name(), "Safari");
    let no_bundle = process(3, None, "node", 1, 0, Some("/usr/local/bin/node"));
    assert_eq!(no_bundle.human_name(), "node");
}

#[test]
fn default_configuration() {
    let config = Config::default();
    let t: ThresholdConfig = config.thresholds;
    assert_eq!((t.memory_warning, t.memory_critical), (8000, 9000));
    assert_eq!((t.swap_warning, t.swap_critical), (8000, 9500));
    assert_eq!((t.load_warning, t.load_critical), (1000, 5000));
    assert_eq!((t.memory_growth_rate_warning, t.memory_growth_rate_critical), (300, 800));
    assert_eq!(t.recovery_margin, 500);
    assert_eq!(config.general.check_interval_seconds, 30);
    assert_eq!(config.general.ipc_socket, "/tmp/system-sentinel.soc");
    assert_eq!(default_process_watchlist(), vec!["ghostty", "Arc", "node", "Electron"]);
    assert_eq!(config.detection.process_memory_threshold_mb, 2000);
    assert_eq!(config.notification.warning_color, "#FFA500");
    assert_eq!(config.notification.critical_color, "#FF4444");
}

#[test]
fn health_states() {
    assert_eq!(HealthState::from_metrics(&metrics(9100, 0, 0, None, vec![])), HealthState::Critical);
    assert_eq!(HealthState::from_metrics(&metrics(8100, 5100, 0, None, vec![])), HealthState::Critical);
    assert_eq!(HealthState::from_metrics(&metrics(9000, 0, 0, None, vec![])), HealthState::Warning);
    assert_eq!(HealthState::from_metrics(&metrics(5000, 3100, 0, None, vec![])), HealthState::Warning);
    assert_eq!(HealthState::from_metrics(&metrics(5000, 0, 0, Some(201), vec![])), HealthState::Warning);
    assert_eq!(HealthState::from_metrics(&metrics(8000, 3000, 0, Some(200), vec![])), HealthState::Healthy);
    assert_eq!(HealthState::Critical.tooltip(), "System Sentinel - Critical!");
}

fn anomaly(level: AlertLevel, message: &str, details: Vec<&str>) -> system_sentinel::detector::Anomaly {
    system_sentinel::detector::Anomaly {
        anomaly_type: AnomalyType::Memory,
        level,
        message: message.to_string(),
        details: details.into_iter().map(|d| d.to_string()).collect(),
    }
}

#[test]
fn delivery_goes_hammerspoon_then_fallback() {
    let notifier = Notifier::new(&Config::default());
    let a = anomaly(AlertLevel::Critical, "Mem \"95%\"", vec![]);
    match notifier.send(&a, DeliveryEvent::Start) {
        DeliveryAction::RunHammerspoon { command } => {
            assert!(command.starts_with("hs.alert.show(\"🚨 Mem \\\"95%\\\"\", {"));
            assert!(command.contains("fillColor = { hex = \"#FF4444\", alpha = 0.95 },"));
            assert!(command.ends_with("}, 15)"));
        }
        _ => panic!("expected hammerspoon"),
    }
    match notifier.send(&a, DeliveryEvent::HammerspoonFailed) {
        DeliveryAction::RunTerminalNotifier { title, message } => {
            assert_eq!(title, "System Sentinel CRITICAL");
            assert_eq!(message, "Mem \"95%\"\n");
        }
        _ => panic!("expected terminal-notifier"),
    }
    assert!(matches!(notifier.send(&a, DeliveryEvent::HammerspoonSent), DeliveryAction::Delivered));
    assert!(matches!(notifier.send(&a, DeliveryEvent::TerminalNotifierFailed), DeliveryAction::Failed));
}

#[test]
fn delivery_without_fallback_fails() {
    let mut config = Config::default();
    config.notification.fallback_to_terminal_notifier = false;
    let notifier = Notifier::new(&config);
    let a = anomaly(AlertLevel::Warning, "x", vec!["one", "two"]);
    assert!(matches!(notifier.send(&a, DeliveryEvent::HammerspoonFailed), DeliveryAction::Failed));
    match notifier.send(&a, DeliveryEvent::Start) {
        DeliveryAction::RunHammerspoon { command } => {
            assert!(command.starts_with("hs.alert.show(\"⚠️ x\\none\\ntwo\", {"));
            assert!(command.ends_with("}, 10)"));
        }
        _ => panic!("expected hammerspoon"),
    }
    let (title, message) = notifier.terminal_notifier_text(&a);
    assert_eq!(title, "System Sentinel Warning");
    assert_eq!(message, "x\none\ntwo");
}

#[test]
fn narration_paths_and_frames() {
    let narrator = Narrator::new("/tmp/tts-daemon.sock", "/Users/me", ".speech/hooks");
    assert_eq!(narrator.hooks_path, "/Users/me/.speech/hooks");
    assert_eq!(narrator.socket_path, "/tmp/tts-daemon.sock");
    assert_eq!(narrator.resolve_sound("sounds/ding.wav"), "/Users/me/.speech/hooks/sounds/ding.wav");
    assert_eq!(narrator.resolve_sound("/tmp/x.wav"), "/tmp/x.wav");
    assert_eq!(Narrator::new("/s", "/root/", "hooks").hooks_path, "/root/hooks");
    assert_eq!(Narrator::new("/s", "/root", "/etc/hooks").hooks_path, "/etc/hooks");
    assert_eq!(Narrator::frame(&vec![7u8; 300]).unwrap()[..6], [0, 0, 1, 44, 7, 7]);
    assert!(Narrator::accepted(&b"OK".to_vec()));
    assert!(!Narrator::accepted(&b"NO".to_vec()));
}

#[test]
fn ps_output_parsing() {
    let text: Vec<char> = "  PID  PPID\n    1     0\n   42     1\n   43   abc\n   44     1 extra\n99999999999 1\n\t7\t42\r\n".chars().collect();
    assert_eq!(parse_parent_map(&text), vec![(42, 1), (44, 1), (7, 42)]);
    let header_only: Vec<char> = "PID PPID".chars().collect();
    assert!(parse_parent_map(&header_only).is_empty());
    assert!(parse_parent_map(&Vec::new()).is_empty());
}
