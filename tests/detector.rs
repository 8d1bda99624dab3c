use system_sentinel::config::Config;
use system_sentinel::detector::{AlertLevel, AnomalyDetector, AnomalyType};
use system_sentinel::metrics::SystemMetrics;

const GIB: u64 = 1024 * 1024 * 1024;

/// A fraction in hundredths, the library's fixed-point unit.
fn hundredths(v: f64) -> u64 {
    (v * 100.0).round() as u64
}

fn mock_metrics(mem: f64, swap: f64, growth: Option<f64>) -> SystemMetrics {
    SystemMetrics {
        timestamp: 1_700_000_000,
        memory_total: 100 * GIB,
        memory_used: (mem * GIB as f64) as u64,
        memory_free: ((100.0 - mem) * GIB as f64) as u64,
        memory_percent: hundredths(mem),
        swap_total: 100 * GIB,
        swap_used: (swap * GIB as f64) as u64,
        swap_percent: hundredths(swap),
        load_1m: hundredths(1.0),
        load_5m: hundredths(1.0),
        load_15m: hundredths(1.0),
        top_processes: vec![],
        aggregated_processes: vec![],
        memory_growth_rate: growth.map(|g| (g * 100.0).round() as i64),
    }
}

#[test]
fn test_damping() {
    let mut config = Config::default();
    config.detection.persistent_breach_threshold = 3;
    config.thresholds.memory_critical = hundredths(90.0);

    let mut detector = AnomalyDetector::new(&config);
    let metrics = mock_metrics(95.0, 0.0, None);

    // Breach 1
    assert!(detector.check(&metrics).is_none());
    assert_eq!(detector.breach_count(AnomalyType::Memory).unwrap(), 1);

    // Breach 2
    assert!(detector.check(&metrics).is_none());
    assert_eq!(detector.breach_count(AnomalyType::Memory).unwrap(), 2);

    // Breach 3
    let a = detector.check(&metrics).expect("Should alert now");
    assert_eq!(a.level, AlertLevel::Critical);
}

#[test]
fn test_hysteresis() {
    let mut config = Config::default();
    config.detection.persistent_breach_threshold = 1;
    config.detection.notification_cooldown_minutes = 0; // Disable cooldown for test
    config.thresholds.memory_warning = hundredths(80.0);
    config.thresholds.recovery_margin = hundredths(5.0); // recovery at 75.0

    let mut detector = AnomalyDetector::new(&config);

    // 1. Enter warning
    let m_high = mock_metrics(82.0, 0.0, None);
    detector.check(&m_high).expect("Should fire");

    // 2. Drop below threshold but above recovery (80.0 -> 78.0)
    let m_mid = mock_metrics(78.0, 0.0, None);
    let a = detector.check(&m_mid).expect("Should stay in alert");
    assert_eq!(a.level, AlertLevel::Warning);

    // 3. Drop below recovery (75.0 -> 74.0)
    let m_low = mock_metrics(74.0, 0.0, None);
    assert!(detector.check(&m_low).is_none());
    assert!(detector.active_alert(AnomalyType::Memory).is_none());
}

#[test]
fn test_inhibition() {
    let mut config = Config::default();
    config.detection.persistent_breach_threshold = 1;
    config.detection.notification_cooldown_minutes = 0;
    config.thresholds.memory_warning = hundredths(80.0);
    config.thresholds.memory_growth_rate_warning = hundredths(1.0);

    let mut detector = AnomalyDetector::new(&config);

    // High memory + high growth
    let m = mock_metrics(85.0, 0.0, Some(5.0));
    let a = detector.check(&m).expect("Should alert");

    // Growth should be inhibited by memory
    assert_eq!(a.anomaly_type, AnomalyType::Memory);
}

#[test]
fn test_swap_correlation() {
    let mut config = Config::default();
    config.detection.persistent_breach_threshold = 1;
    config.detection.notification_cooldown_minutes = 0;
    config.thresholds.swap_warning = hundredths(80.0);
    config.thresholds.memory_warning = hundredths(90.0);

    let mut detector = AnomalyDetector::new(&config);

    // High swap (90%) but low memory (70%)
    let m_low_mem = mock_metrics(70.0, 90.0, None);
    assert!(detector.check(&m_low_mem).is_none(), "Swap alert should be suppressed when memory is low");

    // High swap (90%) and high memory (85%)
    let m_high_mem = mock_metrics(85.0, 90.0, None);
    let a = detector.check(&m_high_mem).expect("Should alert when memory is high");
    assert_eq!(a.anomaly_type, AnomalyType::Swap);
}
