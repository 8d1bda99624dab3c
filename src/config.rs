//! Monitor configuration: thresholds and detection policy as plain values.
//!
//! Percentages, loads and growth rates are in hundredths, as in the metrics.

use vstd::prelude::*;

verus! {

#[derive(Debug, Clone)]
pub struct Config {
    pub general: GeneralConfig,
    pub thresholds: ThresholdConfig,
    pub detection: DetectionConfig,
    pub notification: NotificationConfig,
}

#[derive(Debug, Clone)]
pub struct GeneralConfig {
    pub check_interval_seconds: u64,
    pub log_file: String,
    pub ipc_socket: String,
}

#[derive(Debug, Clone, Copy, PartialEq, Eq, Structural)]
pub struct ThresholdConfig {
    /// Hundredths of a percent.
    pub memory_warning: u64,
    pub memory_critical: u64,
    pub swap_warning: u64,
    pub swap_critical: u64,
    /// Load averages in hundredths.
    pub load_warning: u64,
    pub load_critical: u64,
    /// Hundredths of a gigabyte per hour.
    pub memory_growth_rate_warning: u64,
    pub memory_growth_rate_critical: u64,
    /// Hundredths of a percent.
    pub recovery_margin: u64,
}

#[derive(Debug, Clone)]
pub struct DetectionConfig {
    pub process_watchlist: Vec<String>,
    pub process_memory_threshold_mb: u64,
    pub notification_cooldown_minutes: u64,
    pub persistent_breach_threshold: u32,
}

#[derive(Debug, Clone)]
pub struct NotificationConfig {
    pub use_hammerspoon: bool,
    pub fallback_to_terminal_notifier: bool,
    pub warning_color: String,
    pub critical_color: String,
}

pub fn default_check_interval() -> (r: u64)
    ensures
        r == 30,
{
    30
}

pub fn default_log_file() -> (r: String)
    ensures
        r@ == "~/.local/share/system-sentinel/sentinel.log"@,
{
    String::from_str("~/.local/share/system-sentinel/sentinel.log")
}

pub fn default_ipc_socket() -> (r: String)
    ensures
        r@ == "/tmp/system-sentinel.soc"@,
{
    String::from_str("/tmp/system-sentinel.soc")
}

/// The default process watchlist.
pub open spec fn default_watchlist_spec() -> Seq<Seq<char>> {
    seq!["ghostty"@, "Arc"@, "node"@, "Electron"@]
}

pub fn default_process_watchlist() -> (r: Vec<String>)
    ensures
        r@.len() == 4,
        forall|i: int| 0 <= i < 4 ==> #[trigger] r@[i]@ == default_watchlist_spec()[i],
{
    let r = vec![
        String::from_str("ghostty"),
        String::from_str("Arc"),
        String::from_str("node"),
        String::from_str("Electron"),
    ];
    r
}

pub fn default_process_memory_threshold_mb() -> (r: u64)
    ensures
        r == 2000,
{
    2000
}

pub fn default_notification_cooldown_minutes() -> (r: u64)
    ensures
        r == 20,
{
    20
}

pub fn default_persistent_breach_threshold() -> (r: u32)
    ensures
        r == 3,
{
    3
}

pub fn default_use_hammerspoon() -> (r: bool)
    ensures
        r,
{
    true
}

pub fn default_fallback_to_terminal_notifier() -> (r: bool)
    ensures
        r,
{
    true
}

pub fn default_warning_color() -> (r: String)
    ensures
        r@ == "#FFA500"@,
{
    String::from_str("#FFA500")
}

pub fn default_critical_color() -> (r: String)
    ensures
        r@ == "#FF4444"@,
{
    String::from_str("#FF4444")
}

/// The default thresholds: memory 80/90 %, swap 80/95 %, load 10/50,
/// growth 3/8 GB per hour, recovery margin 5 %.
pub open spec fn default_thresholds_spec() -> ThresholdConfig {
    ThresholdConfig {
        memory_warning: 8000,
        memory_critical: 9000,
        swap_warning: 8000,
        swap_critical: 9500,
        load_warning: 1000,
        load_critical: 5000,
        memory_growth_rate_warning: 300,
        memory_growth_rate_critical: 800,
        recovery_margin: 500,
    }
}

impl Default for GeneralConfig {
    fn default() -> (r: Self)
        ensures
            r.check_interval_seconds == 30,
            r.log_file@ == "~/.local/share/system-sentinel/sentinel.log"@,
            r.ipc_socket@ == "/tmp/system-sentinel.soc"@,
    {
        GeneralConfig {
            check_interval_seconds: default_check_interval(),
            log_file: default_log_file(),
            ipc_socket: default_ipc_socket(),
        }
    }
}

impl Default for ThresholdConfig {
    fn default() -> (r: Self)
        ensures
            r == default_thresholds_spec(),
    {
        ThresholdConfig {
            memory_warning: 8000,
            memory_critical: 9000,
            swap_warning: 8000,
            swap_critical: 9500,
            load_warning: 1000,
            load_critical: 5000,
            memory_growth_rate_warning: 300,
            memory_growth_rate_critical: 800,
            recovery_margin: 500,
        }
    }
}

impl Default for DetectionConfig {
    fn default() -> (r: Self)
        ensures
            r.process_watchlist@.len() == 4,
            forall|i: int| 0 <= i < 4 ==> #[trigger] r.process_watchlist@[i]@ == default_watchlist_spec()[i],
            r.process_memory_threshold_mb == 2000,
            r.notification_cooldown_minutes == 20,
            r.persistent_breach_threshold == 3,
    {
        DetectionConfig {
            process_watchlist: default_process_watchlist(),
            process_memory_threshold_mb: default_process_memory_threshold_mb(),
            notification_cooldown_minutes: default_notification_cooldown_minutes(),
            persistent_breach_threshold: default_persistent_breach_threshold(),
        }
    }
}

impl Default for NotificationConfig {
    fn default() -> (r: Self)
        ensures
            r.use_hammerspoon,
            r.fallback_to_terminal_notifier,
            r.warning_color@ == "#FFA500"@,
            r.critical_color@ == "#FF4444"@,
    {
        NotificationConfig {
            use_hammerspoon: default_use_hammerspoon(),
            fallback_to_terminal_notifier: default_fallback_to_terminal_notifier(),
            warning_color: default_warning_color(),
            critical_color: default_critical_color(),
        }
    }
}

impl Default for Config {
    fn default() -> (r: Self)
        ensures
            r.general.check_interval_seconds == 30,
            r.thresholds == default_thresholds_spec(),
            r.detection.process_watchlist@.len() == 4,
            forall|i: int| 0 <= i < 4 ==> #[trigger] r.detection.process_watchlist@[i]@ == default_watchlist_spec()[i],
            r.detection.process_memory_threshold_mb == 2000,
            r.detection.notification_cooldown_minutes == 20,
            r.detection.persistent_breach_threshold == 3,
            r.notification.use_hammerspoon,
            r.notification.fallback_to_terminal_notifier,
    {
        Config {
            general: GeneralConfig::default(),
            thresholds: ThresholdConfig::default(),
            detection: DetectionConfig::default(),
            notification: NotificationConfig::default(),
        }
    }
}

/// A copy of a list of strings.
pub fn copy_strings(v: &Vec<String>) -> (r: Vec<String>)
    ensures
        r@ == v@,
{
    let mut r: Vec<String> = Vec::new();
    let mut i: usize = 0;
    while i < v.len()
        invariant
            i <= v.len(),
            r@ == v@.subrange(0, i as int),
        decreases v.len() - i,
    {
        r.push(v[i].clone());
        i = i + 1;
        assert(r@ =~= v@.subrange(0, i as int));
    }
    assert(v@.subrange(0, v.len() as int) =~= v@);
    r
}

impl Config {
    /// The two configurations hold the same values.
    pub open spec fn same_as(self, other: Config) -> bool {
        &&& self.general.check_interval_seconds == other.general.check_interval_seconds
        &&& self.general.log_file == other.general.log_file
        &&& self.general.ipc_socket == other.general.ipc_socket
        &&& self.thresholds == other.thresholds
        &&& self.detection.process_watchlist@ == other.detection.process_watchlist@
        &&& self.detection.process_memory_threshold_mb == other.detection.process_memory_threshold_mb
        &&& self.detection.notification_cooldown_minutes == other.detection.notification_cooldown_minutes
        &&& self.detection.persistent_breach_threshold == other.detection.persistent_breach_threshold
        &&& self.notification == other.notification
    }

    /// A field-by-field copy of the configuration.
    pub fn copied(&self) -> (r: Config)
        ensures
            r.same_as(*self),
    {
        Config {
            general: GeneralConfig {
                check_interval_seconds: self.general.check_interval_seconds,
                log_file: self.general.log_file.clone(),
                ipc_socket: self.general.ipc_socket.clone(),
            },
            thresholds: self.thresholds,
            detection: DetectionConfig {
                process_watchlist: copy_strings(&self.detection.process_watchlist),
                process_memory_threshold_mb: self.detection.process_memory_threshold_mb,
                notification_cooldown_minutes: self.detection.notification_cooldown_minutes,
                persistent_breach_threshold: self.detection.persistent_breach_threshold,
            },
            notification: NotificationConfig {
                use_hammerspoon: self.notification.use_hammerspoon,
                fallback_to_terminal_notifier: self.notification.fallback_to_terminal_notifier,
                warning_color: self.notification.warning_color.clone(),
                critical_color: self.notification.critical_color.clone(),
            },
        }
    }
}

} // verus!
