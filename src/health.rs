//! The overall health shown in the tray, derived from a snapshot.

use vstd::prelude::*;
use crate::metrics::SystemMetrics;

verus! {

/// System health state for the tray icon.
#[derive(Debug, Clone, Copy, PartialEq, Eq, Structural)]
pub enum HealthState {
    Healthy,
    Warning,
    Critical,
}

/// Critical above 90 % memory, or above 80 % with swap above 50 %; Warning
/// above 80 % memory, above 30 % swap, or growing faster than 2 GB per hour.
pub open spec fn health_of(memory_percent: u64, swap_percent: u64, growth: Option<i64>) -> HealthState {
    if memory_percent > 9000 || (swap_percent > 5000 && memory_percent > 8000) {
        HealthState::Critical
    } else if memory_percent > 8000 || swap_percent > 3000 || (growth matches Some(g) && g > 200) {
        HealthState::Warning
    } else {
        HealthState::Healthy
    }
}

impl HealthState {
    /// Determines the health state from a snapshot.
    pub fn from_metrics(metrics: &SystemMetrics) -> (r: HealthState)
        ensures
            r == health_of(metrics.memory_percent, metrics.swap_percent, metrics.memory_growth_rate),
    {
        let mem = metrics.memory_percent;
        let swap = metrics.swap_percent;
        if mem > 9000 || (swap > 5000 && mem > 8000) {
            return HealthState::Critical;
        }
        let growing = match metrics.memory_growth_rate {
            Some(g) => g > 200,
            None => false,
        };
        if mem > 8000 || swap > 3000 || growing {
            return HealthState::Warning;
        }
        HealthState::Healthy
    }

    /// The tray tooltip for the state.
    pub fn tooltip(&self) -> (r: String)
        ensures
            r@ == (match self {
                HealthState::Healthy => "System Sentinel - Healthy"@,
                HealthState::Warning => "System Sentinel - Warning"@,
                HealthState::Critical => "System Sentinel - Critical!"@,
            }),
    {
        match self {
            HealthState::Healthy => String::from_str("System Sentinel - Healthy"),
            HealthState::Warning => String::from_str("System Sentinel - Warning"),
            HealthState::Critical => String::from_str("System Sentinel - Critical!"),
        }
    }
}

/// An action proposed to the user, run only once confirmed.
pub struct SuggestedAction {
    pub action_type: String,
    pub description: String,
    /// "low", "moderate" or "high".
    pub risk: String,
    pub command: Option<String>,
    pub pid: Option<u32>,
}

} // verus!
