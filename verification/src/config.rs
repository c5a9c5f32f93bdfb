//! The applet's persisted settings, as far as its logic reads them.

use vstd::prelude::*;

verus! {

/// How often the applet refreshes sensor data, in milliseconds.
pub const DEFAULT_REFRESH_INTERVAL_MS: u64 = 2000;
/// Lower bound the user can pick for the refresh interval.
pub const MIN_REFRESH_INTERVAL_MS: u64 = 250;
/// Upper bound the user can pick for the refresh interval.
pub const MAX_REFRESH_INTERVAL_MS: u64 = 10000;

/// The settings that drive what the applet refreshes and shows.
pub struct Settings {
    /// How often sensor data is refreshed, in milliseconds.
    pub refresh_interval_ms: u64,
    /// Show the CPU usage metric on the panel.
    pub show_cpu: bool,
    /// Show the memory usage metric on the panel.
    pub show_memory: bool,
    /// Show the GPU usage / VRAM / temperature metric on the panel.
    pub show_gpu: bool,
    /// Show the network download / upload metric on the panel.
    pub show_network: bool,
    /// Network interface to monitor. `None` = auto-pick the primary
    /// non-loopback interface.
    pub network_interface: Option<String>,
}

impl Clone for Settings {
    fn clone(&self) -> (r: Self)
        ensures
            r == *self,
    {
        let network_interface = match &self.network_interface {
            Some(s) => Some(s.clone()),
            None => None,
        };
        Settings {
            refresh_interval_ms: self.refresh_interval_ms,
            show_cpu: self.show_cpu,
            show_memory: self.show_memory,
            show_gpu: self.show_gpu,
            show_network: self.show_network,
            network_interface,
        }
    }
}

/// The settings of a fresh installation.
pub open spec fn default_settings() -> Settings {
    Settings {
        refresh_interval_ms: DEFAULT_REFRESH_INTERVAL_MS,
        show_cpu: true,
        show_memory: true,
        show_gpu: true,
        show_network: true,
        network_interface: None,
    }
}

impl Default for Settings {
    fn default() -> (r: Self)
        ensures
            r == default_settings(),
    {
        Settings {
            refresh_interval_ms: DEFAULT_REFRESH_INTERVAL_MS,
            show_cpu: true,
            show_memory: true,
            show_gpu: true,
            show_network: true,
            network_interface: None,
        }
    }
}

/// `ms` brought into `[MIN_REFRESH_INTERVAL_MS, MAX_REFRESH_INTERVAL_MS]`.
pub open spec fn clamp_interval(ms: int) -> u64 {
    if ms < MIN_REFRESH_INTERVAL_MS {
        MIN_REFRESH_INTERVAL_MS
    } else if ms > MAX_REFRESH_INTERVAL_MS {
        MAX_REFRESH_INTERVAL_MS
    } else {
        ms as u64
    }
}

/// Brings a refresh interval into the range the user can pick.
pub fn clamp_refresh_interval(ms: u64) -> (r: u64)
    ensures
        r == clamp_interval(ms as int),
        MIN_REFRESH_INTERVAL_MS <= r <= MAX_REFRESH_INTERVAL_MS,
{
    if ms < MIN_REFRESH_INTERVAL_MS {
        MIN_REFRESH_INTERVAL_MS
    } else if ms > MAX_REFRESH_INTERVAL_MS {
        MAX_REFRESH_INTERVAL_MS
    } else {
        ms
    }
}

} // verus!
