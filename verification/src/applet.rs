//! The applet's decisions: from its state and an incoming message to its
//! next state and the one action the surrounding program performs.

use vstd::prelude::*;
use crate::config::{
    clamp_interval, clamp_refresh_interval, Settings, MAX_REFRESH_INTERVAL_MS,
    MIN_REFRESH_INTERVAL_MS,
};

verus! {

/// Which metric the user can toggle in the popup checklist.
#[derive(Clone, Copy, PartialEq, Eq, Structural, Debug)]
pub enum Metric {
    Cpu,
    Memory,
    Gpu,
    Network,
}

/// Messages the applet reacts to.
pub enum Message {
    /// The panel button was pressed.
    TogglePopup,
    /// A window closed: the popup token of that window, `None` when it is not
    /// a popup this model opened.
    PopupClosed(Option<u64>),
    /// A periodic tick; carries the nanoseconds measured since the previous
    /// tick.
    Tick(u128),
    /// The user toggled one of the metric checkboxes in the popup.
    ToggleMetric(Metric, bool),
    /// The user picked a network interface (or `None` for auto).
    SelectNetworkInterface(Option<String>),
    /// The user moved the refresh-interval slider: its position rounded to a
    /// whole number of milliseconds (a position that is not a number counts
    /// as 0).
    SetRefreshInterval(i64),
    /// The persisted settings changed outside the applet.
    UpdateConfig(Settings),
}

/// What the surrounding program does after a message.
pub enum Action {
    /// Nothing.
    Nothing,
    /// Refresh every sensor; `since_nanos` is the time the rates are taken
    /// over and `interface` the selected network interface.
    Refresh { since_nanos: u128, interface: Option<String> },
    /// Persist these settings.
    Persist(Settings),
    /// Open the popup window identified by this token.
    OpenPopup(u64),
    /// Close the popup window identified by this token.
    ClosePopup(u64),
}

/// The applet's state.
pub struct AppModel {
    /// The token of the open popup, if one is open.
    pub popup: Option<u64>,
    /// The settings in force.
    pub config: Settings,
    /// The token the next opened popup gets.
    pub next_popup: u64,
}

/// Nanoseconds in a millisecond.
pub const NANOS_PER_MILLI: u128 = 1000000;
/// Ticks closer together than this are taken as one refresh interval.
pub const MIN_TICK_NANOS: u128 = 50000000;

/// The token after `t`.
pub open spec fn next_token(t: u64) -> u64 {
    if t == u64::MAX { 0 } else { (t + 1) as u64 }
}

/// The time a tick's rates are taken over: the configured interval when the
/// measured time is under 50 ms (timer jitter), else the measured time.
pub open spec fn tick_delta(refresh_interval_ms: u64, elapsed_nanos: u128) -> u128 {
    if elapsed_nanos < MIN_TICK_NANOS {
        (clamp_interval(refresh_interval_ms as int) * NANOS_PER_MILLI) as u128
    } else {
        elapsed_nanos
    }
}

/// The refresh interval set by the slider: the rounded position brought
/// into the range the user can pick.
pub open spec fn slider_interval(position: i64) -> u64 {
    clamp_interval(position as int)
}

/// `config` with the visibility of `metric` set to `on`.
pub open spec fn with_metric(config: Settings, metric: Metric, on: bool) -> Settings {
    match metric {
        Metric::Cpu => Settings { show_cpu: on, ..config },
        Metric::Memory => Settings { show_memory: on, ..config },
        Metric::Gpu => Settings { show_gpu: on, ..config },
        Metric::Network => Settings { show_network: on, ..config },
    }
}

/// The next state and action of the applet for a message.
pub open spec fn step(m: AppModel, msg: Message) -> (AppModel, Action) {
    match msg {
        Message::Tick(elapsed) => (
            m,
            Action::Refresh {
                since_nanos: tick_delta(m.config.refresh_interval_ms, elapsed),
                interface: m.config.network_interface,
            },
        ),
        Message::UpdateConfig(c) => (AppModel { config: c, ..m }, Action::Nothing),
        Message::ToggleMetric(metric, on) => {
            let c = with_metric(m.config, metric, on);
            (AppModel { config: c, ..m }, Action::Persist(c))
        },
        Message::SelectNetworkInterface(choice) => {
            let c = Settings { network_interface: choice, ..m.config };
            (AppModel { config: c, ..m }, Action::Persist(c))
        },
        Message::SetRefreshInterval(position) => {
            let c = Settings { refresh_interval_ms: slider_interval(position), ..m.config };
            (AppModel { config: c, ..m }, Action::Persist(c))
        },
        Message::TogglePopup => match m.popup {
            Some(p) => (AppModel { popup: None, ..m }, Action::ClosePopup(p)),
            None => (
                AppModel { popup: Some(m.next_popup), next_popup: next_token(m.next_popup), ..m },
                Action::OpenPopup(m.next_popup),
            ),
        },
        Message::PopupClosed(token) => {
            if token is Some && m.popup == token {
                (AppModel { popup: None, ..m }, Action::Nothing)
            } else {
                (m, Action::Nothing)
            }
        },
    }
}


/// Whether `metric` is shown under `config`.
pub open spec fn shows(config: Settings, metric: Metric) -> bool {
    match metric {
        Metric::Cpu => config.show_cpu,
        Metric::Memory => config.show_memory,
        Metric::Gpu => config.show_gpu,
        Metric::Network => config.show_network,
    }
}

/// Pressing the panel button twice from a closed popup opens a popup and then
/// closes that same popup, leaving the settings as they were.
pub proof fn lemma_toggle_popup_twice(m: AppModel)
    requires
        m.popup is None,
    ensures
        ({
            let (m1, a1) = step(m, Message::TogglePopup);
            let (m2, a2) = step(m1, Message::TogglePopup);
            &&& a1 == Action::OpenPopup(m.next_popup)
            &&& m1.popup == Some(m.next_popup)
            &&& a2 == Action::ClosePopup(m.next_popup)
            &&& m2.popup is None
            &&& m2.config == m.config
        }),
{
}

/// Closing the window of the open popup forgets it; closing any other
/// window changes nothing.
pub proof fn lemma_popup_closed(m: AppModel, token: Option<u64>)
    ensures
        ({
            let (m1, a) = step(m, Message::PopupClosed(token));
            &&& a == Action::Nothing
            &&& m1.config == m.config
            &&& (token is Some && m.popup == token) ==> m1.popup is None
            &&& !(token is Some && m.popup == token) ==> m1 == m
        }),
{
}

/// Toggling a metric sets that metric's visibility and nothing else, and
/// the settings persisted are the settings now in force.
pub proof fn lemma_toggle_metric(m: AppModel, metric: Metric, on: bool, other: Metric)
    requires
        other != metric,
    ensures
        ({
            let (m1, a) = step(m, Message::ToggleMetric(metric, on));
            &&& shows(m1.config, metric) == on
            &&& shows(m1.config, other) == shows(m.config, other)
            &&& m1.config.refresh_interval_ms == m.config.refresh_interval_ms
            &&& m1.config.network_interface == m.config.network_interface
            &&& m1.popup == m.popup
            &&& m1.next_popup == m.next_popup
            &&& a == Action::Persist(m1.config)
        }),
{
}

/// Every slider position yields an interval the user can pick: the position
/// itself when it is in range, else the nearest bound. Nothing else changes.
pub proof fn lemma_slider_interval_in_range(m: AppModel, position: i64)
    ensures
        ({
            let (m1, a) = step(m, Message::SetRefreshInterval(position));
            &&& MIN_REFRESH_INTERVAL_MS <= m1.config.refresh_interval_ms <= MAX_REFRESH_INTERVAL_MS
            &&& (MIN_REFRESH_INTERVAL_MS <= position <= MAX_REFRESH_INTERVAL_MS)
                ==> m1.config.refresh_interval_ms == position
            &&& position < MIN_REFRESH_INTERVAL_MS ==> m1.config.refresh_interval_ms == MIN_REFRESH_INTERVAL_MS
            &&& position > MAX_REFRESH_INTERVAL_MS ==> m1.config.refresh_interval_ms == MAX_REFRESH_INTERVAL_MS
            &&& m1.config.show_cpu == m.config.show_cpu
            &&& m1.config.show_memory == m.config.show_memory
            &&& m1.config.show_gpu == m.config.show_gpu
            &&& m1.config.show_network == m.config.show_network
            &&& m1.config.network_interface == m.config.network_interface
            &&& m1.popup == m.popup
            &&& m1.next_popup == m.next_popup
            &&& a == Action::Persist(m1.config)
        }),
{
}

/// A tick never changes the state, and the rates it asks for are taken over
/// at least 50 ms, whatever the timer jitter.
pub proof fn lemma_tick_refreshes(m: AppModel, elapsed: u128)
    ensures
        ({
            let (m1, a) = step(m, Message::Tick(elapsed));
            &&& m1 == m
            &&& a matches Action::Refresh { since_nanos, interface }
            &&& since_nanos >= MIN_TICK_NANOS
            &&& interface == m.config.network_interface
        }),
{
}

/// Selecting an interface records exactly that selection and changes
/// nothing else: the refresh interval, every shown metric and the popup stay
/// as they were, and the settings persisted are the settings now in force.
pub proof fn lemma_select_interface(m: AppModel, choice: Option<String>)
    ensures
        ({
            let (m1, a) = step(m, Message::SelectNetworkInterface(choice));
            &&& m1.config.network_interface == choice
            &&& m1.config.refresh_interval_ms == m.config.refresh_interval_ms
            &&& m1.config.show_cpu == m.config.show_cpu
            &&& m1.config.show_memory == m.config.show_memory
            &&& m1.config.show_gpu == m.config.show_gpu
            &&& m1.config.show_network == m.config.show_network
            &&& m1.popup == m.popup
            &&& m1.next_popup == m.next_popup
            &&& a == Action::Persist(m1.config)
        }),
{
}

impl AppModel {
    /// The state at start-up, and the priming refresh that fills the panel at
    /// once (taken over the configured interval, at least the minimum).
    pub fn init(config: Settings) -> (r: (AppModel, Action))
        ensures
            r.0 == (AppModel { popup: None, config, next_popup: 0 }),
            r.1 == (Action::Refresh {
                since_nanos: (if config.refresh_interval_ms < MIN_REFRESH_INTERVAL_MS {
                    MIN_REFRESH_INTERVAL_MS
                } else {
                    config.refresh_interval_ms
                } * NANOS_PER_MILLI) as u128,
                interface: config.network_interface,
            }),
    {
        let ms = if config.refresh_interval_ms < MIN_REFRESH_INTERVAL_MS {
            MIN_REFRESH_INTERVAL_MS
        } else {
            config.refresh_interval_ms
        };
        let interface = match &config.network_interface {
            Some(s) => Some(s.clone()),
            None => None,
        };
        let action = Action::Refresh { since_nanos: (ms as u128) * NANOS_PER_MILLI, interface };
        (AppModel { popup: None, config, next_popup: 0 }, action)
    }

    /// The period of the refresh timer, in milliseconds.
    pub fn tick_interval_ms(&self) -> (r: u64)
        ensures
            r == clamp_interval(self.config.refresh_interval_ms as int),
            MIN_REFRESH_INTERVAL_MS <= r <= MAX_REFRESH_INTERVAL_MS,
    {
        clamp_refresh_interval(self.config.refresh_interval_ms)
    }

    /// Applies a message and returns the action to perform.
    pub fn update(&mut self, msg: Message) -> (action: Action)
        ensures
            (*final(self), action) == step(*old(self), msg),
    {
        match msg {
            Message::Tick(elapsed) => {
                let since_nanos = if elapsed < MIN_TICK_NANOS {
                    (clamp_refresh_interval(self.config.refresh_interval_ms) as u128) * NANOS_PER_MILLI
                } else {
                    elapsed
                };
                let interface = match &self.config.network_interface {
                    Some(s) => Some(s.clone()),
                    None => None,
                };
                Action::Refresh { since_nanos, interface }
            },
            Message::UpdateConfig(c) => {
                self.config = c;
                Action::Nothing
            },
            Message::ToggleMetric(metric, on) => {
                match metric {
                    Metric::Cpu => self.config.show_cpu = on,
                    Metric::Memory => self.config.show_memory = on,
                    Metric::Gpu => self.config.show_gpu = on,
                    Metric::Network => self.config.show_network = on,
                }
                Action::Persist(self.config.clone())
            },
            Message::SelectNetworkInterface(choice) => {
                self.config.network_interface = choice;
                Action::Persist(self.config.clone())
            },
            Message::SetRefreshInterval(position) => {
                let ms = if position < MIN_REFRESH_INTERVAL_MS as i64 {
                    MIN_REFRESH_INTERVAL_MS
                } else if position > MAX_REFRESH_INTERVAL_MS as i64 {
                    MAX_REFRESH_INTERVAL_MS
                } else {
                    position as u64
                };
                self.config.refresh_interval_ms = ms;
                Action::Persist(self.config.clone())
            },
            Message::TogglePopup => {
                match self.popup {
                    Some(p) => {
                        self.popup = None;
                        Action::ClosePopup(p)
                    },
                    None => {
                        let t = self.next_popup;
                        self.popup = Some(t);
                        self.next_popup = if t == u64::MAX { 0 } else { t + 1 };
                        Action::OpenPopup(t)
                    },
                }
            },
            Message::PopupClosed(token) => {
                if token.is_some() && self.popup == token {
                    self.popup = None;
                }
                Action::Nothing
            },
        }
    }
}

} // verus!
