//! Counters of the server's activity.
use vstd::prelude::*;
use crate::admin::ProviderStatistics;

verus! {

/// A snapshot of the counters.
#[derive(Debug, Clone, PartialEq, Eq)]
pub struct ServerStatistics {
    /// Deltas in the last completed measurement window (one second).
    pub delta_rate: u64,
    pub number_of_available_paths: usize,
    pub ws_clients: usize,
    /// Seconds since the server started.
    pub uptime: u64,
    pub provider_statistics: Vec<ProviderStatistics>,
}

/// Counts deltas, paths and connected clients. The counters wrap around as
/// machine integers do.
#[derive(Debug, Clone, PartialEq, Eq)]
pub struct StatisticsCollector {
    total_deltas: u64,
    window_deltas: u64,
    delta_rate: u64,
    active_paths: usize,
    ws_clients: usize,
}

/// The counters as a mathematical value.
pub ghost struct StatisticsView {
    pub total_deltas: u64,
    pub window_deltas: u64,
    pub delta_rate: u64,
    pub active_paths: usize,
    pub ws_clients: usize,
}

impl View for StatisticsCollector {
    type V = StatisticsView;

    closed spec fn view(&self) -> StatisticsView {
        StatisticsView {
            total_deltas: self.total_deltas,
            window_deltas: self.window_deltas,
            delta_rate: self.delta_rate,
            active_paths: self.active_paths,
            ws_clients: self.ws_clients,
        }
    }
}

impl StatisticsCollector {
    /// All counters at zero.
    pub fn new() -> (r: Self)
        ensures
            r@ == (StatisticsView { total_deltas: 0, window_deltas: 0, delta_rate: 0, active_paths: 0, ws_clients: 0 }),
    {
        StatisticsCollector { total_deltas: 0, window_deltas: 0, delta_rate: 0, active_paths: 0, ws_clients: 0 }
    }

    /// Counts one delta.
    pub fn record_delta(&mut self)
        ensures
            final(self)@ == (StatisticsView {
                total_deltas: old(self)@.total_deltas.wrapping_add(1),
                window_deltas: old(self)@.window_deltas.wrapping_add(1),
                ..old(self)@
            }),
    {
        self.total_deltas = self.total_deltas.wrapping_add(1);
        self.window_deltas = self.window_deltas.wrapping_add(1);
    }

    /// Closes the measurement window: its count becomes the rate and a new
    /// window starts.
    pub fn update_rate(&mut self)
        ensures
            final(self)@ == (StatisticsView { delta_rate: old(self)@.window_deltas, window_deltas: 0, ..old(self)@ }),
    {
        self.delta_rate = self.window_deltas;
        self.window_deltas = 0;
    }

    /// Records the number of paths in the store.
    pub fn set_active_paths(&mut self, count: usize)
        ensures
            final(self)@ == (StatisticsView { active_paths: count, ..old(self)@ }),
    {
        self.active_paths = count;
    }

    /// Counts a connected client.
    pub fn client_connected(&mut self)
        ensures
            final(self)@ == (StatisticsView { ws_clients: old(self)@.ws_clients.wrapping_add(1), ..old(self)@ }),
    {
        self.ws_clients = self.ws_clients.wrapping_add(1);
    }

    /// Counts a disconnected client.
    pub fn client_disconnected(&mut self)
        ensures
            final(self)@ == (StatisticsView { ws_clients: old(self)@.ws_clients.wrapping_sub(1), ..old(self)@ }),
    {
        self.ws_clients = self.ws_clients.wrapping_sub(1);
    }

    /// The counters now, with the given uptime in seconds.
    pub fn snapshot(&self, uptime_secs: u64) -> (r: ServerStatistics)
        ensures
            r.delta_rate == self@.delta_rate,
            r.number_of_available_paths == self@.active_paths,
            r.ws_clients == self@.ws_clients,
            r.uptime == uptime_secs,
            r.provider_statistics@.len() == 0,
    {
        ServerStatistics {
            delta_rate: self.delta_rate,
            number_of_available_paths: self.active_paths,
            ws_clients: self.ws_clients,
            uptime: uptime_secs,
            provider_statistics: Vec::new(),
        }
    }
}

} // verus!
