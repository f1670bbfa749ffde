//! How much telemetry is kept, and the topology it is read against.

use core::time::Duration;
use vstd::prelude::*;

verus! {

/// How much telemetry the inspector keeps, and whether it runs at all.
#[derive(Debug, Clone, Copy, PartialEq, Eq, Structural)]
pub struct InspectorConfig {
    /// Master switch.
    pub enabled: bool,
    /// Whether to serve the dashboard. The JSON interface is not affected.
    pub ui: bool,
    /// How long a record stays readable, in seconds.
    pub retention_secs: u64,
    /// How often metrics are copied out, in seconds.
    pub sample_interval_secs: u64,
    /// Hard cap on retained span records.
    pub max_spans: usize,
    /// Hard cap on retained log records.
    pub max_logs: usize,
    /// Hard cap on retained metric samples.
    pub max_samples: usize,
}

impl Default for InspectorConfig {
    /// One hour of everything, sampled every second.
    fn default() -> (r: Self)
        ensures
            r == (InspectorConfig {
                enabled: true,
                ui: true,
                retention_secs: 3600,
                sample_interval_secs: 1,
                max_spans: 10_000,
                max_logs: 10_000,
                max_samples: 3600,
            }),
    {
        InspectorConfig {
            enabled: true,
            ui: true,
            retention_secs: 3600,
            sample_interval_secs: 1,
            max_spans: 10_000,
            max_logs: 10_000,
            max_samples: 3600,
        }
    }
}

/// The time span of so many seconds: what `Duration::from_secs` gives.
pub uninterp spec fn seconds_span(secs: u64) -> Duration;

/// `core::time::Duration::from_secs`. The result is that of the given number
/// of seconds.
#[verifier::external_body]
fn seconds(secs: u64) -> (r: Duration)
    ensures
        r == seconds_span(secs),
{
    Duration::from_secs(secs)
}

impl InspectorConfig {
    /// How long a record stays readable.
    pub fn retention(&self) -> (r: Duration)
        ensures
            r == seconds_span(self.retention_secs),
    {
        seconds(self.retention_secs)
    }

    /// How often metrics are copied out: never more often than once a second,
    /// as a zero interval would make the reader spin.
    pub fn sample_interval(&self) -> (r: Duration)
        ensures
            r == seconds_span(
                if self.sample_interval_secs > 1 {
                    self.sample_interval_secs
                } else {
                    1
                },
            ),
    {
        seconds(
            if self.sample_interval_secs > 1 {
                self.sample_interval_secs
            } else {
                1
            },
        )
    }
}

/// A value that is published once. What comes later is ignored.
pub struct Published<T> {
    value: Option<T>,
}

impl<T> Published<T> {
    pub closed spec fn get(self) -> Option<T> {
        self.value
    }

    pub fn new() -> (r: Self)
        ensures
            r.get() is None,
    {
        Published { value: None }
    }

    /// Publish; whether this was the first publication.
    pub fn publish(&mut self, value: T) -> (r: bool)
        ensures
            r == (old(self).get() is None),
            final(self).get() == if old(self).get() is None {
                Some(value)
            } else {
                old(self).get()
            },
    {
        if self.value.is_none() {
            self.value = Some(value);
            true
        } else {
            false
        }
    }

    /// What was published.
    pub fn read(&self) -> (r: Option<&T>)
        ensures
            match self.get() {
                Some(v) => r == Some(&v),
                None => r is None,
            },
    {
        self.value.as_ref()
    }
}

/// The oldest time inside a window that ends now.
pub fn window_start(now_ms: u64, window_ms: u64) -> (r: u64)
    ensures
        r == if now_ms >= window_ms {
            now_ms - window_ms
        } else {
            0
        },
{
    now_ms.saturating_sub(window_ms)
}

} // verus!
