//! The worker side of the dispatcher: the commands that producers send and
//! what the worker does with each of them and with each tick.

use crate::key::{MetricKey, MetricKeyView};
use crate::registry::{counter_value, is_flush, negated, Registry, RegistryView};
use crate::request::{
    lemma_series_of_time_series, request_of, series_of, time_series_of, write_request,
    TimeSeriesView, WriteRequest,
};
use crate::sample::{Sample, Stream};
use crate::store::{increment_in, series_views, set_in};
use std::time::Duration;
use vstd::prelude::*;

verus! {

/// The duration of `millis` milliseconds.
pub uninterp spec fn duration_of_millis(millis: u64) -> Duration;

/// `Duration::from_millis` makes the duration of that many milliseconds.
pub assume_specification[ Duration::from_millis ](millis: u64) -> (d: Duration)
    ensures
        d == duration_of_millis(millis),
;

/// An operation on one series.
#[derive(Clone, Copy, Debug, PartialEq, Eq, Structural)]
pub enum MetricOperation {
    IncrementCounter(u64),
    SetCounter(u64),
    IncrementGauge(i64),
    DecrementGauge(i64),
    SetGauge(i64),
}

/// The kind of a metric, as its description names it.
#[derive(Clone, Copy, Debug, PartialEq, Eq, Structural)]
pub enum MetricType {
    Counter,
    Gauge,
    Histogram,
}

impl MetricType {
    /// Counters and gauges are supported, histograms are not.
    pub open spec fn supported(self) -> bool {
        !(self is Histogram)
    }

    /// Whether metrics of this kind can be described and recorded.
    pub fn is_supported(&self) -> (r: bool)
        ensures
            r == self.supported(),
    {
        match self {
            MetricType::Histogram => false,
            _ => true,
        }
    }
}

/// What a producer sends to the worker.
#[derive(Debug)]
pub enum Command {
    /// The description of a metric: its name, kind, unit and help text.
    Metadata(String, MetricType, Option<String>, String),
    /// An operation on a series at a time in milliseconds since the epoch.
    Operation(i64, MetricKey, MetricOperation),
}

impl Command {
    /// The command that describes a metric. Describing a metric of an
    /// unsupported kind is a misuse.
    pub fn describe(
        name: String,
        kind: MetricType,
        unit: Option<String>,
        description: String,
    ) -> (command: Command)
        requires
            kind.supported(),
        ensures
            command == Command::Metadata(name, kind, unit, description),
    {
        Command::Metadata(name, kind, unit, description)
    }
}

/// Builder for the batcher.
#[derive(Debug)]
pub struct Builder {
    tick_interval: Duration,
}

impl Builder {
    /// The interval between batch writes that the builder holds.
    pub closed spec fn spec_interval(&self) -> Duration {
        self.tick_interval
    }

    /// A builder with the default interval between batch writes, 0.1s.
    pub fn new() -> (r: Self)
        ensures
            r.spec_interval() == duration_of_millis(100),
    {
        Builder { tick_interval: Duration::from_millis(100) }
    }

    /// Change the interval between batch writes.
    pub fn tick_interval(self, interval: Duration) -> (r: Self)
        ensures
            r.spec_interval() == interval,
    {
        Builder { tick_interval: interval }
    }

    /// The interval between batch writes.
    pub fn interval(&self) -> (r: Duration)
        ensures
            r == self.spec_interval(),
    {
        self.tick_interval
    }
}

impl Clone for Builder {
    fn clone(&self) -> (r: Self)
        ensures
            r == *self,
    {
        Builder { tick_interval: self.tick_interval }
    }
}

impl Default for Builder {
    fn default() -> (r: Self)
        ensures
            r.spec_interval() == duration_of_millis(100),
    {
        Builder::new()
    }
}

/// What the worker wakes up for.
#[derive(Debug)]
pub enum Event {
    /// A command has arrived.
    Command(Command),
    /// The command channel gave no command: it is closed, or what it held
    /// could not be read.
    Closed,
    /// The tick interval has elapsed.
    Tick,
}

/// What the worker has to do before it waits again.
#[derive(Debug)]
pub enum Action {
    /// Nothing.
    Wait,
    /// Encode, compress and push the request. Whatever comes of it, the
    /// request is not kept.
    Push(WriteRequest),
}

/// The registry after an operation on the series `key` at time `timestamp`.
pub open spec fn applied(
    registry: RegistryView,
    timestamp: i64,
    key: MetricKeyView,
    operation: MetricOperation,
) -> RegistryView {
    match operation {
        MetricOperation::IncrementCounter(value) => RegistryView {
            counters: increment_in(
                registry.counters,
                key,
                Sample { value: counter_value(value), timestamp },
            ),
            ..registry
        },
        MetricOperation::SetCounter(value) => RegistryView {
            counters: set_in(
                registry.counters,
                key,
                Sample { value: counter_value(value), timestamp },
            ),
            ..registry
        },
        MetricOperation::IncrementGauge(value) => RegistryView {
            gauges: increment_in(registry.gauges, key, Sample { value, timestamp }),
            ..registry
        },
        MetricOperation::DecrementGauge(value) => RegistryView {
            gauges: increment_in(registry.gauges, key, Sample { value: negated(value), timestamp }),
            ..registry
        },
        MetricOperation::SetGauge(value) => RegistryView {
            gauges: set_in(registry.gauges, key, Sample { value, timestamp }),
            ..registry
        },
    }
}

/// The registry after the worker has handled `event`: an operation is
/// applied, a tick compacts every stream, and anything else changes nothing.
pub open spec fn after(registry: RegistryView, event: Event) -> RegistryView {
    match event {
        Event::Command(Command::Operation(timestamp, key, operation)) => applied(
            registry,
            timestamp,
            key@,
            operation,
        ),
        Event::Tick => registry.compact(),
        _ => registry,
    }
}

/// `request` carries what `registry` holds: each of its time series names
/// its metric under the reserved label, and the series they stand for are
/// the counters and then the gauges of the registry, each in ascending key
/// order, with all their samples.
pub open spec fn carries(request: Seq<TimeSeriesView>, registry: RegistryView) -> bool {
    &&& forall|i: int|
        0 <= i < request.len() ==> #[trigger] request[i] == time_series_of(series_of(request[i]))
    &&& is_flush(Seq::new(request.len(), |i: int| series_of(request[i])), registry)
}

/// The worker: the only owner of the registry.
pub struct Worker {
    registry: Registry,
}

impl View for Worker {
    type V = RegistryView;

    closed spec fn view(&self) -> RegistryView {
        self.registry@
    }
}

impl Worker {
    /// The registry of the worker is well formed.
    pub closed spec fn wf(&self) -> bool {
        self.registry.wf()
    }

    /// A worker with an empty registry.
    pub fn new() -> (r: Self)
        ensures
            r.wf(),
            r@.counters == Map::<MetricKeyView, Stream>::empty(),
            r@.gauges == Map::<MetricKeyView, Stream>::empty(),
    {
        Worker { registry: Registry::new() }
    }

    /// The registry.
    pub fn registry(&self) -> (r: &Registry)
        ensures
            r@ == self@,
            self.wf() ==> r.wf(),
    {
        &self.registry
    }

    /// Applies an operation to the registry.
    pub fn apply(&mut self, timestamp: i64, key: MetricKey, operation: MetricOperation)
        requires
            old(self).wf(),
        ensures
            final(self).wf(),
            final(self)@ == applied(old(self)@, timestamp, key@, operation),
    {
        match operation {
            MetricOperation::IncrementCounter(value) => {
                self.registry.counter_increment(timestamp, key, value);
            },
            MetricOperation::SetCounter(value) => {
                self.registry.counter_set(timestamp, key, value);
            },
            MetricOperation::IncrementGauge(value) => {
                self.registry.gauge_increment(timestamp, key, value);
            },
            MetricOperation::DecrementGauge(value) => {
                self.registry.gauge_decrement(timestamp, key, value);
            },
            MetricOperation::SetGauge(value) => {
                self.registry.gauge_set(timestamp, key, value);
            },
        }
    }

    /// Extracts everything buffered as a write request and compacts the
    /// registry for the next window.
    pub fn flush(&mut self) -> (request: WriteRequest)
        requires
            old(self).wf(),
        ensures
            final(self).wf(),
            final(self)@ == old(self)@.compact(),
            carries(request@, old(self)@),
    {
        let series = self.registry.extract_and_compact();
        let request = write_request(&series);
        proof {
            let views = series_views(series@);
            assert forall|i: int| 0 <= i < views.len() implies series_of(#[trigger] request@[i])
                == views[i] by {
                lemma_series_of_time_series(views[i]);
            }
            assert(Seq::new(request@.len(), |i: int| series_of(request@[i])) =~= views);
        }
        request
    }

    /// Handles one event: a command is applied to the registry, a tick
    /// flushes it, and a closed channel or a description changes nothing.
    pub fn handle(&mut self, event: Event) -> (action: Action)
        requires
            old(self).wf(),
        ensures
            final(self).wf(),
            final(self)@ == after(old(self)@, event),
            match action {
                Action::Push(request) => event is Tick && carries(request@, old(self)@),
                Action::Wait => !(event is Tick),
            },
    {
        match event {
            Event::Command(Command::Operation(timestamp, key, operation)) => {
                self.apply(timestamp, key, operation);
                Action::Wait
            },
            Event::Command(Command::Metadata(_, _, _, _)) => Action::Wait,
            Event::Closed => Action::Wait,
            Event::Tick => Action::Push(self.flush()),
        }
    }
}

} // verus!
