//! The registry: one sample store for counters and one for gauges.

use crate::key::{MetricKey, MetricKeyView};
use crate::sample::{clamp, Sample, Stream};
use crate::store::{
    compact_all, increment_in, is_snapshot, series_views, set_in, SampleStore, Series,
    SeriesView,
};
use vstd::prelude::*;

verus! {

/// The value a counter reading of `value` is stored as: counters saturate
/// at the top of the `i64` range.
pub open spec fn counter_value(value: u64) -> i64 {
    clamp(value as int)
}

/// The delta that undoes an increment by `value`, saturating at the top of
/// the `i64` range.
pub open spec fn negated(value: i64) -> i64 {
    clamp(-value)
}

/// The sample that records a counter reading.
pub fn counter_sample(timestamp: i64, value: u64) -> (r: Sample)
    ensures
        r == (Sample { value: counter_value(value), timestamp }),
{
    if value > i64::MAX as u64 {
        Sample { value: i64::MAX, timestamp }
    } else {
        Sample { value: value as i64, timestamp }
    }
}

/// The negation of `value`, saturating at the top of the `i64` range.
pub fn negate(value: i64) -> (r: i64)
    ensures
        r == negated(value),
{
    if value == i64::MIN {
        i64::MAX
    } else {
        -value
    }
}

/// The counters and gauges of a process, keyed by series.
pub struct Registry {
    pub counters: SampleStore,
    pub gauges: SampleStore,
}

/// The mathematical content of a [`Registry`].
pub struct RegistryView {
    pub counters: Map<MetricKeyView, Stream>,
    pub gauges: Map<MetricKeyView, Stream>,
}

impl View for Registry {
    type V = RegistryView;

    open spec fn view(&self) -> RegistryView {
        RegistryView { counters: self.counters@, gauges: self.gauges@ }
    }
}

impl RegistryView {
    /// The registry after a flush: every stream compacted to its last
    /// sample.
    pub open spec fn compact(self) -> RegistryView {
        RegistryView { counters: compact_all(self.counters), gauges: compact_all(self.gauges) }
    }
}

/// `series` lists what `registry` holds: its counters first and its gauges
/// after them, one entry per series, each kind in ascending key order, with
/// all the samples of each stream.
pub open spec fn is_flush(series: Seq<SeriesView>, registry: RegistryView) -> bool {
    &&& series.len() == registry.counters.len() + registry.gauges.len()
    &&& is_snapshot(series.take(registry.counters.len() as int), registry.counters)
    &&& is_snapshot(series.skip(registry.counters.len() as int), registry.gauges)
}

impl Registry {
    /// Both stores are well formed.
    pub open spec fn wf(&self) -> bool {
        self.counters.wf() && self.gauges.wf()
    }

    /// An empty registry.
    pub fn new() -> (r: Self)
        ensures
            r.wf(),
            r@.counters == Map::<MetricKeyView, Stream>::empty(),
            r@.gauges == Map::<MetricKeyView, Stream>::empty(),
    {
        Registry { counters: SampleStore::new(), gauges: SampleStore::new() }
    }

    /// Mark samples as sent.
    pub fn sent(&mut self)
        requires
            old(self).wf(),
        ensures
            final(self).wf(),
            final(self)@ == old(self)@.compact(),
    {
        self.counters.sent();
        self.gauges.sent();
    }

    /// Increment a counter, adding the given value to the last value.
    pub fn counter_increment(&mut self, timestamp: i64, key: MetricKey, value: u64)
        requires
            old(self).wf(),
        ensures
            final(self).wf(),
            final(self)@.counters == increment_in(
                old(self)@.counters,
                key@,
                Sample { value: counter_value(value), timestamp },
            ),
            final(self)@.gauges == old(self)@.gauges,
    {
        self.counters.increment(key, counter_sample(timestamp, value));
    }

    /// Set the absolute value of a counter.
    pub fn counter_set(&mut self, timestamp: i64, key: MetricKey, value: u64)
        requires
            old(self).wf(),
        ensures
            final(self).wf(),
            final(self)@.counters == set_in(
                old(self)@.counters,
                key@,
                Sample { value: counter_value(value), timestamp },
            ),
            final(self)@.gauges == old(self)@.gauges,
    {
        self.counters.set_absolute(key, counter_sample(timestamp, value));
    }

    /// Increment a gauge, adding the new value to the last value.
    pub fn gauge_increment(&mut self, timestamp: i64, key: MetricKey, value: i64)
        requires
            old(self).wf(),
        ensures
            final(self).wf(),
            final(self)@.gauges == increment_in(old(self)@.gauges, key@, Sample { value, timestamp }),
            final(self)@.counters == old(self)@.counters,
    {
        self.gauges.increment(key, Sample { value, timestamp });
    }

    /// Decrement a gauge, subtracting the new value from the last value.
    pub fn gauge_decrement(&mut self, timestamp: i64, key: MetricKey, value: i64)
        requires
            old(self).wf(),
        ensures
            final(self).wf(),
            final(self)@.gauges == increment_in(
                old(self)@.gauges,
                key@,
                Sample { value: negated(value), timestamp },
            ),
            final(self)@.counters == old(self)@.counters,
    {
        self.gauge_increment(timestamp, key, negate(value));
    }

    /// Set the absolute value of a gauge.
    pub fn gauge_set(&mut self, timestamp: i64, key: MetricKey, value: i64)
        requires
            old(self).wf(),
        ensures
            final(self).wf(),
            final(self)@.gauges == set_in(old(self)@.gauges, key@, Sample { value, timestamp }),
            final(self)@.counters == old(self)@.counters,
    {
        self.gauges.set_absolute(key, Sample { value, timestamp });
    }

    /// Hands out everything buffered, the counters first and the gauges
    /// after them, each in ascending key order, and compacts every stream to
    /// its last sample.
    pub fn extract_and_compact(&mut self) -> (series: Vec<Series>)
        requires
            old(self).wf(),
        ensures
            final(self).wf(),
            final(self)@ == old(self)@.compact(),
            is_flush(series_views(series@), old(self)@),
    {
        let mut series = self.counters.extract_and_compact();
        let mut gauges = self.gauges.extract_and_compact();
        let ghost c = series@;
        let ghost g = gauges@;
        series.append(&mut gauges);
        proof {
            assert(series_views(series@).take(c.len() as int) =~= series_views(c));
            assert(series_views(series@).skip(c.len() as int) =~= series_views(g));
        }
        series
    }
}

} // verus!
