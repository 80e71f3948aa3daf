//! The outbound write request: what a flush puts on the wire.

use crate::key::{label_views, Label, LabelView, MetricKeyView};
use crate::sample::Sample;
use crate::store::{series_views, Series, SeriesView};
use vstd::prelude::*;

verus! {

/// The name of the reserved label that carries the metric's name.
pub open spec fn name_label() -> Seq<char> {
    "__name__"@
}

/// One labelled time series of a write request. A series carries no
/// exemplars.
#[derive(Debug)]
pub struct TimeSeries {
    pub labels: Vec<Label>,
    pub samples: Vec<Sample>,
}

/// The mathematical content of a [`TimeSeries`].
pub struct TimeSeriesView {
    pub labels: Seq<LabelView>,
    pub samples: Seq<Sample>,
}

impl View for TimeSeries {
    type V = TimeSeriesView;

    open spec fn view(&self) -> TimeSeriesView {
        TimeSeriesView { labels: label_views(self.labels@), samples: self.samples@ }
    }
}

/// A write request: the time series of one flush. A request carries no
/// metadata.
#[derive(Debug)]
pub struct WriteRequest {
    pub timeseries: Vec<TimeSeries>,
}

impl View for WriteRequest {
    type V = Seq<TimeSeriesView>;

    open spec fn view(&self) -> Seq<TimeSeriesView> {
        Seq::new(self.timeseries@.len(), |i: int| self.timeseries@[i]@)
    }
}

/// The labels a series goes out with: the metric's name under the reserved
/// label, then the labels of its key in their order.
pub open spec fn wire_labels(key: MetricKeyView) -> Seq<LabelView> {
    seq![LabelView { name: name_label(), value: key.name }] + key.labels
}

/// The time series that `series` goes out as.
pub open spec fn time_series_of(series: SeriesView) -> TimeSeriesView {
    TimeSeriesView { labels: wire_labels(series.key), samples: series.samples }
}

/// The request that `series` goes out as: one time series each, in order.
pub open spec fn request_of(series: Seq<SeriesView>) -> Seq<TimeSeriesView> {
    Seq::new(series.len(), |i: int| time_series_of(series[i]))
}

/// The series that a time series of a request stands for: its first label
/// gives the metric's name, the others are the labels of the key.
pub open spec fn series_of(t: TimeSeriesView) -> SeriesView {
    SeriesView {
        key: MetricKeyView { name: t.labels[0].value, labels: t.labels.skip(1) },
        samples: t.samples,
    }
}

/// Reading a time series back gives the series it was made from.
pub proof fn lemma_series_of_time_series(series: SeriesView)
    ensures
        series_of(time_series_of(series)) == series,
{
    assert(wire_labels(series.key).skip(1) =~= series.key.labels);
}

/// The time series that `series` goes out as.
pub fn time_series(series: &Series) -> (r: TimeSeries)
    ensures
        r@ == time_series_of(series@),
{
    let mut labels: Vec<Label> = Vec::new();
    labels.push(Label { name: "__name__".to_owned(), value: series.key.name.clone() });
    let mut i: usize = 0;
    while i < series.key.labels.len()
        invariant
            i <= series.key.labels.len(),
            label_views(labels@) == wire_labels(series.key@).take(i + 1),
        decreases series.key.labels.len() - i,
    {
        let ghost before = label_views(labels@);
        labels.push(series.key.labels[i].clone());
        proof {
            assert(label_views(labels@) =~= before.push(series.key.labels@[i as int]@));
            assert(wire_labels(series.key@).take(i + 2) =~= wire_labels(series.key@).take(
                i + 1,
            ).push(series.key.labels@[i as int]@));
        }
        i += 1;
    }
    let mut samples: Vec<Sample> = Vec::new();
    let mut j: usize = 0;
    while j < series.samples.len()
        invariant
            j <= series.samples.len(),
            samples@ == series.samples@.take(j as int),
        decreases series.samples.len() - j,
    {
        samples.push(series.samples[j]);
        proof {
            assert(series.samples@.take(j + 1) =~= series.samples@.take(j as int).push(
                series.samples@[j as int],
            ));
        }
        j += 1;
    }
    proof {
        assert(wire_labels(series.key@).take(i + 1) =~= wire_labels(series.key@));
        assert(series.samples@.take(j as int) =~= series.samples@);
    }
    TimeSeries { labels, samples }
}

/// The request that `series` goes out as.
pub fn write_request(series: &Vec<Series>) -> (r: WriteRequest)
    ensures
        r@ == request_of(series_views(series@)),
{
    let mut timeseries: Vec<TimeSeries> = Vec::new();
    let mut i: usize = 0;
    while i < series.len()
        invariant
            i <= series.len(),
            timeseries@.len() == i,
            forall|j: int| 0 <= j < i ==> (#[trigger] timeseries@[j])@ == time_series_of(series@[j]@),
        decreases series.len() - i,
    {
        timeseries.push(time_series(&series[i]));
        i += 1;
    }
    let r = WriteRequest { timeseries };
    proof {
        assert(r@ =~= request_of(series_views(series@)));
    }
    r
}

} // verus!
