//! Samples and the per-series sample stream with its merge rules.

use vstd::prelude::*;

verus! {

/// One observation of a metric.
#[derive(Clone, Copy, Debug, PartialEq, Eq, Structural)]
pub struct Sample {
    /// The observed value, in the unit the metric is reported in.
    pub value: i64,
    /// Milliseconds since the Unix epoch.
    pub timestamp: i64,
}

/// The value of `v` brought into the range of `i64`: values saturate at the
/// ends of the range and never wrap.
pub open spec fn clamp(v: int) -> i64 {
    if v > i64::MAX {
        i64::MAX
    } else if v < i64::MIN {
        i64::MIN
    } else {
        v as i64
    }
}

/// Adds two values, saturating at the ends of the `i64` range.
pub fn saturating_sum(a: i64, b: i64) -> (r: i64)
    ensures
        r == clamp(a + b),
{
    if b > 0 && a > i64::MAX - b {
        i64::MAX
    } else if b < 0 && a < i64::MIN - b {
        i64::MIN
    } else {
        a + b
    }
}

/// The mathematical content of a sample stream: the samples buffered since
/// the window started, oldest first, and whether the stream has been handed
/// out for sending since a sample was last appended.
pub struct Stream {
    pub sent: bool,
    pub samples: Seq<Sample>,
}

impl Stream {
    /// A stream always holds a sample, timestamps strictly increase along it,
    /// and a stream that has been handed out holds only its running value.
    pub open spec fn wf(self) -> bool {
        &&& self.samples.len() >= 1
        &&& self.sent ==> self.samples.len() == 1
        &&& forall|i: int, j: int|
            0 <= i < j < self.samples.len() ==> self.samples[i].timestamp
                < self.samples[j].timestamp
    }

    /// The most recent sample, which carries the running value.
    pub open spec fn last(self) -> Sample {
        self.samples[self.samples.len() - 1]
    }

    /// The stream of a series that has seen exactly one sample.
    pub open spec fn fresh(sample: Sample) -> Stream {
        Stream { sent: false, samples: seq![sample] }
    }

    /// The samples a newly appended sample is queued behind: nothing once the
    /// stream has been handed out, the whole stream otherwise.
    pub open spec fn unsent(self) -> Seq<Sample> {
        if self.sent {
            Seq::empty()
        } else {
            self.samples
        }
    }

    /// The stream after adding `sample.value` to the running value at time
    /// `sample.timestamp`. A timestamp that is not newer than the last one
    /// folds the delta into the last sample; a newer one appends the new
    /// running value.
    pub open spec fn increment(self, sample: Sample) -> Stream {
        let total = clamp(self.last().value + sample.value);
        if sample.timestamp <= self.last().timestamp {
            Stream {
                sent: self.sent,
                samples: self.samples.update(
                    self.samples.len() - 1,
                    Sample { value: total, timestamp: self.last().timestamp },
                ),
            }
        } else {
            Stream {
                sent: false,
                samples: self.unsent().push(
                    Sample { value: total, timestamp: sample.timestamp },
                ),
            }
        }
    }

    /// The stream after setting the value to `sample.value` at time
    /// `sample.timestamp`. A stale timestamp changes nothing, the last
    /// timestamp overwrites the last sample, a newer one appends.
    pub open spec fn set(self, sample: Sample) -> Stream {
        if sample.timestamp < self.last().timestamp {
            self
        } else if sample.timestamp == self.last().timestamp {
            Stream {
                sent: self.sent,
                samples: self.samples.update(self.samples.len() - 1, sample),
            }
        } else {
            Stream { sent: false, samples: self.unsent().push(sample) }
        }
    }

    /// The stream after it has been handed out: only the last sample stays.
    pub open spec fn compact(self) -> Stream {
        Stream { sent: true, samples: seq![self.last()] }
    }
}

/// The sample stream of one series.
#[derive(Debug)]
pub struct Samples {
    sent: bool,
    samples: Vec<Sample>,
}

impl View for Samples {
    type V = Stream;

    closed spec fn view(&self) -> Stream {
        Stream { sent: self.sent, samples: self.samples@ }
    }
}

impl Samples {
    /// Create a new sample stream.
    pub fn new(sample: Sample) -> (r: Self)
        ensures
            r@ == Stream::fresh(sample),
            r@.wf(),
    {
        let mut samples: Vec<Sample> = Vec::new();
        samples.push(sample);
        Samples { sent: false, samples }
    }

    /// All buffered samples, oldest first.
    pub fn all(&self) -> (r: &Vec<Sample>)
        ensures
            r@ == self@.samples,
    {
        &self.samples
    }

    /// Increment, adding to the previous value.
    pub fn increment(&mut self, sample: Sample)
        requires
            old(self)@.wf(),
        ensures
            final(self)@ == old(self)@.increment(sample),
            final(self)@.wf(),
            sample.timestamp <= old(self)@.last().timestamp ==> {
                &&& final(self)@.samples.len() == old(self)@.samples.len()
                &&& final(self)@.last().value == clamp(old(self)@.last().value + sample.value)
            },
            i64::MIN <= old(self)@.last().value + sample.value <= i64::MAX
                ==> final(self)@.last().value == old(self)@.last().value + sample.value,
    {
        let n = self.samples.len();
        let last = self.samples[n - 1];
        let total = saturating_sum(last.value, sample.value);
        if sample.timestamp <= last.timestamp {
            self.samples.set(n - 1, Sample { value: total, timestamp: last.timestamp });
        } else if self.sent {
            self.samples.set(0, Sample { value: total, timestamp: sample.timestamp });
            self.sent = false;
            assert(self.samples@ =~= old(self)@.unsent().push(
                Sample { value: total, timestamp: sample.timestamp },
            ));
        } else {
            self.samples.push(Sample { value: total, timestamp: sample.timestamp });
        }
    }

    /// Set the new or next sample.
    pub fn set(&mut self, sample: Sample)
        requires
            old(self)@.wf(),
        ensures
            final(self)@ == old(self)@.set(sample),
            final(self)@.wf(),
            sample.timestamp < old(self)@.last().timestamp ==> final(self)@ == old(self)@,
            sample.timestamp == old(self)@.last().timestamp ==> {
                &&& final(self)@.samples.len() == old(self)@.samples.len()
                &&& final(self)@.last() == sample
            },
    {
        let n = self.samples.len();
        let last = self.samples[n - 1];
        if sample.timestamp == last.timestamp {
            self.samples.set(n - 1, sample);
        } else if sample.timestamp > last.timestamp {
            if self.sent {
                self.samples.set(0, sample);
                self.sent = false;
                assert(self.samples@ =~= old(self)@.unsent().push(sample));
            } else {
                self.samples.push(sample);
            }
        }
    }

    /// Has this sample been sent already.
    pub fn is_sent(&self) -> (r: bool)
        ensures
            r == self@.sent,
    {
        self.sent
    }

    /// Remove all elements except the last.
    pub fn sent(&mut self)
        requires
            old(self)@.wf(),
        ensures
            final(self)@ == old(self)@.compact(),
            final(self)@.wf(),
    {
        let last = self.samples[self.samples.len() - 1];
        let mut kept: Vec<Sample> = Vec::new();
        kept.push(last);
        self.samples = kept;
        self.sent = true;
    }
}

/// One step in the life of a stream: an increment, or a flush that hands the
/// stream out and compacts it.
pub enum StreamOp {
    Increment(Sample),
    Flush,
}

/// The sum of the values of `xs`.
pub open spec fn sum_values(xs: Seq<Sample>) -> int
    decreases xs.len(),
{
    if xs.len() == 0 {
        0
    } else {
        sum_values(xs.drop_last()) + xs.last().value
    }
}

/// The stream after incrementing `start` by each sample of `xs` in turn.
pub open spec fn increment_all(start: Stream, xs: Seq<Sample>) -> Stream
    decreases xs.len(),
{
    if xs.len() == 0 {
        start
    } else {
        increment_all(start, xs.drop_last()).increment(xs.last())
    }
}

/// The sum of the deltas of the increments among `ops`.
pub open spec fn sum_deltas(ops: Seq<StreamOp>) -> int
    decreases ops.len(),
{
    if ops.len() == 0 {
        0
    } else {
        sum_deltas(ops.drop_last()) + match ops.last() {
            StreamOp::Increment(sample) => sample.value as int,
            StreamOp::Flush => 0,
        }
    }
}

/// The stream after applying each step of `ops` to `start` in turn.
pub open spec fn replay(start: Stream, ops: Seq<StreamOp>) -> Stream
    decreases ops.len(),
{
    if ops.len() == 0 {
        start
    } else {
        let before = replay(start, ops.drop_last());
        match ops.last() {
            StreamOp::Increment(sample) => before.increment(sample),
            StreamOp::Flush => before.compact(),
        }
    }
}

/// Every merge rule keeps a stream well formed.
pub proof fn lemma_steps_keep_wf(s: Stream, sample: Sample)
    requires
        s.wf(),
    ensures
        Stream::fresh(sample).wf(),
        s.increment(sample).wf(),
        s.set(sample).wf(),
        s.compact().wf(),
{
}

/// Increments with strictly increasing timestamps leave one sample per
/// timestamp, and each sample holds the sum of all increments up to and
/// including its own, as long as every such sum fits in an `i64`.
pub proof fn lemma_increasing_increments(xs: Seq<Sample>)
    requires
        xs.len() >= 1,
        forall|i: int, j: int| 0 <= i < j < xs.len() ==> xs[i].timestamp < xs[j].timestamp,
        forall|k: int|
            1 <= k <= xs.len() ==> i64::MIN <= #[trigger] sum_values(xs.take(k)) <= i64::MAX,
    ensures
        ({
            let s = increment_all(Stream::fresh(xs[0]), xs.skip(1));
            &&& s.wf()
            &&& s.samples.len() == xs.len()
            &&& forall|i: int|
                0 <= i < xs.len() ==> {
                    &&& (#[trigger] s.samples[i]).timestamp == xs[i].timestamp
                    &&& s.samples[i].value == sum_values(xs.take(i + 1))
                }
        }),
    decreases xs.len(),
{
    let s = increment_all(Stream::fresh(xs[0]), xs.skip(1));
    if xs.len() == 1 {
        assert(xs.skip(1).len() == 0);
        assert(xs.take(1).drop_last() =~= Seq::<Sample>::empty());
        assert(sum_values(xs.take(1).drop_last()) == 0);
        assert(xs.take(1).last() == xs[0]);
        assert(i64::MIN <= sum_values(xs.take(1)) <= i64::MAX);
    } else {
        let n = xs.len() as int;
        let init = xs.drop_last();
        assert forall|k: int| 1 <= k <= init.len() implies i64::MIN <= #[trigger] sum_values(
            init.take(k),
        ) <= i64::MAX by {
            assert(init.take(k) =~= xs.take(k));
        }
        lemma_increasing_increments(init);
        let before = increment_all(Stream::fresh(init[0]), init.skip(1));
        assert(xs.skip(1).drop_last() =~= init.skip(1));
        assert(xs.skip(1).last() == xs[n - 1]);
        assert(s == before.increment(xs[n - 1]));
        assert(before.last().timestamp == init[n - 2].timestamp);
        assert(before.last().value == sum_values(init.take(n - 1)));
        assert(init.take(n - 1) =~= xs.take(n).drop_last());
        assert(xs.take(n).last() == xs[n - 1]);
        assert(sum_values(xs.take(n)) == before.last().value + xs[n - 1].value);
        assert(i64::MIN <= sum_values(xs.take(n)) <= i64::MAX);
        assert forall|i: int| 0 <= i < xs.len() implies {
            &&& (#[trigger] s.samples[i]).timestamp == xs[i].timestamp
            &&& s.samples[i].value == sum_values(xs.take(i + 1))
        } by {
            if i < n - 1 {
                assert(s.samples[i] == before.samples[i]);
                assert(init.take(i + 1) =~= xs.take(i + 1));
            }
        }
    }
}

/// Whatever the order of their timestamps, and whatever flushes fall between
/// them, increments are never lost: the last sample of the stream holds the
/// value the stream started from plus every delta applied since, as long as
/// that running value fits in an `i64` after each step.
pub proof fn lemma_running_total(start: Stream, ops: Seq<StreamOp>)
    requires
        start.wf(),
        forall|k: int|
            0 <= k <= ops.len() ==> i64::MIN <= start.last().value + #[trigger] sum_deltas(
                ops.take(k),
            ) <= i64::MAX,
    ensures
        replay(start, ops).wf(),
        replay(start, ops).last().value == start.last().value + sum_deltas(ops),
        replay(start, ops).last().timestamp >= start.last().timestamp,
        forall|i: int|
            0 <= i < ops.len() ==> (#[trigger] ops[i] matches StreamOp::Increment(sample)
                ==> replay(start, ops).last().timestamp >= sample.timestamp),
    decreases ops.len(),
{
    if ops.len() > 0 {
        let init = ops.drop_last();
        assert forall|k: int| 0 <= k <= init.len() implies i64::MIN <= start.last().value
            + #[trigger] sum_deltas(init.take(k)) <= i64::MAX by {
            assert(init.take(k) =~= ops.take(k));
        }
        lemma_running_total(start, init);
        assert(init.take(init.len() as int) =~= init);
        assert(ops.take(ops.len() as int) =~= ops);
        assert(i64::MIN <= start.last().value + sum_deltas(ops) <= i64::MAX);
        assert(replay(start, ops).last().timestamp >= replay(start, init).last().timestamp);
        assert forall|i: int| 0 <= i < ops.len() implies (#[trigger] ops[i] matches StreamOp::Increment(
            sample,
        ) ==> replay(start, ops).last().timestamp >= sample.timestamp) by {
            if i < init.len() {
                assert(ops[i] == init[i]);
            }
        }
    }
}

} // verus!
