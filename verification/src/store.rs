//! The sample store: an ordered mapping from series to sample streams.

use crate::key::{
    key_lt, lemma_key_irreflexive, lemma_key_transitive, MetricKey, MetricKeyView, Order,
};
use crate::sample::{Sample, Samples, Stream};
use vstd::prelude::*;

verus! {

/// What a store holds for one series.
struct Entry {
    key: MetricKey,
    samples: Samples,
}

/// One series as handed out for sending: its identity and its samples,
/// oldest first.
#[derive(Debug)]
pub struct Series {
    pub key: MetricKey,
    pub samples: Vec<Sample>,
}

/// The mathematical content of a [`Series`].
pub struct SeriesView {
    pub key: MetricKeyView,
    pub samples: Seq<Sample>,
}

impl View for Series {
    type V = SeriesView;

    open spec fn view(&self) -> SeriesView {
        SeriesView { key: self.key@, samples: self.samples@ }
    }
}

/// The contents of each series of `series`, in order.
pub open spec fn series_views(series: Seq<Series>) -> Seq<SeriesView> {
    Seq::new(series.len(), |i: int| series[i]@)
}

/// The entries are in strictly ascending key order and every stream is well
/// formed.
spec fn entries_wf(es: Seq<Entry>) -> bool {
    &&& forall|i: int, j: int| 0 <= i < j < es.len() ==> key_lt(es[i].key@, es[j].key@)
    &&& forall|i: int| 0 <= i < es.len() ==> (#[trigger] es[i]).samples@.wf()
}

spec fn holds_key(es: Seq<Entry>, k: MetricKeyView) -> bool {
    exists|i: int| 0 <= i < es.len() && (#[trigger] es[i]).key@ == k
}

spec fn index_of(es: Seq<Entry>, k: MetricKeyView) -> int {
    choose|i: int| 0 <= i < es.len() && (#[trigger] es[i]).key@ == k
}

/// The mapping that a list of entries stands for.
spec fn entries_map(es: Seq<Entry>) -> Map<MetricKeyView, Stream> {
    Map::new(|k: MetricKeyView| holds_key(es, k), |k: MetricKeyView| es[index_of(es, k)].samples@)
}

proof fn lemma_distinct_keys(es: Seq<Entry>, i: int, j: int)
    requires
        entries_wf(es),
        0 <= i < es.len(),
        0 <= j < es.len(),
        es[i].key@ == es[j].key@,
    ensures
        i == j,
{
    lemma_key_irreflexive(es[i].key@);
}

proof fn lemma_lookup(es: Seq<Entry>, i: int)
    requires
        entries_wf(es),
        0 <= i < es.len(),
    ensures
        entries_map(es).contains_key(es[i].key@),
        entries_map(es)[es[i].key@] == es[i].samples@,
{
    let k = es[i].key@;
    assert(holds_key(es, k));
    lemma_distinct_keys(es, i, index_of(es, k));
}

proof fn lemma_update(es: Seq<Entry>, i: int, e: Entry)
    requires
        entries_wf(es),
        0 <= i < es.len(),
        e.key@ == es[i].key@,
        e.samples@.wf(),
    ensures
        entries_wf(es.update(i, e)),
        entries_map(es.update(i, e)) == entries_map(es).insert(e.key@, e.samples@),
{
    let fs = es.update(i, e);
    assert(entries_wf(fs));
    assert forall|k: MetricKeyView| holds_key(fs, k) <==> (k == e.key@ || holds_key(es, k)) by {
        if holds_key(fs, k) {
            let j = index_of(fs, k);
            assert(es[j].key@ == k);
        }
        if holds_key(es, k) {
            let j = index_of(es, k);
            assert(fs[j].key@ == k);
        }
        if k == e.key@ {
            assert(fs[i].key@ == k);
        }
    }
    assert forall|k: MetricKeyView| holds_key(fs, k) implies #[trigger] entries_map(fs)[k]
        == entries_map(es).insert(e.key@, e.samples@)[k] by {
        let j = index_of(fs, k);
        lemma_lookup(fs, j);
        if j != i {
            lemma_lookup(es, j);
            if k == e.key@ {
                lemma_distinct_keys(fs, i, j);
            }
        }
    }
    assert(entries_map(fs) =~= entries_map(es).insert(e.key@, e.samples@));
}

proof fn lemma_insert(es: Seq<Entry>, i: int, e: Entry)
    requires
        entries_wf(es),
        0 <= i <= es.len(),
        forall|j: int| 0 <= j < i ==> key_lt(#[trigger] es[j].key@, e.key@),
        forall|j: int| i <= j < es.len() ==> key_lt(e.key@, #[trigger] es[j].key@),
        e.samples@.wf(),
    ensures
        !entries_map(es).contains_key(e.key@),
        entries_wf(es.insert(i, e)),
        entries_map(es.insert(i, e)) == entries_map(es).insert(e.key@, e.samples@),
{
    let fs = es.insert(i, e);
    lemma_key_irreflexive(e.key@);
    assert forall|a: int, b: int| 0 <= a < b < fs.len() implies key_lt(fs[a].key@, fs[b].key@) by {
        if a < i && b > i {
            lemma_key_transitive(fs[a].key@, e.key@, fs[b].key@);
        }
    }
    assert(entries_wf(fs));
    if holds_key(es, e.key@) {
        let j = index_of(es, e.key@);
        assert(false);
    }
    assert forall|k: MetricKeyView| holds_key(fs, k) <==> (k == e.key@ || holds_key(es, k)) by {
        if holds_key(fs, k) {
            let j = index_of(fs, k);
            if j < i {
                assert(es[j].key@ == k);
            } else if j > i {
                assert(es[j - 1].key@ == k);
            }
        }
        if holds_key(es, k) {
            let j = index_of(es, k);
            if j < i {
                assert(fs[j].key@ == k);
            } else {
                assert(fs[j + 1].key@ == k);
            }
        }
        if k == e.key@ {
            assert(fs[i].key@ == k);
        }
    }
    assert forall|k: MetricKeyView| holds_key(fs, k) implies #[trigger] entries_map(fs)[k]
        == entries_map(es).insert(e.key@, e.samples@)[k] by {
        let j = index_of(fs, k);
        lemma_lookup(fs, j);
        if j < i {
            lemma_lookup(es, j);
        } else if j > i {
            lemma_lookup(es, j - 1);
        }
    }
    assert(entries_map(fs) =~= entries_map(es).insert(e.key@, e.samples@));
}

proof fn lemma_compacted(es: Seq<Entry>, fs: Seq<Entry>)
    requires
        entries_wf(es),
        fs.len() == es.len(),
        forall|j: int|
            0 <= j < es.len() ==> (#[trigger] fs[j]).key@ == es[j].key@ && fs[j].samples@
                == es[j].samples@.compact(),
    ensures
        entries_wf(fs),
        entries_map(fs) == compact_all(entries_map(es)),
{
    assert(entries_wf(fs));
    assert forall|k: MetricKeyView| holds_key(fs, k) <==> holds_key(es, k) by {
        if holds_key(fs, k) {
            assert(es[index_of(fs, k)].key@ == k);
        }
        if holds_key(es, k) {
            assert(fs[index_of(es, k)].key@ == k);
        }
    }
    assert forall|k: MetricKeyView| holds_key(fs, k) implies #[trigger] entries_map(fs)[k]
        == compact_all(entries_map(es))[k] by {
        let j = index_of(fs, k);
        lemma_lookup(fs, j);
        lemma_lookup(es, j);
    }
    assert(entries_map(fs) =~= compact_all(entries_map(es)));
}

/// The mapping `m` after an increment of the series `k`: its stream is
/// incremented, or started with `sample` if `m` has none for it. No other
/// series changes.
pub open spec fn increment_in(
    m: Map<MetricKeyView, Stream>,
    k: MetricKeyView,
    sample: Sample,
) -> Map<MetricKeyView, Stream> {
    m.insert(
        k,
        if m.contains_key(k) {
            m[k].increment(sample)
        } else {
            Stream::fresh(sample)
        },
    )
}

/// The mapping `m` after an absolute set of the series `k`: its stream is
/// set, or started with `sample` if `m` has none for it. No other series
/// changes.
pub open spec fn set_in(
    m: Map<MetricKeyView, Stream>,
    k: MetricKeyView,
    sample: Sample,
) -> Map<MetricKeyView, Stream> {
    m.insert(
        k,
        if m.contains_key(k) {
            m[k].set(sample)
        } else {
            Stream::fresh(sample)
        },
    )
}

/// The mapping `m` after a flush: every stream compacted to its last sample.
pub open spec fn compact_all(m: Map<MetricKeyView, Stream>) -> Map<MetricKeyView, Stream> {
    m.map_values(|s: Stream| s.compact())
}

/// A flush forgets no series, and leaves of each stream exactly its last
/// sample.
pub proof fn lemma_flush_keeps_last(m: Map<MetricKeyView, Stream>, k: MetricKeyView)
    ensures
        compact_all(m).contains_key(k) == m.contains_key(k),
        m.contains_key(k) ==> compact_all(m)[k].samples == seq![m[k].last()],
        m.contains_key(k) ==> compact_all(m)[k].sent,
{
}

/// `series` lists what `m` holds: one entry for each series of `m`, in
/// ascending key order, with all the samples of its stream.
pub open spec fn is_snapshot(series: Seq<SeriesView>, m: Map<MetricKeyView, Stream>) -> bool {
    &&& forall|i: int, j: int|
        0 <= i < j < series.len() ==> key_lt(series[i].key, series[j].key)
    &&& forall|i: int|
        0 <= i < series.len() ==> m.contains_key((#[trigger] series[i]).key)
            && series[i].samples == m[series[i].key].samples
    &&& forall|k: MetricKeyView|
        m.contains_key(k) ==> exists|i: int|
            0 <= i < series.len() && (#[trigger] series[i]).key == k
}

proof fn lemma_snapshot_keys_agree(
    a: Seq<SeriesView>,
    b: Seq<SeriesView>,
    m: Map<MetricKeyView, Stream>,
    i: int,
)
    requires
        is_snapshot(a, m),
        is_snapshot(b, m),
        0 <= i < a.len(),
    ensures
        i < b.len(),
        a[i].key == b[i].key,
    decreases i,
{
    assert forall|h: int| 0 <= h < i implies h < b.len() && a[h].key == b[h].key by {
        lemma_snapshot_keys_agree(a, b, m, h);
    }
    assert(m.contains_key(a[i].key));
    let j = choose|j: int| 0 <= j < b.len() && (#[trigger] b[j]).key == a[i].key;
    if j < i {
        lemma_key_irreflexive(a[i].key);
        assert(key_lt(a[j].key, a[i].key));
    } else if j > i {
        assert(m.contains_key(b[i].key));
        let h = choose|h: int| 0 <= h < a.len() && (#[trigger] a[h]).key == b[i].key;
        assert(key_lt(b[i].key, b[j].key));
        lemma_key_irreflexive(a[i].key);
        if h < i {
            lemma_key_irreflexive(b[i].key);
            assert(key_lt(b[h].key, b[i].key));
        } else if h > i {
            assert(key_lt(a[i].key, a[h].key));
            lemma_key_transitive(a[i].key, b[i].key, a[i].key);
        }
    }
}

/// What a store holds has exactly one listing: two snapshots of the same
/// mapping are the same sequence.
pub proof fn lemma_snapshot_unique(
    a: Seq<SeriesView>,
    b: Seq<SeriesView>,
    m: Map<MetricKeyView, Stream>,
)
    requires
        is_snapshot(a, m),
        is_snapshot(b, m),
    ensures
        a == b,
{
    if a.len() > 0 {
        lemma_snapshot_keys_agree(a, b, m, a.len() - 1);
    }
    if b.len() > 0 {
        lemma_snapshot_keys_agree(b, a, m, b.len() - 1);
    }
    assert forall|i: int| 0 <= i < a.len() implies a[i] == b[i] by {
        lemma_snapshot_keys_agree(a, b, m, i);
    }
    assert(a =~= b);
}

/// A copy of `samples`.
fn copy_samples(samples: &Vec<Sample>) -> (r: Vec<Sample>)
    ensures
        r@ == samples@,
{
    let mut r: Vec<Sample> = Vec::new();
    let mut i: usize = 0;
    while i < samples.len()
        invariant
            i <= samples.len(),
            r@ == samples@.take(i as int),
        decreases samples.len() - i,
    {
        r.push(samples[i]);
        proof {
            assert(samples@.take(i + 1) =~= samples@.take(i as int).push(samples@[i as int]));
        }
        i += 1;
    }
    proof {
        assert(samples@.take(i as int) =~= samples@);
    }
    r
}

/// An ordered mapping from series to sample streams.
pub struct SampleStore {
    entries: Vec<Entry>,
}

impl View for SampleStore {
    type V = Map<MetricKeyView, Stream>;

    closed spec fn view(&self) -> Map<MetricKeyView, Stream> {
        entries_map(self.entries@)
    }
}

impl SampleStore {
    /// The invariant of the store: no series occurs twice, the series are
    /// kept in ascending key order, and every stream is well formed.
    pub closed spec fn wf(&self) -> bool {
        entries_wf(self.entries@)
    }

    /// A well-formed store holds finitely many series, each with a
    /// well-formed stream.
    pub proof fn lemma_streams_wf(&self)
        requires
            self.wf(),
        ensures
            self@.dom().finite(),
            forall|k: MetricKeyView| self@.contains_key(k) ==> (#[trigger] self@[k]).wf(),
    {
        let es = self.entries@;
        assert forall|k: MetricKeyView| self@.contains_key(k) implies (#[trigger] self@[k]).wf() by {
            lemma_lookup(es, index_of(es, k));
        }
        lemma_finite(es);
    }

    /// A store without series.
    pub fn new() -> (r: Self)
        ensures
            r.wf(),
            r@ == Map::<MetricKeyView, Stream>::empty(),
    {
        let r = SampleStore { entries: Vec::new() };
        assert(r@ =~= Map::<MetricKeyView, Stream>::empty());
        r
    }

    /// The number of series.
    pub fn len(&self) -> (n: usize)
        requires
            self.wf(),
        ensures
            n == self@.len(),
    {
        proof {
            lemma_finite(self.entries@);
        }
        self.entries.len()
    }

    /// Where `key` is, or where it would have to be put: every series
    /// before that place comes before `key`, and unless `key` is found
    /// there, every series from that place on comes after it.
    fn position(&self, key: &MetricKey) -> (r: (usize, bool))
        requires
            self.wf(),
        ensures
            r.0 <= self.entries@.len(),
            forall|j: int| 0 <= j < r.0 ==> key_lt(#[trigger] self.entries@[j].key@, key@),
            r.1 ==> r.0 < self.entries@.len() && self.entries@[r.0 as int].key@ == key@,
            !r.1 ==> forall|j: int|
                r.0 <= j < self.entries@.len() ==> key_lt(key@, #[trigger] self.entries@[j].key@),
            r.1 == self@.contains_key(key@),
    {
        let mut lo: usize = 0;
        let mut hi: usize = self.entries.len();
        while lo < hi
            invariant
                self.wf(),
                lo <= hi <= self.entries@.len(),
                forall|j: int| 0 <= j < lo ==> key_lt(#[trigger] self.entries@[j].key@, key@),
                forall|j: int|
                    hi <= j < self.entries@.len() ==> key_lt(
                        key@,
                        #[trigger] self.entries@[j].key@,
                    ),
            decreases hi - lo,
        {
            let mid = lo + (hi - lo) / 2;
            let ghost es = self.entries@;
            match self.entries[mid].key.compare(key) {
                Order::Less => {
                    proof {
                        assert forall|j: int| 0 <= j < mid + 1 implies key_lt(
                            #[trigger] es[j].key@,
                            key@,
                        ) by {
                            if j < mid {
                                lemma_key_transitive(es[j].key@, es[mid as int].key@, key@);
                            }
                        }
                    }
                    lo = mid + 1;
                },
                Order::Greater => {
                    proof {
                        assert forall|j: int| mid <= j < es.len() implies key_lt(
                            key@,
                            #[trigger] es[j].key@,
                        ) by {
                            if j > mid {
                                lemma_key_transitive(key@, es[mid as int].key@, es[j].key@);
                            }
                        }
                    }
                    hi = mid;
                },
                Order::Equal => {
                    proof {
                        lemma_lookup(es, mid as int);
                    }
                    return (mid, true);
                },
            }
        }
        proof {
            let es = self.entries@;
            if holds_key(es, key@) {
                let j = index_of(es, key@);
                lemma_key_irreflexive(key@);
                assert(false);
            }
        }
        (lo, false)
    }
}

impl SampleStore {
    /// The stream of `key`, if the store holds one.
    pub fn get(&self, key: &MetricKey) -> (r: Option<&Samples>)
        requires
            self.wf(),
        ensures
            match r {
                Some(samples) => self@.contains_key(key@) && samples@ == self@[key@],
                None => !self@.contains_key(key@),
            },
    {
        let (i, found) = self.position(key);
        if found {
            proof {
                lemma_lookup(self.entries@, i as int);
            }
            Some(&self.entries[i].samples)
        } else {
            None
        }
    }

    /// Adds `sample.value` to the running value of `key` at time
    /// `sample.timestamp`; a series seen for the first time starts with
    /// `sample`.
    pub fn increment(&mut self, key: MetricKey, sample: Sample)
        requires
            old(self).wf(),
        ensures
            final(self).wf(),
            final(self)@ == increment_in(old(self)@, key@, sample),
    {
        let (i, found) = self.position(&key);
        let ghost es = self.entries@;
        if found {
            proof {
                lemma_lookup(es, i as int);
            }
            self.entries[i].samples.increment(sample);
            proof {
                assert(self.entries@ =~= es.update(i as int, self.entries@[i as int]));
                lemma_update(es, i as int, self.entries@[i as int]);
            }
        } else {
            let entry = Entry { key, samples: Samples::new(sample) };
            proof {
                lemma_insert(es, i as int, entry);
            }
            self.entries.insert(i, entry);
        }
    }

    /// Sets the value of `key` to `sample.value` at time
    /// `sample.timestamp`; a series seen for the first time starts with
    /// `sample`.
    pub fn set_absolute(&mut self, key: MetricKey, sample: Sample)
        requires
            old(self).wf(),
        ensures
            final(self).wf(),
            final(self)@ == set_in(old(self)@, key@, sample),
    {
        let (i, found) = self.position(&key);
        let ghost es = self.entries@;
        if found {
            proof {
                lemma_lookup(es, i as int);
            }
            self.entries[i].samples.set(sample);
            proof {
                assert(self.entries@ =~= es.update(i as int, self.entries@[i as int]));
                lemma_update(es, i as int, self.entries@[i as int]);
            }
        } else {
            let entry = Entry { key, samples: Samples::new(sample) };
            proof {
                lemma_insert(es, i as int, entry);
            }
            self.entries.insert(i, entry);
        }
    }
}

impl SampleStore {
    /// Everything buffered, series by series in ascending key order.
    pub fn snapshot(&self) -> (series: Vec<Series>)
        requires
            self.wf(),
        ensures
            is_snapshot(series_views(series@), self@),
            series@.len() == self@.len(),
    {
        let ghost es = self.entries@;
        let mut series: Vec<Series> = Vec::new();
        let mut i: usize = 0;
        while i < self.entries.len()
            invariant
                es == self.entries@,
                i <= es.len(),
                series@.len() == i,
                forall|j: int|
                    0 <= j < i ==> (#[trigger] series@[j]).key@ == es[j].key@ && series@[j].samples@
                        == es[j].samples@.samples,
            decreases es.len() - i,
        {
            let entry = &self.entries[i];
            series.push(Series { key: entry.key.clone(), samples: copy_samples(entry.samples.all()) });
            i += 1;
        }
        proof {
            let views = series_views(series@);
            lemma_finite(es);
            assert forall|j: int| 0 <= j < views.len() implies self@.contains_key(
                (#[trigger] views[j]).key,
            ) && views[j].samples == self@[views[j].key].samples by {
                lemma_lookup(es, j);
            }
            assert forall|k: MetricKeyView| self@.contains_key(k) implies exists|j: int|
                0 <= j < views.len() && (#[trigger] views[j]).key == k by {
                assert(views[index_of(es, k)].key == k);
            }
        }
        series
    }

    /// Marks every stream as sent, keeping only its last sample.
    pub fn sent(&mut self)
        requires
            old(self).wf(),
        ensures
            final(self).wf(),
            final(self)@ == compact_all(old(self)@),
    {
        let ghost es = self.entries@;
        let mut i: usize = 0;
        while i < self.entries.len()
            invariant
                self.entries@.len() == es.len(),
                i <= es.len(),
                entries_wf(es),
                forall|j: int|
                    0 <= j < i ==> (#[trigger] self.entries@[j]).key@ == es[j].key@
                        && self.entries@[j].samples@ == es[j].samples@.compact(),
                forall|j: int| i <= j < es.len() ==> self.entries@[j] == es[j],
            decreases es.len() - i,
        {
            proof {
                assert(self.entries@[i as int] == es[i as int]);
                assert(es[i as int].samples@.wf());
            }
            self.entries[i].samples.sent();
            i += 1;
        }
        proof {
            lemma_compacted(es, self.entries@);
        }
    }

    /// Hands out everything buffered, series by series in ascending key
    /// order, and compacts every stream to its last sample, which seeds the
    /// next window.
    pub fn extract_and_compact(&mut self) -> (series: Vec<Series>)
        requires
            old(self).wf(),
        ensures
            is_snapshot(series_views(series@), old(self)@),
            series@.len() == old(self)@.len(),
            final(self).wf(),
            final(self)@ == compact_all(old(self)@),
    {
        let series = self.snapshot();
        self.sent();
        series
    }
}

proof fn lemma_finite(es: Seq<Entry>)
    requires
        entries_wf(es),
    ensures
        entries_map(es).dom().finite(),
        entries_map(es).dom().len() == es.len(),
    decreases es.len(),
{
    if es.len() == 0 {
        assert(entries_map(es).dom() =~= Set::<MetricKeyView>::empty());
    } else {
        let init = es.drop_last();
        let e = es.last();
        lemma_finite(init);
        lemma_insert(init, init.len() as int, e);
        assert(init.insert(init.len() as int, e) =~= es);
        assert(entries_map(es).dom() =~= entries_map(init).dom().insert(e.key@));
    }
}

} // verus!
