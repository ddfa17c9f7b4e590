//! Metrics as mathematics: what a registry holds, what recording a value does to it,
//! and what a collection gives out.

use vstd::prelude::*;

use crate::attrs;
use crate::attrs::Pair;
use crate::double;
use crate::metrics::{
    Attrs, Counter, CounterDataPoint, Exemplar, ExemplarValue, Gauge, GaugeDataPoint, Histogram,
    HistogramDataPoint, MetricSnapshot, Outcome, TraceContext,
};

verus! {

/// What a histogram keeps for one attribute set, as mathematics.
pub struct HistogramPoint {
    pub bucket_counts: Seq<u64>,
    pub sum: u64,
    pub count: u64,
    pub min: u64,
    pub max: u64,
}

/// One data point of a metric, as mathematics: attributes in canonical order,
/// value, exemplar.
pub struct Point<T> {
    pub attrs: Seq<Pair>,
    pub value: T,
    pub exemplar: Option<Exemplar>,
}

/// A metric, as mathematics. The data points stand in the order in which their
/// attribute sets were first seen.
pub struct MetricModel<T> {
    pub name: Seq<char>,
    pub description: Seq<char>,
    pub max_cardinality: usize,
    pub overflow_warned: bool,
    pub points: Seq<Point<T>>,
}

/// A histogram, as mathematics.
pub struct HistogramModel {
    pub metric: MetricModel<HistogramPoint>,
    pub boundaries: Seq<u64>,
}

/// A registry, as mathematics. The metrics of each kind stand in the order in which
/// they were registered.
pub struct RegistryModel {
    pub counters: Seq<MetricModel<i64>>,
    pub gauges: Seq<MetricModel<u64>>,
    pub histograms: Seq<HistogramModel>,
    pub default_max_cardinality: usize,
    /// A value was recorded since the last collection.
    pub fresh: bool,
}

/// A snapshot, as mathematics.
pub enum SnapshotModel {
    Counter { name: Seq<char>, description: Seq<char>, counts: Seq<Point<i64>> },
    Gauge { name: Seq<char>, description: Seq<char>, values: Seq<Point<u64>> },
    Histogram {
        name: Seq<char>,
        description: Seq<char>,
        boundaries: Seq<u64>,
        distributions: Seq<Point<HistogramPoint>>,
    },
}

/// Where an attribute set belongs among the data points of a metric.
pub enum Slot {
    /// At the data point with this index.
    At(int),
    /// Nowhere: another attribute set with the same hash is there.
    Taken,
    /// Nowhere: it is new, and the metric is full.
    Full,
    /// Behind the last data point: it is new.
    New,
}

/// The slot of an attribute set.
pub open spec fn slot<T>(points: Seq<Point<T>>, max_cardinality: usize, pairs: Seq<Pair>) -> Slot {
    if exists|i: int|
        0 <= i < points.len() && attrs::attrs_hash(#[trigger] points[i].attrs)
            == attrs::attrs_hash(pairs) {
        let i = choose|i: int|
            0 <= i < points.len() && attrs::attrs_hash(#[trigger] points[i].attrs)
                == attrs::attrs_hash(pairs);
        if points[i].attrs == attrs::canonical(pairs) {
            Slot::At(i)
        } else {
            Slot::Taken
        }
    } else if points.len() >= max_cardinality {
        Slot::Full
    } else {
        Slot::New
    }
}

/// The exemplar of a data point after a recording: a new one replaces an old one,
/// none leaves it.
pub open spec fn next_exemplar(old: Option<Exemplar>, new: Option<Exemplar>) -> Option<Exemplar> {
    if new is Some {
        new
    } else {
        old
    }
}

/// A metric after a value was recorded for an attribute set: `next` at the data
/// point of the set, if it has one, and `first` in a new one, if there is room.
pub open spec fn recorded<T>(
    metric: MetricModel<T>,
    pairs: Seq<Pair>,
    next: T,
    first: T,
    exemplar: Option<Exemplar>,
) -> MetricModel<T> {
    match slot(metric.points, metric.max_cardinality, pairs) {
        Slot::At(i) => MetricModel {
            points: metric.points.update(
                i,
                Point {
                    attrs: metric.points[i].attrs,
                    value: next,
                    exemplar: next_exemplar(metric.points[i].exemplar, exemplar),
                },
            ),
            ..metric
        },
        Slot::Taken => metric,
        Slot::Full => MetricModel { overflow_warned: true, ..metric },
        Slot::New => MetricModel {
            points: metric.points.push(
                Point { attrs: attrs::canonical(pairs), value: first, exemplar },
            ),
            ..metric
        },
    }
}

/// The value that a metric holds for an attribute set, if it holds one.
pub open spec fn value_at<T>(metric: MetricModel<T>, pairs: Seq<Pair>) -> Option<T> {
    match slot(metric.points, metric.max_cardinality, pairs) {
        Slot::At(i) => Some(metric.points[i].value),
        _ => None,
    }
}

/// A counter's amount: at most the largest signed number.
pub open spec fn clamped(value: u64) -> i64 {
    if value > i64::MAX {
        i64::MAX
    } else {
        value as i64
    }
}

/// A sum that stops at the largest signed number.
pub open spec fn capped_sum(a: i64, b: i64) -> i64 {
    if a + b > i64::MAX {
        i64::MAX
    } else {
        (a + b) as i64
    }
}

/// A counter after an amount was added.
pub open spec fn counter_added(
    metric: MetricModel<i64>,
    value: u64,
    pairs: Seq<Pair>,
    context: Option<TraceContext>,
) -> MetricModel<i64> {
    let amount = clamped(value);
    let next = match value_at(metric, pairs) {
        Some(old) => capped_sum(old, amount),
        None => amount,
    };
    recorded(metric, pairs, next, amount, captured(context, ExemplarValue::Int(amount)))
}

/// A gauge after a value was set. One that is not finite changes nothing.
pub open spec fn gauge_set(
    metric: MetricModel<u64>,
    value: u64,
    pairs: Seq<Pair>,
    context: Option<TraceContext>,
) -> MetricModel<u64> {
    if double::finite(value) {
        recorded(metric, pairs, value, value, captured(context, ExemplarValue::Double(value)))
    } else {
        metric
    }
}

/// A histogram's data point after a value was observed; `sum` is the sum with the
/// value.
pub open spec fn point_observed(
    point: HistogramPoint,
    bucket: int,
    value: u64,
    sum: u64,
) -> HistogramPoint {
    HistogramPoint {
        bucket_counts: point.bucket_counts.update(
            bucket,
            (point.bucket_counts[bucket] + 1) as u64,
        ),
        sum,
        count: (point.count + 1) as u64,
        min: if double::place(value) < double::place(point.min) {
            value
        } else {
            point.min
        },
        max: if double::place(value) > double::place(point.max) {
            value
        } else {
            point.max
        },
    }
}

/// A histogram's data point with one value.
pub open spec fn point_first(buckets: nat, bucket: int, value: u64) -> HistogramPoint {
    HistogramPoint {
        bucket_counts: Seq::new(buckets, |i: int| 0u64).update(bucket, 1),
        sum: value,
        count: 1,
        min: value,
        max: value,
    }
}

/// A histogram after a value was observed. One that is not finite changes nothing.
/// `sum` is the sum with the value, where the attribute set already has a data
/// point.
pub open spec fn histogram_observed(
    histogram: HistogramModel,
    value: u64,
    pairs: Seq<Pair>,
    context: Option<TraceContext>,
    bucket: int,
    sum: u64,
) -> HistogramModel {
    if double::finite(value) {
        let first = point_first(histogram.boundaries.len() + 1, bucket, value);
        let next = match value_at(histogram.metric, pairs) {
            Some(old) => point_observed(old, bucket, value, sum),
            None => first,
        };
        HistogramModel {
            metric: recorded(
                histogram.metric,
                pairs,
                next,
                first,
                captured(context, ExemplarValue::Double(value)),
            ),
            ..histogram
        }
    } else {
        histogram
    }
}

/// The exemplar of a recording: none without a trace, or where the trace id is all
/// zeros.
pub open spec fn captured(context: Option<TraceContext>, value: ExemplarValue) -> Option<
    Exemplar,
> {
    match context {
        Some(c) => if c.trace_id@ == Seq::new(16, |i: int| 0u8) {
            None
        } else {
            Some(
                Exemplar {
                    trace_id: c.trace_id,
                    span_id: c.span_id,
                    time_unix_nano: c.time_unix_nano,
                    value,
                },
            )
        },
        None => None,
    }
}

/// What holds of the data points of every metric: they are no more than the metric
/// may keep, their attribute sets are in canonical order, and no two have the same
/// hash.
pub open spec fn points_wf<T>(points: Seq<Point<T>>, max_cardinality: usize) -> bool {
    &&& points.len() <= max_cardinality
    &&& forall|i: int|
        0 <= i < points.len() ==> attrs::canonical(#[trigger] points[i].attrs) == points[i].attrs
    &&& forall|i: int, j: int|
        0 <= i < j < points.len() ==> attrs::attrs_hash(#[trigger] points[i].attrs)
            != attrs::attrs_hash(#[trigger] points[j].attrs)
}

/// The sum of bucket counts.
pub open spec fn total(counts: Seq<u64>) -> nat
    decreases counts.len(),
{
    if counts.len() == 0 {
        0
    } else {
        total(counts.drop_last()) + counts.last() as nat
    }
}

/// What holds of every histogram: its boundaries ascend, each data point has one
/// bucket more than there are boundaries, and its buckets hold as many values as it
/// has counted.
pub open spec fn histogram_wf(histogram: HistogramModel) -> bool {
    &&& points_wf(histogram.metric.points, histogram.metric.max_cardinality)
    &&& double::ascending(histogram.boundaries)
    &&& forall|i: int| #![trigger histogram.metric.points[i]]
        0 <= i < histogram.metric.points.len() ==> {
            let value = histogram.metric.points[i].value;
            &&& value.bucket_counts.len() == histogram.boundaries.len() + 1
            &&& total(value.bucket_counts) == value.count
        }
}

/// The position of a name in a list of names, if it is there.
pub open spec fn position(names: Seq<Seq<char>>, name: Seq<char>) -> Option<int> {
    if exists|i: int| 0 <= i < names.len() && #[trigger] names[i] == name {
        Some(choose|i: int| 0 <= i < names.len() && #[trigger] names[i] == name)
    } else {
        None
    }
}

/// No name occurs twice.
pub open spec fn distinct(names: Seq<Seq<char>>) -> bool {
    forall|i: int, j: int|
        0 <= i < j < names.len() ==> #[trigger] names[i] != #[trigger] names[j]
}

impl RegistryModel {
    /// The names of the counters.
    pub open spec fn counter_names(self) -> Seq<Seq<char>> {
        self.counters.map_values(|m: MetricModel<i64>| m.name)
    }

    /// The names of the gauges.
    pub open spec fn gauge_names(self) -> Seq<Seq<char>> {
        self.gauges.map_values(|m: MetricModel<u64>| m.name)
    }

    /// The names of the histograms.
    pub open spec fn histogram_names(self) -> Seq<Seq<char>> {
        self.histograms.map_values(|h: HistogramModel| h.metric.name)
    }

    /// What holds of every registry: metrics of one kind have different names, and
    /// each metric is well-formed.
    pub open spec fn wf(self) -> bool {
        &&& distinct(self.counter_names())
        &&& distinct(self.gauge_names())
        &&& distinct(self.histogram_names())
        &&& forall|i: int| #![trigger self.counters[i]]
            0 <= i < self.counters.len() ==> points_wf(
                self.counters[i].points,
                self.counters[i].max_cardinality,
            )
        &&& forall|i: int| #![trigger self.gauges[i]]
            0 <= i < self.gauges.len() ==> points_wf(
                self.gauges[i].points,
                self.gauges[i].max_cardinality,
            )
        &&& forall|i: int|
            0 <= i < self.histograms.len() ==> histogram_wf(#[trigger] self.histograms[i])
    }

    /// The registry with no metrics.
    pub open spec fn empty(max_cardinality: usize) -> RegistryModel {
        RegistryModel {
            counters: Seq::empty(),
            gauges: Seq::empty(),
            histograms: Seq::empty(),
            default_max_cardinality: max_cardinality,
            fresh: false,
        }
    }
}

/// A metric without data points.
pub open spec fn fresh_metric<T>(
    name: Seq<char>,
    description: Seq<char>,
    max_cardinality: usize,
) -> MetricModel<T> {
    MetricModel {
        name,
        description,
        max_cardinality,
        overflow_warned: false,
        points: Seq::empty(),
    }
}

/// Registering a counter: the one with the name, where there is one; else a new one
/// behind the others.
pub open spec fn counter_registered(
    before: RegistryModel,
    after: RegistryModel,
    counter: Counter,
    name: Seq<char>,
    description: Seq<char>,
    max_cardinality: usize,
) -> bool {
    &&& counter.id() < after.counters.len()
    &&& match position(before.counter_names(), name) {
        Some(i) => counter.id() == i && after == before,
        None => counter.id() == before.counters.len() && after == (RegistryModel {
            counters: before.counters.push(fresh_metric(name, description, max_cardinality)),
            ..before
        }),
    }
}

/// Registering a gauge: the one with the name, where there is one; else a new one
/// behind the others.
pub open spec fn gauge_registered(
    before: RegistryModel,
    after: RegistryModel,
    gauge: Gauge,
    name: Seq<char>,
    description: Seq<char>,
    max_cardinality: usize,
) -> bool {
    &&& gauge.id() < after.gauges.len()
    &&& match position(before.gauge_names(), name) {
        Some(i) => gauge.id() == i && after == before,
        None => gauge.id() == before.gauges.len() && after == (RegistryModel {
            gauges: before.gauges.push(fresh_metric(name, description, max_cardinality)),
            ..before
        }),
    }
}

/// Registering a histogram: the one with the name, where there is one; else a new
/// one behind the others, with the finite boundaries in ascending order.
pub open spec fn histogram_registered(
    before: RegistryModel,
    after: RegistryModel,
    histogram: Histogram,
    name: Seq<char>,
    description: Seq<char>,
    boundaries: Seq<u64>,
    max_cardinality: usize,
) -> bool {
    &&& histogram.id() < after.histograms.len()
    &&& match position(before.histogram_names(), name) {
        Some(i) => histogram.id() == i && after == before,
        None => {
            let sorted = after.histograms.last().boundaries;
            &&& histogram.id() == before.histograms.len()
            &&& double::sorted_distinct(boundaries, sorted)
            &&& after == (RegistryModel {
                histograms: before.histograms.push(
                    HistogramModel {
                        metric: fresh_metric(name, description, max_cardinality),
                        boundaries: sorted,
                    },
                ),
                ..before
            })
        },
    }
}

/// What becomes of a value.
pub open spec fn outcome<T>(metric: MetricModel<T>, pairs: Seq<Pair>) -> Outcome {
    match slot(metric.points, metric.max_cardinality, pairs) {
        Slot::At(_) => Outcome::Recorded,
        Slot::New => Outcome::Recorded,
        Slot::Taken => Outcome::HashCollision,
        Slot::Full => Outcome::LimitReached { first: !metric.overflow_warned },
    }
}

/// The value can be counted: the data point of its attribute set, if there is one,
/// has not counted as many values as its counter can hold.
pub open spec fn has_room(histogram: HistogramModel, pairs: Seq<Pair>) -> bool {
    match value_at(histogram.metric, pairs) {
        Some(point) => point.count < u64::MAX,
        None => true,
    }
}

/// A histogram after a value was observed, where `plus` adds doubles.
pub open spec fn observed_with<F: Fn(u64, u64) -> u64>(
    before: HistogramModel,
    after: HistogramModel,
    value: u64,
    pairs: Seq<Pair>,
    context: Option<TraceContext>,
    plus: F,
) -> bool {
    exists|bucket: int, sum: u64|
        {
            &&& double::is_bucket(before.boundaries, value, bucket)
            &&& value_at(before.metric, pairs) is Some ==> double::finite(value) ==> call_ensures(
                plus,
                (value_at(before.metric, pairs)->0.sum, value),
                sum,
            )
            &&& after == #[trigger] histogram_observed(
                before,
                value,
                pairs,
                context,
                bucket,
                sum,
            )
        }
}

/// A data point without its exemplar.
pub open spec fn without_exemplar<T>(point: Point<T>) -> Point<T> {
    Point { exemplar: None, ..point }
}

/// A metric whose exemplars were taken.
pub open spec fn cleared<T>(metric: MetricModel<T>) -> MetricModel<T> {
    MetricModel {
        points: metric.points.map_values(|p: Point<T>| without_exemplar(p)),
        ..metric
    }
}

/// A collected data point, as mathematics.
pub open spec fn collected_point<V: View>(dp: (Attrs, V, Option<Exemplar>)) -> Point<V::V> {
    Point { attrs: attrs::stored_pairs(dp.0@), value: dp.1@, exemplar: dp.2 }
}

/// A collected data point of a histogram, as mathematics.
pub open spec fn collected_distribution(dp: HistogramDataPoint) -> Point<HistogramPoint> {
    Point {
        attrs: attrs::stored_pairs(dp.attrs@),
        value: HistogramPoint {
            bucket_counts: dp.bucket_counts@,
            sum: dp.sum,
            count: dp.count,
            min: dp.min,
            max: dp.max,
        },
        exemplar: dp.exemplar,
    }
}

impl MetricSnapshot {
    /// The snapshot, as mathematics.
    pub open spec fn model(self) -> SnapshotModel {
        match self {
            MetricSnapshot::Counter { name, description, data_points } => SnapshotModel::Counter {
                name: name@,
                description: description@,
                counts: data_points@.map_values(|dp: CounterDataPoint| collected_point(dp)),
            },
            MetricSnapshot::Gauge { name, description, data_points } => SnapshotModel::Gauge {
                name: name@,
                description: description@,
                values: data_points@.map_values(|dp: GaugeDataPoint| collected_point(dp)),
            },
            MetricSnapshot::Histogram {
                name,
                description,
                boundaries,
                data_points,
            } => SnapshotModel::Histogram {
                name: name@,
                description: description@,
                boundaries: boundaries@,
                distributions: data_points@.map_values(
                    |dp: HistogramDataPoint| collected_distribution(dp),
                ),
            },
        }
    }
}

/// The snapshot of a counter.
pub open spec fn counter_snapshot(counter: MetricModel<i64>) -> SnapshotModel {
    SnapshotModel::Counter {
        name: counter.name,
        description: counter.description,
        counts: counter.points,
    }
}

/// The snapshot of a gauge.
pub open spec fn gauge_snapshot(gauge: MetricModel<u64>) -> SnapshotModel {
    SnapshotModel::Gauge {
        name: gauge.name,
        description: gauge.description,
        values: gauge.points,
    }
}

/// The snapshot of a histogram.
pub open spec fn histogram_snapshot(histogram: HistogramModel) -> SnapshotModel {
    SnapshotModel::Histogram {
        name: histogram.metric.name,
        description: histogram.metric.description,
        boundaries: histogram.boundaries,
        distributions: histogram.metric.points,
    }
}

/// The snapshots of counters: one for each that has data points.
pub open spec fn counter_snapshots(counters: Seq<MetricModel<i64>>) -> Seq<SnapshotModel>
    decreases counters.len(),
{
    if counters.len() == 0 {
        Seq::empty()
    } else {
        let rest = counter_snapshots(counters.drop_last());
        let last = counters.last();
        if last.points.len() == 0 {
            rest
        } else {
            rest.push(counter_snapshot(last))
        }
    }
}

/// The snapshots of gauges: one for each that has data points.
pub open spec fn gauge_snapshots(gauges: Seq<MetricModel<u64>>) -> Seq<SnapshotModel>
    decreases gauges.len(),
{
    if gauges.len() == 0 {
        Seq::empty()
    } else {
        let rest = gauge_snapshots(gauges.drop_last());
        let last = gauges.last();
        if last.points.len() == 0 {
            rest
        } else {
            rest.push(gauge_snapshot(last))
        }
    }
}

/// The snapshots of histograms: one for each that has data points.
pub open spec fn histogram_snapshots(histograms: Seq<HistogramModel>) -> Seq<SnapshotModel>
    decreases histograms.len(),
{
    if histograms.len() == 0 {
        Seq::empty()
    } else {
        let rest = histogram_snapshots(histograms.drop_last());
        let last = histograms.last();
        if last.metric.points.len() == 0 {
            rest
        } else {
            rest.push(histogram_snapshot(last))
        }
    }
}

/// The snapshots of a registry: those of its counters, then its gauges, then its
/// histograms.
pub open spec fn registry_snapshots(registry: RegistryModel) -> Seq<SnapshotModel> {
    counter_snapshots(registry.counters) + gauge_snapshots(registry.gauges) + histogram_snapshots(
        registry.histograms,
    )
}

/// A registry whose exemplars were taken.
pub open spec fn registry_cleared(registry: RegistryModel) -> RegistryModel {
    RegistryModel {
        counters: registry.counters.map_values(|m: MetricModel<i64>| cleared(m)),
        gauges: registry.gauges.map_values(|m: MetricModel<u64>| cleared(m)),
        histograms: registry.histograms.map_values(
            |h: HistogramModel| HistogramModel { metric: cleared(h.metric), ..h },
        ),
        default_max_cardinality: registry.default_max_cardinality,
        fresh: false,
    }
}

/// Snapshots, as mathematics.
pub open spec fn snapshot_models(snapshots: Seq<MetricSnapshot>) -> Seq<SnapshotModel> {
    snapshots.map_values(|s: MetricSnapshot| s.model())
}

/// Where names are distinct, a name has the position at which it stands.
pub proof fn lemma_position(names: Seq<Seq<char>>, name: Seq<char>, i: int)
    requires
        distinct(names),
        0 <= i < names.len(),
        names[i] == name,
    ensures
        position(names, name) == Some(i),
{
    let k = choose|k: int| 0 <= k < names.len() && #[trigger] names[k] == name;
    if k < i {
        assert(names[k] != names[i]);
    } else if i < k {
        assert(names[i] != names[k]);
    }
}

/// No bucket holds more than all buckets together.
pub proof fn lemma_total_member(counts: Seq<u64>, i: int)
    requires
        0 <= i < counts.len(),
    ensures
        counts[i] <= total(counts),
    decreases counts.len(),
{
    if i < counts.len() - 1 {
        lemma_total_member(counts.drop_last(), i);
    }
}

} // verus!
