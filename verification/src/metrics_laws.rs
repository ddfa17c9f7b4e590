//! What always holds of metrics.

use vstd::prelude::*;

use crate::attrs;
use crate::attrs::Pair;
use crate::double;
use crate::metrics::{
    Counter, Exemplar, ExemplarValue, Gauge, Histogram, Outcome, TraceContext,
};
use crate::metrics_model as model;
use crate::metrics_model::{
    HistogramModel, MetricModel, Point, RegistryModel, Slot, SnapshotModel,
};

verus! {

/// The slot that `At` names holds the attribute set, and is the only one with its
/// hash.
proof fn lemma_slot_at<T>(points: Seq<Point<T>>, max_cardinality: usize, pairs: Seq<Pair>, i: int)
    requires
        model::points_wf(points, max_cardinality),
        0 <= i < points.len(),
        points[i].attrs == attrs::canonical(pairs),
    ensures
        model::slot(points, max_cardinality, pairs) == Slot::At(i),
{
    attrs::lemma_canonical_hash(pairs);
    assert(attrs::attrs_hash(points[i].attrs) == attrs::attrs_hash(pairs));
    let k = choose|k: int|
        0 <= k < points.len() && attrs::attrs_hash(#[trigger] points[k].attrs)
            == attrs::attrs_hash(pairs);
    if k < i {
        assert(attrs::attrs_hash(points[k].attrs) != attrs::attrs_hash(points[i].attrs));
    } else if i < k {
        assert(attrs::attrs_hash(points[i].attrs) != attrs::attrs_hash(points[k].attrs));
    }
}

/// Where a slot is not `At`, no data point has the attribute set.
proof fn lemma_slot_not_at<T>(points: Seq<Point<T>>, max_cardinality: usize, pairs: Seq<Pair>)
    requires
        model::points_wf(points, max_cardinality),
        !(model::slot(points, max_cardinality, pairs) is At),
    ensures
        forall|i: int|
            0 <= i < points.len() ==> (#[trigger] points[i]).attrs != attrs::canonical(pairs),
{
    assert forall|i: int| 0 <= i < points.len() implies (#[trigger] points[i]).attrs
        != attrs::canonical(pairs) by {
        if points[i].attrs == attrs::canonical(pairs) {
            lemma_slot_at(points, max_cardinality, pairs, i);
        }
    }
}

/// Recording keeps what holds of the data points of every metric; above all, they
/// never become more than the metric may keep.
pub proof fn lemma_recorded_wf<T>(
    metric: MetricModel<T>,
    pairs: Seq<Pair>,
    next: T,
    first: T,
    exemplar: Option<Exemplar>,
)
    requires
        model::points_wf(metric.points, metric.max_cardinality),
    ensures
        model::points_wf(
            model::recorded(metric, pairs, next, first, exemplar).points,
            metric.max_cardinality,
        ),
{
    let after = model::recorded(metric, pairs, next, first, exemplar);
    match model::slot(metric.points, metric.max_cardinality, pairs) {
        Slot::At(i) => {
            assert forall|k: int| 0 <= k < after.points.len() implies #[trigger] after.points[k].attrs
                == metric.points[k].attrs by {}
        },
        Slot::New => {
            attrs::lemma_canonical_idempotent(pairs);
            attrs::lemma_canonical_hash(pairs);
        },
        _ => {},
    }
}

/// A recorded value is what the metric then holds for the attribute set.
pub proof fn lemma_recorded_reads_back<T>(
    metric: MetricModel<T>,
    pairs: Seq<Pair>,
    next: T,
    first: T,
    exemplar: Option<Exemplar>,
)
    requires
        model::points_wf(metric.points, metric.max_cardinality),
        model::outcome(metric, pairs) == Outcome::Recorded,
    ensures
        model::value_at(model::recorded(metric, pairs, next, first, exemplar), pairs) == Some(
            if model::value_at(metric, pairs) is Some {
                next
            } else {
                first
            },
        ),
{
    let after = model::recorded(metric, pairs, next, first, exemplar);
    lemma_recorded_wf(metric, pairs, next, first, exemplar);
    match model::slot(metric.points, metric.max_cardinality, pairs) {
        Slot::At(i) => {
            assert(metric.points[i].attrs == attrs::canonical(pairs));
            lemma_slot_at(after.points, after.max_cardinality, pairs, i);
        },
        _ => {
            lemma_slot_at(
                after.points,
                after.max_cardinality,
                pairs,
                metric.points.len() as int,
            );
        },
    }
}

/// Recording for one attribute set leaves what the metric holds for others.
pub proof fn lemma_recorded_leaves_others<T>(
    metric: MetricModel<T>,
    pairs: Seq<Pair>,
    others: Seq<Pair>,
    next: T,
    first: T,
    exemplar: Option<Exemplar>,
)
    requires
        model::points_wf(metric.points, metric.max_cardinality),
        attrs::canonical(pairs) != attrs::canonical(others),
    ensures
        model::value_at(model::recorded(metric, pairs, next, first, exemplar), others)
            == model::value_at(metric, others),
{
    let after = model::recorded(metric, pairs, next, first, exemplar);
    lemma_recorded_wf(metric, pairs, next, first, exemplar);
    match model::slot(metric.points, metric.max_cardinality, others) {
        Slot::At(k) => {
            assert(metric.points[k].attrs == attrs::canonical(others));
            assert(after.points[k] == metric.points[k]);
            lemma_slot_at(after.points, after.max_cardinality, others, k);
        },
        _ => {
            lemma_slot_not_at(metric.points, metric.max_cardinality, others);
            if let Slot::At(k) = model::slot(after.points, after.max_cardinality, others) {
                assert(after.points[k].attrs == attrs::canonical(others));
                if k < metric.points.len() {
                    assert(metric.points[k].attrs == after.points[k].attrs);
                }
            }
        },
    }
}

/// The order in which attributes are given does not matter to a recording.
pub proof fn lemma_recording_ignores_order<T>(
    metric: MetricModel<T>,
    a: Seq<Pair>,
    b: Seq<Pair>,
    next: T,
    first: T,
    exemplar: Option<Exemplar>,
)
    requires
        a.to_multiset() == b.to_multiset(),
    ensures
        model::recorded(metric, a, next, first, exemplar) == model::recorded(
            metric,
            b,
            next,
            first,
            exemplar,
        ),
        model::outcome(metric, a) == model::outcome(metric, b),
        model::value_at(metric, a) == model::value_at(metric, b),
{
    attrs::lemma_canonical_ignores_order(a, b);
    attrs::lemma_hash_ignores_order(a, b);
}

/// A metric that is full still records values for the attribute sets that it has.
pub proof fn lemma_full_keeps_recording<T>(metric: MetricModel<T>, pairs: Seq<Pair>)
    requires
        model::value_at(metric, pairs) is Some,
    ensures
        model::outcome(metric, pairs) == Outcome::Recorded,
{
}

/// A metric that is full takes no new attribute set, whatever is recorded, and says
/// so once.
pub proof fn lemma_full_drops_new<T>(
    metric: MetricModel<T>,
    pairs: Seq<Pair>,
    next: T,
    first: T,
    exemplar: Option<Exemplar>,
)
    requires
        model::points_wf(metric.points, metric.max_cardinality),
        metric.points.len() == metric.max_cardinality,
        forall|i: int|
            0 <= i < metric.points.len() ==> attrs::attrs_hash(
                (#[trigger] metric.points[i]).attrs,
            ) != attrs::attrs_hash(pairs),
    ensures
        model::outcome(metric, pairs) == (Outcome::LimitReached {
            first: !metric.overflow_warned,
        }),
        model::recorded(metric, pairs, next, first, exemplar).points == metric.points,
        model::recorded(metric, pairs, next, first, exemplar).overflow_warned,
{
}

/// A counter adds up: what it holds after an addition is what it held plus the
/// amount, up to the largest signed number; and it never goes down.
pub proof fn lemma_counter_accumulates(
    metric: MetricModel<i64>,
    value: u64,
    pairs: Seq<Pair>,
    context: Option<TraceContext>,
)
    requires
        model::points_wf(metric.points, metric.max_cardinality),
        model::outcome(metric, pairs) == Outcome::Recorded,
    ensures
        ({
            let after = model::value_at(
                model::counter_added(metric, value, pairs, context),
                pairs,
            );
            match model::value_at(metric, pairs) {
                Some(before) => {
                    &&& after == Some(model::capped_sum(before, model::clamped(value)))
                    &&& after->0 >= before
                },
                None => after == Some(model::clamped(value)),
            }
        }),
{
    let amount = model::clamped(value);
    let next = match model::value_at(metric, pairs) {
        Some(old) => model::capped_sum(old, amount),
        None => amount,
    };
    lemma_recorded_reads_back(
        metric,
        pairs,
        next,
        amount,
        model::captured(context, crate::metrics::ExemplarValue::Int(amount)),
    );
}

/// A gauge holds the last value that was set, and keeps it when a value that is not
/// finite is set.
pub proof fn lemma_gauge_holds_last(
    metric: MetricModel<u64>,
    value: u64,
    pairs: Seq<Pair>,
    context: Option<TraceContext>,
)
    requires
        model::points_wf(metric.points, metric.max_cardinality),
        model::outcome(metric, pairs) == Outcome::Recorded,
    ensures
        model::value_at(model::gauge_set(metric, value, pairs, context), pairs)
            == if double::finite(value) {
            Some(value)
        } else {
            model::value_at(metric, pairs)
        },
{
    if double::finite(value) {
        lemma_recorded_reads_back(
            metric,
            pairs,
            value,
            value,
            model::captured(context, crate::metrics::ExemplarValue::Double(value)),
        );
    }
}

/// A histogram counts each value once, in its bucket, and its least and greatest
/// value are kept.
pub proof fn lemma_histogram_counts(
    histogram: HistogramModel,
    value: u64,
    pairs: Seq<Pair>,
    context: Option<TraceContext>,
    bucket: int,
    sum: u64,
)
    requires
        model::histogram_wf(histogram),
        model::has_room(histogram, pairs),
        double::finite(value),
        double::is_bucket(histogram.boundaries, value, bucket),
        model::outcome(histogram.metric, pairs) == Outcome::Recorded,
    ensures
        ({
            let after = model::value_at(
                model::histogram_observed(
                    histogram,
                    value,
                    pairs,
                    context,
                    bucket,
                    sum,
                ).metric,
                pairs,
            )->0;
            match model::value_at(histogram.metric, pairs) {
                Some(before) => {
                    &&& after.count == before.count + 1
                    &&& after.sum == sum
                    &&& after.bucket_counts[bucket] == before.bucket_counts[bucket] + 1
                    &&& forall|k: int|
                        0 <= k <= histogram.boundaries.len() && k != bucket
                            ==> #[trigger] after.bucket_counts[k] == before.bucket_counts[k]
                    &&& double::place(after.min) <= double::place(value)
                    &&& double::place(after.min) <= double::place(before.min)
                    &&& double::place(after.max) >= double::place(value)
                    &&& double::place(after.max) >= double::place(before.max)
                    &&& after.min == value || after.min == before.min
                    &&& after.max == value || after.max == before.max
                },
                None => {
                    &&& after.count == 1
                    &&& after.sum == value
                    &&& after.bucket_counts[bucket] == 1
                    &&& forall|k: int|
                        0 <= k <= histogram.boundaries.len() && k != bucket
                            ==> #[trigger] after.bucket_counts[k] == 0
                    &&& after.min == value
                    &&& after.max == value
                },
            }
        }),
{
    let first = model::point_first(histogram.boundaries.len() + 1, bucket, value);
    let next = match model::value_at(histogram.metric, pairs) {
        Some(old) => model::point_observed(old, bucket, value, sum),
        None => first,
    };
    lemma_recorded_reads_back(
        histogram.metric,
        pairs,
        next,
        first,
        model::captured(context, crate::metrics::ExemplarValue::Double(value)),
    );
    if let Slot::At(i) = model::slot(
        histogram.metric.points,
        histogram.metric.max_cardinality,
        pairs,
    ) {
        let before = histogram.metric.points[i].value;
        assert(before.bucket_counts.len() == histogram.boundaries.len() + 1);
        model::lemma_total_member(before.bucket_counts, bucket);
    }
}

/// Registering a name again gives the same counter and changes nothing, whatever
/// description and limit come with it: the first registration holds.
pub proof fn lemma_counter_first_registration_holds(
    start: RegistryModel,
    first: RegistryModel,
    second: RegistryModel,
    a: Counter,
    b: Counter,
    name: Seq<char>,
    description_a: Seq<char>,
    description_b: Seq<char>,
    max_a: usize,
    max_b: usize,
)
    requires
        start.wf(),
        first.wf(),
        model::counter_registered(start, first, a, name, description_a, max_a),
        model::counter_registered(first, second, b, name, description_b, max_b),
    ensures
        a.id() == b.id(),
        second == first,
{
    if model::position(start.counter_names(), name) is None {
        assert(first.counter_names()[a.id()] == name);
        model::lemma_position(first.counter_names(), name, a.id());
    }
}

/// Registering a name again gives the same gauge and changes nothing.
pub proof fn lemma_gauge_first_registration_holds(
    start: RegistryModel,
    first: RegistryModel,
    second: RegistryModel,
    a: Gauge,
    b: Gauge,
    name: Seq<char>,
    description_a: Seq<char>,
    description_b: Seq<char>,
    max_a: usize,
    max_b: usize,
)
    requires
        start.wf(),
        first.wf(),
        model::gauge_registered(start, first, a, name, description_a, max_a),
        model::gauge_registered(first, second, b, name, description_b, max_b),
    ensures
        a.id() == b.id(),
        second == first,
{
    if model::position(start.gauge_names(), name) is None {
        assert(first.gauge_names()[a.id()] == name);
        model::lemma_position(first.gauge_names(), name, a.id());
    }
}

/// Registering a name again gives the same histogram and changes nothing, whatever
/// boundaries come with it.
pub proof fn lemma_histogram_first_registration_holds(
    start: RegistryModel,
    first: RegistryModel,
    second: RegistryModel,
    a: Histogram,
    b: Histogram,
    name: Seq<char>,
    description_a: Seq<char>,
    description_b: Seq<char>,
    boundaries_a: Seq<u64>,
    boundaries_b: Seq<u64>,
    max_a: usize,
    max_b: usize,
)
    requires
        start.wf(),
        first.wf(),
        model::histogram_registered(start, first, a, name, description_a, boundaries_a, max_a),
        model::histogram_registered(first, second, b, name, description_b, boundaries_b, max_b),
    ensures
        a.id() == b.id(),
        second == first,
{
    if model::position(start.histogram_names(), name) is None {
        assert(first.histogram_names()[a.id()] == name);
        model::lemma_position(first.histogram_names(), name, a.id());
    }
}

/// A collection leaves every value as it is: counters and histograms go on from
/// where they were.
pub proof fn lemma_collect_keeps_values<T>(metric: MetricModel<T>, pairs: Seq<Pair>)
    requires
        model::points_wf(metric.points, metric.max_cardinality),
    ensures
        model::value_at(model::cleared(metric), pairs) == model::value_at(metric, pairs),
        model::points_wf(model::cleared(metric).points, metric.max_cardinality),
{
    let after = model::cleared(metric);
    assert forall|k: int| 0 <= k < after.points.len() implies #[trigger] after.points[k].attrs
        == metric.points[k].attrs by {}
    match model::slot(metric.points, metric.max_cardinality, pairs) {
        Slot::At(i) => {
            assert(after.points[i].attrs == attrs::canonical(pairs));
            lemma_slot_at(after.points, after.max_cardinality, pairs, i);
        },
        _ => {
            lemma_slot_not_at(metric.points, metric.max_cardinality, pairs);
            if let Slot::At(k) = model::slot(after.points, after.max_cardinality, pairs) {
                assert(after.points[k].attrs == attrs::canonical(pairs));
                assert(metric.points[k].attrs == attrs::canonical(pairs));
            }
        },
    }
}

/// A second collection, with nothing recorded in between, gives out no exemplar and
/// changes nothing: an exemplar is given out once.
pub proof fn lemma_exemplars_given_once<T>(metric: MetricModel<T>)
    ensures
        model::cleared(model::cleared(metric)) == model::cleared(metric),
        forall|i: int|
            0 <= i < metric.points.len() ==> (#[trigger] model::cleared(
                metric,
            ).points[i]).exemplar is None,
{
    assert(model::cleared(model::cleared(metric)).points =~= model::cleared(metric).points);
}

/// A registry without data points gives out no snapshots.
pub proof fn lemma_no_data_no_snapshots(registry: RegistryModel)
    requires
        forall|i: int|
            0 <= i < registry.counters.len() ==> (#[trigger] registry.counters[i]).points.len()
                == 0,
        forall|i: int|
            0 <= i < registry.gauges.len() ==> (#[trigger] registry.gauges[i]).points.len() == 0,
        forall|i: int|
            0 <= i < registry.histograms.len() ==> (
            #[trigger] registry.histograms[i]).metric.points.len() == 0,
    ensures
        model::registry_snapshots(registry).len() == 0,
{
    lemma_no_counts(registry.counters);
    lemma_no_values(registry.gauges);
    lemma_no_distributions(registry.histograms);
}

proof fn lemma_no_counts(counters: Seq<MetricModel<i64>>)
    requires
        forall|i: int| 0 <= i < counters.len() ==> (#[trigger] counters[i]).points.len() == 0,
    ensures
        model::counter_snapshots(counters).len() == 0,
    decreases counters.len(),
{
    if counters.len() > 0 {
        lemma_no_counts(counters.drop_last());
    }
}

proof fn lemma_no_values(gauges: Seq<MetricModel<u64>>)
    requires
        forall|i: int| 0 <= i < gauges.len() ==> (#[trigger] gauges[i]).points.len() == 0,
    ensures
        model::gauge_snapshots(gauges).len() == 0,
    decreases gauges.len(),
{
    if gauges.len() > 0 {
        lemma_no_values(gauges.drop_last());
    }
}

proof fn lemma_no_distributions(histograms: Seq<HistogramModel>)
    requires
        forall|i: int|
            0 <= i < histograms.len() ==> (#[trigger] histograms[i]).metric.points.len() == 0,
    ensures
        model::histogram_snapshots(histograms).len() == 0,
    decreases histograms.len(),
{
    if histograms.len() > 0 {
        lemma_no_distributions(histograms.drop_last());
    }
}

/// A counter with data points is given out with all of them.
pub proof fn lemma_counter_given_out(registry: RegistryModel, id: int)
    requires
        0 <= id < registry.counters.len(),
        registry.counters[id].points.len() > 0,
    ensures
        model::registry_snapshots(registry).contains(
            model::counter_snapshot(registry.counters[id]),
        ),
{
    lemma_counter_given_out_among(registry.counters, id);
    let found = choose|k: int|
        0 <= k < model::counter_snapshots(registry.counters).len() && #[trigger] model::counter_snapshots(
            registry.counters,
        )[k] == model::counter_snapshot(registry.counters[id]);
    let all = model::registry_snapshots(registry);
    let before = 0int;
    assert(all[before + found] == model::counter_snapshot(registry.counters[id]));
}

proof fn lemma_counter_given_out_among(counters: Seq<MetricModel<i64>>, id: int)
    requires
        0 <= id < counters.len(),
        counters[id].points.len() > 0,
    ensures
        model::counter_snapshots(counters).contains(model::counter_snapshot(counters[id])),
    decreases counters.len(),
{
    let snapshot = model::counter_snapshot(counters[id]);
    let rest = model::counter_snapshots(counters.drop_last());
    let all = model::counter_snapshots(counters);
    if id == counters.len() - 1 {
        assert(all[all.len() - 1] == snapshot);
    } else {
        lemma_counter_given_out_among(counters.drop_last(), id);
        let k = choose|k: int| 0 <= k < rest.len() && #[trigger] rest[k] == snapshot;
        assert(all[k] == snapshot);
    }
}

/// A gauge with data points is given out with all of them.
pub proof fn lemma_gauge_given_out(registry: RegistryModel, id: int)
    requires
        0 <= id < registry.gauges.len(),
        registry.gauges[id].points.len() > 0,
    ensures
        model::registry_snapshots(registry).contains(model::gauge_snapshot(registry.gauges[id])),
{
    lemma_gauge_given_out_among(registry.gauges, id);
    let found = choose|k: int|
        0 <= k < model::gauge_snapshots(registry.gauges).len() && #[trigger] model::gauge_snapshots(
            registry.gauges,
        )[k] == model::gauge_snapshot(registry.gauges[id]);
    let all = model::registry_snapshots(registry);
    let before = model::counter_snapshots(registry.counters).len();
    assert(all[before + found] == model::gauge_snapshot(registry.gauges[id]));
}

proof fn lemma_gauge_given_out_among(gauges: Seq<MetricModel<u64>>, id: int)
    requires
        0 <= id < gauges.len(),
        gauges[id].points.len() > 0,
    ensures
        model::gauge_snapshots(gauges).contains(model::gauge_snapshot(gauges[id])),
    decreases gauges.len(),
{
    let snapshot = model::gauge_snapshot(gauges[id]);
    let rest = model::gauge_snapshots(gauges.drop_last());
    let all = model::gauge_snapshots(gauges);
    if id == gauges.len() - 1 {
        assert(all[all.len() - 1] == snapshot);
    } else {
        lemma_gauge_given_out_among(gauges.drop_last(), id);
        let k = choose|k: int| 0 <= k < rest.len() && #[trigger] rest[k] == snapshot;
        assert(all[k] == snapshot);
    }
}

/// A histogram with data points is given out with all of them.
pub proof fn lemma_histogram_given_out(registry: RegistryModel, id: int)
    requires
        0 <= id < registry.histograms.len(),
        registry.histograms[id].metric.points.len() > 0,
    ensures
        model::registry_snapshots(registry).contains(
            model::histogram_snapshot(registry.histograms[id]),
        ),
{
    lemma_histogram_given_out_among(registry.histograms, id);
    let found = choose|k: int|
        0 <= k < model::histogram_snapshots(registry.histograms).len() && #[trigger] model::histogram_snapshots(
            registry.histograms,
        )[k] == model::histogram_snapshot(registry.histograms[id]);
    let all = model::registry_snapshots(registry);
    let before = model::counter_snapshots(registry.counters).len()
        + model::gauge_snapshots(registry.gauges).len();
    assert(all[before + found] == model::histogram_snapshot(registry.histograms[id]));
}

proof fn lemma_histogram_given_out_among(histograms: Seq<HistogramModel>, id: int)
    requires
        0 <= id < histograms.len(),
        histograms[id].metric.points.len() > 0,
    ensures
        model::histogram_snapshots(histograms).contains(model::histogram_snapshot(histograms[id])),
    decreases histograms.len(),
{
    let snapshot = model::histogram_snapshot(histograms[id]);
    let rest = model::histogram_snapshots(histograms.drop_last());
    let all = model::histogram_snapshots(histograms);
    if id == histograms.len() - 1 {
        assert(all[all.len() - 1] == snapshot);
    } else {
        lemma_histogram_given_out_among(histograms.drop_last(), id);
        let k = choose|k: int| 0 <= k < rest.len() && #[trigger] rest[k] == snapshot;
        assert(all[k] == snapshot);
    }
}

/// The largest amount that a counter can take or hold.
pub open spec fn most() -> int {
    0x7fff_ffff_ffff_ffff
}

/// The smaller of two numbers.
pub open spec fn least(a: int, b: int) -> int {
    if a < b {
        a
    } else {
        b
    }
}

/// What recording leaves as it is: all about a metric but its data points and whether it has said
/// that it is full.
pub open spec fn same_metric<T>(before: MetricModel<T>, after: MetricModel<T>) -> bool {
    &&& after.name == before.name
    &&& after.description == before.description
    &&& after.max_cardinality == before.max_cardinality
}

/// Recording for an attribute set that has a data point changes the value of that data point and
/// nothing else; a new exemplar takes the place of the old one.
pub proof fn lemma_known_set_is_recorded<T>(
    metric: MetricModel<T>,
    pairs: Seq<Pair>,
    next: T,
    first: T,
    exemplar: Option<Exemplar>,
    i: int,
)
    requires
        model::points_wf(metric.points, metric.max_cardinality),
        0 <= i < metric.points.len(),
        metric.points[i].attrs == attrs::canonical(pairs),
    ensures
        ({
            let after = model::recorded(metric, pairs, next, first, exemplar);
            &&& model::outcome(metric, pairs) == Outcome::Recorded
            &&& same_metric(metric, after)
            &&& after.overflow_warned == metric.overflow_warned
            &&& after.points.len() == metric.points.len()
            &&& after.points[i].attrs == metric.points[i].attrs
            &&& after.points[i].value == next
            &&& exemplar is Some ==> after.points[i].exemplar == exemplar
            &&& exemplar is None ==> after.points[i].exemplar == metric.points[i].exemplar
            &&& forall|k: int|
                0 <= k < metric.points.len() && k != i ==> #[trigger] after.points[k]
                    == metric.points[k]
        }),
{
    lemma_slot_at(metric.points, metric.max_cardinality, pairs, i);
}

/// Recording for a new attribute set, where there is room, adds a data point behind the others
/// with the attributes in canonical order.
pub proof fn lemma_new_set_is_recorded<T>(
    metric: MetricModel<T>,
    pairs: Seq<Pair>,
    next: T,
    first: T,
    exemplar: Option<Exemplar>,
)
    requires
        metric.points.len() < metric.max_cardinality,
        forall|i: int|
            0 <= i < metric.points.len() ==> attrs::attrs_hash(
                (#[trigger] metric.points[i]).attrs,
            ) != attrs::attrs_hash(pairs),
    ensures
        ({
            let after = model::recorded(metric, pairs, next, first, exemplar);
            &&& model::outcome(metric, pairs) == Outcome::Recorded
            &&& same_metric(metric, after)
            &&& after.overflow_warned == metric.overflow_warned
            &&& after.points.len() == metric.points.len() + 1
            &&& after.points.drop_last() == metric.points
            &&& after.points.last().attrs == attrs::canonical(pairs)
            &&& after.points.last().value == first
            &&& after.points.last().exemplar == exemplar
        }),
{
    let after = model::recorded(metric, pairs, next, first, exemplar);
    assert(after.points.drop_last() =~= metric.points);
}

/// A set of attributes whose hash belongs to another set changes nothing.
pub proof fn lemma_collision_changes_nothing<T>(
    metric: MetricModel<T>,
    pairs: Seq<Pair>,
    next: T,
    first: T,
    exemplar: Option<Exemplar>,
    i: int,
)
    requires
        model::points_wf(metric.points, metric.max_cardinality),
        0 <= i < metric.points.len(),
        attrs::attrs_hash(metric.points[i].attrs) == attrs::attrs_hash(pairs),
        metric.points[i].attrs != attrs::canonical(pairs),
    ensures
        model::outcome(metric, pairs) == Outcome::HashCollision,
        model::recorded(metric, pairs, next, first, exemplar) == metric,
{
    let k = choose|k: int|
        0 <= k < metric.points.len() && attrs::attrs_hash(#[trigger] metric.points[k].attrs)
            == attrs::attrs_hash(pairs);
    if k < i {
        assert(attrs::attrs_hash(metric.points[k].attrs) != attrs::attrs_hash(
            metric.points[i].attrs,
        ));
    } else if i < k {
        assert(attrs::attrs_hash(metric.points[i].attrs) != attrs::attrs_hash(
            metric.points[k].attrs,
        ));
    }
}

/// A counter adds the amount to the data point of the attribute set: the data point then holds
/// what it held plus the amount, both capped at the largest signed number. Other data points stay.
pub proof fn lemma_counter_adds_amount(
    metric: MetricModel<i64>,
    value: u64,
    pairs: Seq<Pair>,
    context: Option<TraceContext>,
    i: int,
)
    requires
        model::points_wf(metric.points, metric.max_cardinality),
        0 <= i < metric.points.len(),
        metric.points[i].attrs == attrs::canonical(pairs),
    ensures
        ({
            let after = model::counter_added(metric, value, pairs, context);
            &&& same_metric(metric, after)
            &&& after.points.len() == metric.points.len()
            &&& after.points[i].attrs == metric.points[i].attrs
            &&& after.points[i].value == least(
                metric.points[i].value + least(value as int, most()),
                most(),
            )
            &&& forall|k: int|
                0 <= k < metric.points.len() && k != i ==> #[trigger] after.points[k]
                    == metric.points[k]
        }),
{
    lemma_slot_at(metric.points, metric.max_cardinality, pairs, i);
}

/// The first amount for an attribute set is what its new data point holds, capped at the largest
/// signed number.
pub proof fn lemma_counter_starts_at_amount(
    metric: MetricModel<i64>,
    value: u64,
    pairs: Seq<Pair>,
    context: Option<TraceContext>,
)
    requires
        metric.points.len() < metric.max_cardinality,
        forall|i: int|
            0 <= i < metric.points.len() ==> attrs::attrs_hash(
                (#[trigger] metric.points[i]).attrs,
            ) != attrs::attrs_hash(pairs),
    ensures
        ({
            let after = model::counter_added(metric, value, pairs, context);
            &&& same_metric(metric, after)
            &&& after.points.len() == metric.points.len() + 1
            &&& after.points.drop_last() == metric.points
            &&& after.points.last().attrs == attrs::canonical(pairs)
            &&& after.points.last().value == least(value as int, most())
        }),
{
    let after = model::counter_added(metric, value, pairs, context);
    assert(after.points.drop_last() =~= metric.points);
}

/// The sum of amounts, each capped at the largest signed number.
pub open spec fn sum_of(amounts: Seq<u64>) -> int
    decreases amounts.len(),
{
    if amounts.len() == 0 {
        0
    } else {
        sum_of(amounts.drop_last()) + least(amounts.last() as int, most())
    }
}

/// A counter after amounts were added for one attribute set, one after the other.
pub open spec fn after_adding(
    metric: MetricModel<i64>,
    amounts: Seq<u64>,
    pairs: Seq<Pair>,
    context: Option<TraceContext>,
) -> MetricModel<i64>
    decreases amounts.len(),
{
    if amounts.len() == 0 {
        metric
    } else {
        model::counter_added(
            after_adding(metric, amounts.drop_last(), pairs, context),
            amounts.last(),
            pairs,
            context,
        )
    }
}

/// Over any run of additions the data point holds the sum of the amounts on top of what it held,
/// capped once at the largest signed number, and no other data point changes.
pub proof fn lemma_counter_holds_sum(
    metric: MetricModel<i64>,
    amounts: Seq<u64>,
    pairs: Seq<Pair>,
    context: Option<TraceContext>,
    i: int,
)
    requires
        model::points_wf(metric.points, metric.max_cardinality),
        0 <= i < metric.points.len(),
        metric.points[i].attrs == attrs::canonical(pairs),
    ensures
        ({
            let after = after_adding(metric, amounts, pairs, context);
            &&& same_metric(metric, after)
            &&& model::points_wf(after.points, after.max_cardinality)
            &&& after.points.len() == metric.points.len()
            &&& after.points[i].attrs == metric.points[i].attrs
            &&& after.points[i].value == least(metric.points[i].value + sum_of(amounts), most())
            &&& forall|k: int|
                0 <= k < metric.points.len() && k != i ==> #[trigger] after.points[k]
                    == metric.points[k]
        }),
        sum_of(amounts) >= 0,
    decreases amounts.len(),
{
    if amounts.len() > 0 {
        let before = after_adding(metric, amounts.drop_last(), pairs, context);
        let amount = model::clamped(amounts.last());
        lemma_counter_holds_sum(metric, amounts.drop_last(), pairs, context, i);
        lemma_counter_adds_amount(before, amounts.last(), pairs, context, i);
        lemma_recorded_wf(
            before,
            pairs,
            match model::value_at(before, pairs) {
                Some(old) => model::capped_sum(old, amount),
                None => amount,
            },
            amount,
            model::captured(context, crate::metrics::ExemplarValue::Int(amount)),
        );
    }
}

/// A finite value that a gauge is set to is what the data point of the attribute set holds,
/// whatever it held; other data points stay.
pub proof fn lemma_gauge_takes_value(
    metric: MetricModel<u64>,
    value: u64,
    pairs: Seq<Pair>,
    context: Option<TraceContext>,
    i: int,
)
    requires
        (value / 0x10_0000_0000_0000) % 2048 != 2047,
        model::points_wf(metric.points, metric.max_cardinality),
        0 <= i < metric.points.len(),
        metric.points[i].attrs == attrs::canonical(pairs),
    ensures
        ({
            let after = model::gauge_set(metric, value, pairs, context);
            &&& same_metric(metric, after)
            &&& after.points.len() == metric.points.len()
            &&& after.points[i].attrs == metric.points[i].attrs
            &&& after.points[i].value == value
            &&& forall|k: int|
                0 <= k < metric.points.len() && k != i ==> #[trigger] after.points[k]
                    == metric.points[k]
        }),
{
    lemma_slot_at(metric.points, metric.max_cardinality, pairs, i);
}

/// The first finite value for an attribute set is what its new data point holds.
pub proof fn lemma_gauge_starts_at_value(
    metric: MetricModel<u64>,
    value: u64,
    pairs: Seq<Pair>,
    context: Option<TraceContext>,
)
    requires
        (value / 0x10_0000_0000_0000) % 2048 != 2047,
        metric.points.len() < metric.max_cardinality,
        forall|i: int|
            0 <= i < metric.points.len() ==> attrs::attrs_hash(
                (#[trigger] metric.points[i]).attrs,
            ) != attrs::attrs_hash(pairs),
    ensures
        ({
            let after = model::gauge_set(metric, value, pairs, context);
            &&& same_metric(metric, after)
            &&& after.points.len() == metric.points.len() + 1
            &&& after.points.drop_last() == metric.points
            &&& after.points.last().attrs == attrs::canonical(pairs)
            &&& after.points.last().value == value
        }),
{
    let after = model::gauge_set(metric, value, pairs, context);
    assert(after.points.drop_last() =~= metric.points);
}

/// Infinities and what is not a number change neither a gauge nor a histogram.
pub proof fn lemma_not_finite_changes_nothing(
    gauge: MetricModel<u64>,
    histogram: HistogramModel,
    value: u64,
    pairs: Seq<Pair>,
    context: Option<TraceContext>,
    bucket: int,
    sum: u64,
)
    requires
        (value / 0x10_0000_0000_0000) % 2048 == 2047,
    ensures
        model::gauge_set(gauge, value, pairs, context) == gauge,
        model::histogram_observed(histogram, value, pairs, context, bucket, sum) == histogram,
{
}

/// A histogram counts a finite value in the data point of the attribute set: one more in all, one
/// more in the bucket of the value and none in the others, the sum with the value, and the least
/// and the greatest value so far. Other data points and the boundaries stay.
pub proof fn lemma_histogram_takes_value(
    histogram: HistogramModel,
    value: u64,
    pairs: Seq<Pair>,
    context: Option<TraceContext>,
    bucket: int,
    sum: u64,
    i: int,
)
    requires
        (value / 0x10_0000_0000_0000) % 2048 != 2047,
        model::histogram_wf(histogram),
        0 <= bucket <= histogram.boundaries.len(),
        0 <= i < histogram.metric.points.len(),
        histogram.metric.points[i].attrs == attrs::canonical(pairs),
        histogram.metric.points[i].value.count < u64::MAX,
    ensures
        ({
            let after = model::histogram_observed(
                histogram,
                value,
                pairs,
                context,
                bucket,
                sum,
            );
            let old = histogram.metric.points[i].value;
            let new = after.metric.points[i].value;
            &&& after.boundaries == histogram.boundaries
            &&& same_metric(histogram.metric, after.metric)
            &&& after.metric.points.len() == histogram.metric.points.len()
            &&& after.metric.points[i].attrs == histogram.metric.points[i].attrs
            &&& new.count == old.count + 1
            &&& new.sum == sum
            &&& new.bucket_counts.len() == old.bucket_counts.len()
            &&& new.bucket_counts[bucket] == old.bucket_counts[bucket] + 1
            &&& forall|k: int|
                0 <= k < old.bucket_counts.len() && k != bucket ==> #[trigger] new.bucket_counts[k]
                    == old.bucket_counts[k]
            &&& new.min == old.min || new.min == value
            &&& double::place(new.min) <= double::place(old.min)
            &&& double::place(new.min) <= double::place(value)
            &&& new.max == old.max || new.max == value
            &&& double::place(new.max) >= double::place(old.max)
            &&& double::place(new.max) >= double::place(value)
            &&& forall|k: int|
                0 <= k < histogram.metric.points.len() && k != i
                    ==> #[trigger] after.metric.points[k] == histogram.metric.points[k]
        }),
{
    lemma_slot_at(histogram.metric.points, histogram.metric.max_cardinality, pairs, i);
    let old = histogram.metric.points[i].value;
    assert(old.bucket_counts.len() == histogram.boundaries.len() + 1);
    model::lemma_total_member(old.bucket_counts, bucket);
}

/// The first finite value for an attribute set makes a data point that has counted it alone.
pub proof fn lemma_histogram_starts_at_value(
    histogram: HistogramModel,
    value: u64,
    pairs: Seq<Pair>,
    context: Option<TraceContext>,
    bucket: int,
    sum: u64,
)
    requires
        (value / 0x10_0000_0000_0000) % 2048 != 2047,
        0 <= bucket <= histogram.boundaries.len(),
        histogram.metric.points.len() < histogram.metric.max_cardinality,
        forall|i: int|
            0 <= i < histogram.metric.points.len() ==> attrs::attrs_hash(
                (#[trigger] histogram.metric.points[i]).attrs,
            ) != attrs::attrs_hash(pairs),
    ensures
        ({
            let after = model::histogram_observed(
                histogram,
                value,
                pairs,
                context,
                bucket,
                sum,
            );
            let new = after.metric.points.last().value;
            &&& after.boundaries == histogram.boundaries
            &&& same_metric(histogram.metric, after.metric)
            &&& after.metric.points.len() == histogram.metric.points.len() + 1
            &&& after.metric.points.drop_last() == histogram.metric.points
            &&& after.metric.points.last().attrs == attrs::canonical(pairs)
            &&& new.count == 1
            &&& new.sum == value
            &&& new.min == value
            &&& new.max == value
            &&& new.bucket_counts.len() == histogram.boundaries.len() + 1
            &&& new.bucket_counts[bucket] == 1
            &&& forall|k: int|
                0 <= k <= histogram.boundaries.len() && k != bucket
                    ==> #[trigger] new.bucket_counts[k] == 0
        }),
{
    let after = model::histogram_observed(histogram, value, pairs, context, bucket, sum);
    assert(after.metric.points.drop_last() =~= histogram.metric.points);
}

/// A recording inside of a trace leaves an exemplar with the ids and the time of the trace and
/// the recorded value; one outside of any trace leaves none.
pub proof fn lemma_exemplar_of_recording(context: Option<TraceContext>, value: ExemplarValue)
    ensures
        context is None ==> model::captured(context, value) is None,
        context matches Some(c) && (forall|i: int| 0 <= i < 16 ==> #[trigger] c.trace_id@[i] == 0)
            ==> model::captured(context, value) is None,
        context matches Some(c) && (exists|i: int| 0 <= i < 16 && #[trigger] c.trace_id@[i] != 0)
            ==> {
            &&& model::captured(context, value) matches Some(exemplar)
            &&& exemplar.trace_id == context->0.trace_id
            &&& exemplar.span_id == context->0.span_id
            &&& exemplar.time_unix_nano == context->0.time_unix_nano
            &&& exemplar.value == value
        },
{
    if let Some(c) = context {
        let zeros = Seq::new(16, |i: int| 0u8);
        if forall|i: int| 0 <= i < 16 ==> #[trigger] c.trace_id@[i] == 0 {
            assert(c.trace_id@ =~= zeros);
        } else {
            let i = choose|i: int| 0 <= i < 16 && #[trigger] c.trace_id@[i] != 0;
            assert(zeros[i] == 0);
        }
    }
}

/// The exemplar of a recording is the one that the data point then has: the amount of a counter,
/// the value of a gauge or of a histogram, with the trace that it was recorded in.
pub proof fn lemma_recording_leaves_exemplar(
    counter: MetricModel<i64>,
    gauge: MetricModel<u64>,
    value: u64,
    pairs: Seq<Pair>,
    context: TraceContext,
    i: int,
    k: int,
)
    requires
        value <= i64::MAX,
        (value / 0x10_0000_0000_0000) % 2048 != 2047,
        context.trace_id@ != Seq::new(16, |i: int| 0u8),
        model::points_wf(counter.points, counter.max_cardinality),
        model::points_wf(gauge.points, gauge.max_cardinality),
        0 <= i < counter.points.len(),
        counter.points[i].attrs == attrs::canonical(pairs),
        0 <= k < gauge.points.len(),
        gauge.points[k].attrs == attrs::canonical(pairs),
    ensures
        model::counter_added(counter, value, pairs, Some(context)).points[i].exemplar == Some(
            Exemplar {
                trace_id: context.trace_id,
                span_id: context.span_id,
                time_unix_nano: context.time_unix_nano,
                value: ExemplarValue::Int(value as i64),
            },
        ),
        model::gauge_set(gauge, value, pairs, Some(context)).points[k].exemplar == Some(
            Exemplar {
                trace_id: context.trace_id,
                span_id: context.span_id,
                time_unix_nano: context.time_unix_nano,
                value: ExemplarValue::Double(value),
            },
        ),
{
    lemma_slot_at(counter.points, counter.max_cardinality, pairs, i);
    lemma_slot_at(gauge.points, gauge.max_cardinality, pairs, k);
}

/// A collection takes the exemplars and nothing else: every metric keeps its name, description
/// and limit, and every data point its attributes and its value.
pub proof fn lemma_collection_takes_exemplars_only<T>(metric: MetricModel<T>)
    ensures
        ({
            let after = model::cleared(metric);
            &&& same_metric(metric, after)
            &&& after.overflow_warned == metric.overflow_warned
            &&& after.points.len() == metric.points.len()
            &&& forall|i: int| #![trigger after.points[i]]
                0 <= i < metric.points.len() ==> {
                    &&& after.points[i].attrs == metric.points[i].attrs
                    &&& after.points[i].value == metric.points[i].value
                    &&& after.points[i].exemplar is None
                }
        }),
{
}

/// A collection keeps every metric of the registry and its limit, and leaves no news.
pub proof fn lemma_collection_keeps_registry(registry: RegistryModel)
    ensures
        ({
            let after = model::registry_cleared(registry);
            &&& !after.fresh
            &&& after.default_max_cardinality == registry.default_max_cardinality
            &&& after.counters.len() == registry.counters.len()
            &&& after.gauges.len() == registry.gauges.len()
            &&& after.histograms.len() == registry.histograms.len()
            &&& forall|i: int| #![trigger after.counters[i]]
                0 <= i < registry.counters.len() ==> after.counters[i] == model::cleared(
                    registry.counters[i],
                )
            &&& forall|i: int| #![trigger after.gauges[i]]
                0 <= i < registry.gauges.len() ==> after.gauges[i] == model::cleared(
                    registry.gauges[i],
                )
            &&& forall|i: int| #![trigger after.histograms[i]]
                0 <= i < registry.histograms.len() ==> {
                    &&& after.histograms[i].metric == model::cleared(registry.histograms[i].metric)
                    &&& after.histograms[i].boundaries == registry.histograms[i].boundaries
                }
        }),
{
}

/// What a collection gives out: the counters that have data points, then the gauges, then the
/// histograms, each once, in the order of their registration and with all their data points.
pub proof fn lemma_collection_gives_everything_out(registry: RegistryModel)
    ensures
        model::registry_snapshots(registry) == registry.counters.filter(
            |m: MetricModel<i64>| m.points.len() > 0,
        ).map_values(
            |m: MetricModel<i64>|
                SnapshotModel::Counter {
                    name: m.name,
                    description: m.description,
                    counts: m.points,
                },
        ) + registry.gauges.filter(|m: MetricModel<u64>| m.points.len() > 0).map_values(
            |m: MetricModel<u64>|
                SnapshotModel::Gauge {
                    name: m.name,
                    description: m.description,
                    values: m.points,
                },
        ) + registry.histograms.filter(
            |h: HistogramModel| h.metric.points.len() > 0,
        ).map_values(
            |h: HistogramModel|
                SnapshotModel::Histogram {
                    name: h.metric.name,
                    description: h.metric.description,
                    boundaries: h.boundaries,
                    distributions: h.metric.points,
                },
        ),
{
    lemma_counters_given_out(registry.counters);
    lemma_gauges_given_out(registry.gauges);
    lemma_histograms_given_out(registry.histograms);
}

proof fn lemma_counters_given_out(counters: Seq<MetricModel<i64>>)
    ensures
        model::counter_snapshots(counters) == counters.filter(
            |m: MetricModel<i64>| m.points.len() > 0,
        ).map_values(
            |m: MetricModel<i64>|
                SnapshotModel::Counter {
                    name: m.name,
                    description: m.description,
                    counts: m.points,
                },
        ),
    decreases counters.len(),
{
    reveal(Seq::filter);
    let given = counters.filter(|m: MetricModel<i64>| m.points.len() > 0).map_values(
        |m: MetricModel<i64>|
            SnapshotModel::Counter {
                name: m.name,
                description: m.description,
                counts: m.points,
            },
    );
    if counters.len() > 0 {
        lemma_counters_given_out(counters.drop_last());
    }
    assert(model::counter_snapshots(counters) =~= given);
}

proof fn lemma_gauges_given_out(gauges: Seq<MetricModel<u64>>)
    ensures
        model::gauge_snapshots(gauges) == gauges.filter(
            |m: MetricModel<u64>| m.points.len() > 0,
        ).map_values(
            |m: MetricModel<u64>|
                SnapshotModel::Gauge {
                    name: m.name,
                    description: m.description,
                    values: m.points,
                },
        ),
    decreases gauges.len(),
{
    reveal(Seq::filter);
    let given = gauges.filter(|m: MetricModel<u64>| m.points.len() > 0).map_values(
        |m: MetricModel<u64>|
            SnapshotModel::Gauge {
                name: m.name,
                description: m.description,
                values: m.points,
            },
    );
    if gauges.len() > 0 {
        lemma_gauges_given_out(gauges.drop_last());
    }
    assert(model::gauge_snapshots(gauges) =~= given);
}

proof fn lemma_histograms_given_out(histograms: Seq<HistogramModel>)
    ensures
        model::histogram_snapshots(histograms) == histograms.filter(
            |h: HistogramModel| h.metric.points.len() > 0,
        ).map_values(
            |h: HistogramModel|
                SnapshotModel::Histogram {
                    name: h.metric.name,
                    description: h.metric.description,
                    boundaries: h.boundaries,
                    distributions: h.metric.points,
                },
        ),
    decreases histograms.len(),
{
    reveal(Seq::filter);
    let given = histograms.filter(|h: HistogramModel| h.metric.points.len() > 0).map_values(
        |h: HistogramModel|
            SnapshotModel::Histogram {
                name: h.metric.name,
                description: h.metric.description,
                boundaries: h.boundaries,
                distributions: h.metric.points,
            },
    );
    if histograms.len() > 0 {
        lemma_histograms_given_out(histograms.drop_last());
    }
    assert(model::histogram_snapshots(histograms) =~= given);
}

/// An observed value that is recorded counts in its bucket: the one above every boundary that it
/// reaches and below every other. The new sum is what `plus` makes of the old one and the value.
pub proof fn lemma_observed_value_counts<F: Fn(u64, u64) -> u64>(
    before: HistogramModel,
    after: HistogramModel,
    value: u64,
    pairs: Seq<Pair>,
    context: Option<TraceContext>,
    plus: F,
    i: int,
    bucket: int,
)
    requires
        model::observed_with(before, after, value, pairs, context, plus),
        (value / 0x10_0000_0000_0000) % 2048 != 2047,
        model::histogram_wf(before),
        0 <= i < before.metric.points.len(),
        before.metric.points[i].attrs == attrs::canonical(pairs),
        before.metric.points[i].value.count < u64::MAX,
        0 <= bucket <= before.boundaries.len(),
        forall|k: int|
            0 <= k < bucket ==> double::place(#[trigger] before.boundaries[k]) <= double::place(
                value,
            ),
        forall|k: int|
            bucket <= k < before.boundaries.len() ==> double::place(#[trigger] before.boundaries[k])
                > double::place(value),
    ensures
        ({
            let old = before.metric.points[i].value;
            let new = after.metric.points[i].value;
            &&& after.boundaries == before.boundaries
            &&& after.metric.points.len() == before.metric.points.len()
            &&& after.metric.points[i].attrs == before.metric.points[i].attrs
            &&& new.count == old.count + 1
            &&& new.bucket_counts[bucket] == old.bucket_counts[bucket] + 1
            &&& forall|k: int|
                0 <= k < old.bucket_counts.len() && k != bucket ==> #[trigger] new.bucket_counts[k]
                    == old.bucket_counts[k]
            &&& call_ensures(plus, (old.sum, value), new.sum)
            &&& forall|k: int|
                0 <= k < before.metric.points.len() && k != i ==> #[trigger] after.metric.points[k]
                    == before.metric.points[k]
        }),
{
    lemma_slot_at(before.metric.points, before.metric.max_cardinality, pairs, i);
    let (found, sum) = choose|found: int, sum: u64|
        {
            &&& double::is_bucket(before.boundaries, value, found)
            &&& model::value_at(before.metric, pairs) is Some ==> double::finite(value)
                ==> call_ensures(plus, (model::value_at(before.metric, pairs)->0.sum, value), sum)
            &&& after == #[trigger] model::histogram_observed(
                before,
                value,
                pairs,
                context,
                found,
                sum,
            )
        };
    assert(double::is_bucket(before.boundaries, value, bucket));
    double::lemma_bucket_unique(before.boundaries, value, found, bucket);
    lemma_histogram_takes_value(before, value, pairs, context, bucket, sum, i);
}

/// The first observed value of an attribute set counts in its bucket and makes the sum.
pub proof fn lemma_first_observed_value_counts<F: Fn(u64, u64) -> u64>(
    before: HistogramModel,
    after: HistogramModel,
    value: u64,
    pairs: Seq<Pair>,
    context: Option<TraceContext>,
    plus: F,
    bucket: int,
)
    requires
        model::observed_with(before, after, value, pairs, context, plus),
        (value / 0x10_0000_0000_0000) % 2048 != 2047,
        before.metric.points.len() < before.metric.max_cardinality,
        forall|i: int|
            0 <= i < before.metric.points.len() ==> attrs::attrs_hash(
                (#[trigger] before.metric.points[i]).attrs,
            ) != attrs::attrs_hash(pairs),
        0 <= bucket <= before.boundaries.len(),
        forall|k: int|
            0 <= k < bucket ==> double::place(#[trigger] before.boundaries[k]) <= double::place(
                value,
            ),
        forall|k: int|
            bucket <= k < before.boundaries.len() ==> double::place(#[trigger] before.boundaries[k])
                > double::place(value),
    ensures
        ({
            let new = after.metric.points.last().value;
            &&& after.boundaries == before.boundaries
            &&& after.metric.points.len() == before.metric.points.len() + 1
            &&& after.metric.points.drop_last() == before.metric.points
            &&& after.metric.points.last().attrs == attrs::canonical(pairs)
            &&& new.count == 1
            &&& new.sum == value
            &&& new.min == value
            &&& new.max == value
            &&& new.bucket_counts.len() == before.boundaries.len() + 1
            &&& new.bucket_counts[bucket] == 1
            &&& forall|k: int|
                0 <= k <= before.boundaries.len() && k != bucket ==> #[trigger] new.bucket_counts[k]
                    == 0
        }),
{
    let (found, sum) = choose|found: int, sum: u64|
        {
            &&& double::is_bucket(before.boundaries, value, found)
            &&& model::value_at(before.metric, pairs) is Some ==> double::finite(value)
                ==> call_ensures(plus, (model::value_at(before.metric, pairs)->0.sum, value), sum)
            &&& after == #[trigger] model::histogram_observed(
                before,
                value,
                pairs,
                context,
                found,
                sum,
            )
        };
    assert(double::is_bucket(before.boundaries, value, bucket));
    double::lemma_bucket_unique(before.boundaries, value, found, bucket);
    lemma_histogram_starts_at_value(before, value, pairs, context, bucket, sum);
}

/// Registering gives the metric with the name. One that is not there yet is made, behind the
/// others of its kind, with the description and the limit and without data points; all others
/// stay as they are.
pub proof fn lemma_registering_counter(
    before: RegistryModel,
    after: RegistryModel,
    counter: Counter,
    name: Seq<char>,
    description: Seq<char>,
    max_cardinality: usize,
)
    requires
        model::counter_registered(before, after, counter, name, description, max_cardinality),
    ensures
        ({
            let known = exists|i: int|
                0 <= i < before.counters.len() && (#[trigger] before.counters[i]).name == name;
            &&& 0 <= counter.id() < after.counters.len()
            &&& after.counters[counter.id()].name == name
            &&& known ==> after == before
            &&& !known ==> {
                let new = after.counters[counter.id()];
                &&& after.counters.len() == before.counters.len() + 1
                &&& after.counters.drop_last() == before.counters
                &&& after.counters.last() == new
                &&& new.description == description
                &&& new.max_cardinality == max_cardinality
                &&& new.points.len() == 0
                &&& !new.overflow_warned
                &&& after.gauges == before.gauges
                &&& after.histograms == before.histograms
                &&& after.default_max_cardinality == before.default_max_cardinality
                &&& after.fresh == before.fresh
            }
        }),
{
    counter.lemma_id();
    let names = before.counter_names();
    assert forall|i: int| 0 <= i < names.len() implies #[trigger] names[i]
        == before.counters[i].name by {}
    if exists|i: int|
        0 <= i < before.counters.len() && (#[trigger] before.counters[i]).name == name {
        let i = choose|i: int|
            0 <= i < before.counters.len() && (#[trigger] before.counters[i]).name == name;
        assert(names[i] == name);
    } else {
        if let Some(k) = model::position(names, name) {
            assert(names[k] == before.counters[k].name);
        }
        assert(after.counters.drop_last() =~= before.counters);
    }
}

/// Registering gives the gauge with the name, and makes it where it is not there yet.
pub proof fn lemma_registering_gauge(
    before: RegistryModel,
    after: RegistryModel,
    gauge: Gauge,
    name: Seq<char>,
    description: Seq<char>,
    max_cardinality: usize,
)
    requires
        model::gauge_registered(before, after, gauge, name, description, max_cardinality),
    ensures
        ({
            let known = exists|i: int|
                0 <= i < before.gauges.len() && (#[trigger] before.gauges[i]).name == name;
            &&& 0 <= gauge.id() < after.gauges.len()
            &&& after.gauges[gauge.id()].name == name
            &&& known ==> after == before
            &&& !known ==> {
                let new = after.gauges[gauge.id()];
                &&& after.gauges.len() == before.gauges.len() + 1
                &&& after.gauges.drop_last() == before.gauges
                &&& after.gauges.last() == new
                &&& new.description == description
                &&& new.max_cardinality == max_cardinality
                &&& new.points.len() == 0
                &&& !new.overflow_warned
                &&& after.counters == before.counters
                &&& after.histograms == before.histograms
                &&& after.default_max_cardinality == before.default_max_cardinality
                &&& after.fresh == before.fresh
            }
        }),
{
    gauge.lemma_id();
    let names = before.gauge_names();
    assert forall|i: int| 0 <= i < names.len() implies #[trigger] names[i]
        == before.gauges[i].name by {}
    if exists|i: int| 0 <= i < before.gauges.len() && (#[trigger] before.gauges[i]).name == name {
        let i = choose|i: int|
            0 <= i < before.gauges.len() && (#[trigger] before.gauges[i]).name == name;
        assert(names[i] == name);
    } else {
        if let Some(k) = model::position(names, name) {
            assert(names[k] == before.gauges[k].name);
        }
        assert(after.gauges.drop_last() =~= before.gauges);
    }
}

/// Registering gives the histogram with the name, and makes it where it is not there yet, with
/// the finite boundaries that were given in ascending order.
pub proof fn lemma_registering_histogram(
    before: RegistryModel,
    after: RegistryModel,
    histogram: Histogram,
    name: Seq<char>,
    description: Seq<char>,
    boundaries: Seq<u64>,
    max_cardinality: usize,
)
    requires
        model::histogram_registered(
            before,
            after,
            histogram,
            name,
            description,
            boundaries,
            max_cardinality,
        ),
    ensures
        ({
            let known = exists|i: int|
                0 <= i < before.histograms.len() && (
                #[trigger] before.histograms[i]).metric.name == name;
            &&& 0 <= histogram.id() < after.histograms.len()
            &&& after.histograms[histogram.id()].metric.name == name
            &&& known ==> after == before
            &&& !known ==> {
                let new = after.histograms[histogram.id()];
                &&& after.histograms.len() == before.histograms.len() + 1
                &&& after.histograms.drop_last() == before.histograms
                &&& after.histograms.last() == new
                &&& double::sorted_distinct(boundaries, new.boundaries)
                &&& new.metric.description == description
                &&& new.metric.max_cardinality == max_cardinality
                &&& new.metric.points.len() == 0
                &&& !new.metric.overflow_warned
                &&& after.counters == before.counters
                &&& after.gauges == before.gauges
                &&& after.default_max_cardinality == before.default_max_cardinality
                &&& after.fresh == before.fresh
            }
        }),
{
    histogram.lemma_id();
    let names = before.histogram_names();
    assert forall|i: int| 0 <= i < names.len() implies #[trigger] names[i]
        == before.histograms[i].metric.name by {}
    if exists|i: int|
        0 <= i < before.histograms.len() && (#[trigger] before.histograms[i]).metric.name == name {
        let i = choose|i: int|
            0 <= i < before.histograms.len() && (#[trigger] before.histograms[i]).metric.name
                == name;
        assert(names[i] == name);
    } else {
        if let Some(k) = model::position(names, name) {
            assert(names[k] == before.histograms[k].metric.name);
        }
        assert(after.histograms.drop_last() =~= before.histograms);
    }
}

} // verus!
