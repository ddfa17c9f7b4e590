//! Counters, gauges and histograms, and the registry that holds them.
//!
//! The registry is plain state. A handle ([`Counter`], [`Gauge`], [`Histogram`])
//! names a metric of a registry; copies of a handle name the same metric.

use std::collections::HashMap;
use std::sync::Arc;
use vstd::prelude::*;

use crate::attrs;
use crate::attrs::{attrs_hash_unordered, attrs_match, owned_attrs, str_eq};
use crate::double;
use crate::double::{bucket_index, is_finite, order_place, sort_distinct};
use crate::metrics_model as model;
use crate::metrics_model::{
    HistogramModel, HistogramPoint, MetricModel, Point, RegistryModel, Slot, SnapshotModel,
};

verus! {

/// How many attribute sets a metric keeps, unless it is told otherwise.
pub const DEFAULT_MAX_CARDINALITY: usize = 2000;

/// The measured value attached to an exemplar. A double is held as its IEEE 754
/// bits.
#[derive(Clone, Copy, Debug, PartialEq, Eq, Structural)]
pub enum ExemplarValue {
    Int(i64),
    Double(u64),
}

/// An exemplar: links a metric data point to a trace.
#[derive(Clone, Copy, Debug)]
pub struct Exemplar {
    pub trace_id: [u8; 16],
    pub span_id: [u8; 8],
    pub time_unix_nano: u64,
    pub value: ExemplarValue,
}

/// The trace that is active when a value is recorded, and the time.
#[derive(Clone, Copy, Debug)]
pub struct TraceContext {
    pub trace_id: [u8; 16],
    pub span_id: [u8; 8],
    pub time_unix_nano: u64,
}

/// Sorted attribute pairs, shared between a metric and its snapshots.
pub type Attrs = Arc<Vec<(String, String)>>;

/// A counter data point: attributes, cumulative value, exemplar.
pub type CounterDataPoint = (Attrs, i64, Option<Exemplar>);

/// A gauge data point: attributes, IEEE 754 bits of the last value, exemplar.
pub type GaugeDataPoint = (Attrs, u64, Option<Exemplar>);

/// Snapshot of a single histogram data point. `sum`, `min` and `max` are IEEE 754
/// bits.
pub struct HistogramDataPoint {
    pub attrs: Attrs,
    pub bucket_counts: Vec<u64>,
    pub sum: u64,
    pub count: u64,
    pub min: u64,
    pub max: u64,
    pub exemplar: Option<Exemplar>,
}

/// A snapshot of a single metric for encoding. Histogram boundaries are IEEE 754
/// bits.
#[allow(inconsistent_fields)]
pub enum MetricSnapshot {
    Counter { name: String, description: String, data_points: Vec<CounterDataPoint> },
    Gauge { name: String, description: String, data_points: Vec<GaugeDataPoint> },
    Histogram {
        name: String,
        description: String,
        boundaries: Vec<u64>,
        data_points: Vec<HistogramDataPoint>,
    },
}

/// What a histogram keeps for one attribute set.
pub struct HistogramState {
    bucket_counts: Vec<u64>,
    sum: u64,
    count: u64,
    min: u64,
    max: u64,
}

impl View for HistogramState {
    type V = HistogramPoint;

    closed spec fn view(&self) -> HistogramPoint {
        HistogramPoint {
            bucket_counts: self.bucket_counts@,
            sum: self.sum,
            count: self.count,
            min: self.min,
            max: self.max,
        }
    }
}

/// The exemplar of a recording, if a trace is active.
pub fn capture_exemplar(context: &Option<TraceContext>, value: ExemplarValue) -> (exemplar: Option<
    Exemplar,
>)
    ensures
        exemplar == model::captured(*context, value),
{
    match context {
        Some(c) => {
            let mut i: usize = 0;
            while i < 16 && c.trace_id[i] == 0
                invariant
                    i <= 16,
                    forall|j: int| 0 <= j < i ==> c.trace_id@[j] == 0,
                decreases 16 - i,
            {
                i = i + 1;
            }
            if i == 16 {
                assert(c.trace_id@ =~= Seq::new(16, |i: int| 0u8));
                None
            } else {
                assert(c.trace_id@[i as int] != Seq::new(16, |i: int| 0u8)[i as int]);
                Some(
                    Exemplar {
                        trace_id: c.trace_id,
                        span_id: c.span_id,
                        time_unix_nano: c.time_unix_nano,
                        value,
                    },
                )
            }
        },
        None => None,
    }
}

/// A data point.
struct Entry<V> {
    attrs: Attrs,
    value: V,
    exemplar: Option<Exemplar>,
}

impl<V: View> View for Entry<V> {
    type V = Point<V::V>;

    closed spec fn view(&self) -> Point<V::V> {
        Point {
            attrs: attrs::stored_pairs(self.attrs@),
            value: self.value@,
            exemplar: self.exemplar,
        }
    }
}

/// A metric: its data points, and for each hash of an attribute set where its data
/// point is.
struct Metric<V> {
    name: String,
    description: String,
    max_cardinality: usize,
    overflow_warned: bool,
    index: HashMap<u64, usize>,
    entries: Vec<Entry<V>>,
}

impl<V: View> View for Metric<V> {
    type V = MetricModel<V::V>;

    closed spec fn view(&self) -> MetricModel<V::V> {
        MetricModel {
            name: self.name@,
            description: self.description@,
            max_cardinality: self.max_cardinality,
            overflow_warned: self.overflow_warned,
            points: self.entries@.map_values(|e: Entry<V>| e@),
        }
    }
}

/// Where a data point is, and what is there.
enum Place {
    At(usize),
    Taken,
    Full,
    New,
}

impl<V: View> Metric<V> {
    spec fn wf(self) -> bool {
        &&& model::points_wf(self@.points, self.max_cardinality)
        &&& forall|i: int|
            0 <= i < self.entries@.len() ==> self.index@.contains_pair(
                attrs::attrs_hash(#[trigger] self@.points[i].attrs),
                i as usize,
            )
        &&& forall|h: u64| #[trigger]
            self.index@.contains_key(h) ==> self.index@[h] < self.entries@.len()
                && attrs::attrs_hash(self@.points[self.index@[h] as int].attrs) == h
    }

    fn new(name: &str, description: &str, max_cardinality: usize) -> (metric: Self)
        ensures
            metric.wf(),
            metric@ == (MetricModel::<V::V> {
                name: name@,
                description: description@,
                max_cardinality,
                overflow_warned: false,
                points: Seq::empty(),
            }),
    {
        let metric = Metric {
            name: name.to_owned(),
            description: description.to_owned(),
            max_cardinality,
            overflow_warned: false,
            index: HashMap::new(),
            entries: Vec::new(),
        };
        assert(metric@.points =~= Seq::<Point<V::V>>::empty());
        metric
    }

    /// Finds where an attribute set belongs.
    fn place(&self, hash: u64, attrs: &[(&str, &str)]) -> (place: Place)
        requires
            self.wf(),
            hash == attrs::attrs_hash(attrs::pairs(attrs@)),
        ensures
            match place {
                Place::At(i) => model::slot(
                    self@.points,
                    self.max_cardinality,
                    attrs::pairs(attrs@),
                )
                    == Slot::At(i as int) && i < self.entries@.len(),
                Place::Taken => model::slot(
                    self@.points,
                    self.max_cardinality,
                    attrs::pairs(attrs@),
                )
                    == Slot::Taken,
                Place::Full => model::slot(self@.points, self.max_cardinality, attrs::pairs(attrs@))
                    == Slot::Full,
                Place::New => model::slot(self@.points, self.max_cardinality, attrs::pairs(attrs@))
                    == Slot::New,
            },
    {
        let ghost pairs = attrs::pairs(attrs@);
        match self.index.get(&hash) {
            Some(at) => {
                let i: usize = *at;
                assert(self.index@.contains_key(hash));
                proof {
                    let points = self@.points;
                    assert(attrs::attrs_hash(points[i as int].attrs) == attrs::attrs_hash(pairs));
                    let k = choose|k: int|
                        0 <= k < points.len() && attrs::attrs_hash(#[trigger] points[k].attrs)
                            == attrs::attrs_hash(pairs);
                    assert(k == i) by {
                        if k < i {
                            assert(attrs::attrs_hash(points[k].attrs) != attrs::attrs_hash(
                                points[i as int].attrs,
                            ));
                        } else if i < k {
                            assert(attrs::attrs_hash(points[i as int].attrs) != attrs::attrs_hash(
                                points[k].attrs,
                            ));
                        }
                    }
                    attrs::lemma_canonical_idempotent(pairs);
                    assert(attrs::canonical(points[i as int].attrs) == points[i as int].attrs);
                    assert(points[i as int].attrs == attrs::stored_pairs(
                        self.entries@[i as int].attrs@,
                    ));
                }
                if attrs_match(&self.entries[i].attrs, attrs) {
                    Place::At(i)
                } else {
                    Place::Taken
                }
            },
            None => {
                assert(!self.index@.contains_key(hash));
                if self.entries.len() >= self.max_cardinality {
                    Place::Full
                } else {
                    Place::New
                }
            },
        }
    }

    /// Adds a data point for a new attribute set.
    fn insert(
        &mut self,
        hash: u64,
        attrs: &[(&str, &str)],
        value: V,
        exemplar: Option<Exemplar>,
    )
        requires
            old(self).wf(),
            hash == attrs::attrs_hash(attrs::pairs(attrs@)),
            model::slot(old(self)@.points, old(self).max_cardinality, attrs::pairs(attrs@)) == Slot::New,
        ensures
            final(self).wf(),
            final(self)@ == (MetricModel {
                points: old(self)@.points.push(
                    Point {
                        attrs: attrs::canonical(attrs::pairs(attrs@)),
                        value: value@,
                        exemplar,
                    },
                ),
                ..old(self)@
            }),
    {
        let ghost pairs = attrs::pairs(attrs@);
        let ghost before = *self;
        let at: usize = self.entries.len();
        self.entries.push(Entry { attrs: owned_attrs(attrs), value, exemplar });
        self.index.insert(hash, at);
        proof {
            attrs::lemma_canonical_idempotent(pairs);
            attrs::lemma_canonical_hash(pairs);
            let point = Point { attrs: attrs::canonical(pairs), value: value@, exemplar };
            assert(self@.points =~= before@.points.push(point));
            assert forall|i: int| 0 <= i < self.entries@.len() implies self.index@.contains_pair(
                attrs::attrs_hash(#[trigger] self@.points[i].attrs),
                i as usize,
            ) by {
                if i < before.entries@.len() {
                    assert(self@.points[i] == before@.points[i]);
                    assert(attrs::attrs_hash(before@.points[i].attrs) != hash);
                    assert(before.index@.contains_pair(
                        attrs::attrs_hash(before@.points[i].attrs),
                        i as usize,
                    ));
                }
            }
            assert forall|h: u64| #[trigger] self.index@.contains_key(h) implies self.index@[h]
                < self.entries@.len() && attrs::attrs_hash(
                self@.points[self.index@[h] as int].attrs,
            ) == h by {
                if h != hash {
                    assert(before.index@.contains_key(h));
                    let i = before.index@[h] as int;
                    assert(self@.points[i] == before@.points[i]);
                }
            }
        }
    }

    /// Replaces the value and, if there is a new one, the exemplar of a data point.
    fn replace(&mut self, i: usize, value: V, exemplar: Option<Exemplar>)
        requires
            old(self).wf(),
            i < old(self)@.points.len(),
        ensures
            final(self).wf(),
            final(self)@ == (MetricModel {
                points: old(self)@.points.update(
                    i as int,
                    Point {
                        attrs: old(self)@.points[i as int].attrs,
                        value: value@,
                        exemplar: model::next_exemplar(
                            old(self)@.points[i as int].exemplar,
                            exemplar,
                        ),
                    },
                ),
                ..old(self)@
            }),
    {
        let ghost before = *self;
        self.entries[i].value = value;
        if exemplar.is_some() {
            self.entries[i].exemplar = exemplar;
        }
        proof {
            assert(self.entries@ =~= before.entries@.update(i as int, self.entries@[i as int]));
            self.lemma_entry_changed(before, i as int);
        }
    }
}

/// A histogram.
struct HistogramInner {
    boundaries: Vec<u64>,
    metric: Metric<HistogramState>,
}

impl View for HistogramInner {
    type V = HistogramModel;

    closed spec fn view(&self) -> HistogramModel {
        HistogramModel { metric: self.metric@, boundaries: self.boundaries@ }
    }
}

impl HistogramInner {
    spec fn wf(self) -> bool {
        &&& self.metric.wf()
        &&& model::histogram_wf(self@)
    }
}

/// Central registry holding all counters, gauges, and histograms.
pub struct MetricsRegistry {
    counters: Vec<Metric<i64>>,
    gauges: Vec<Metric<u64>>,
    histograms: Vec<HistogramInner>,
    default_max_cardinality: usize,
    fresh: bool,
}

impl View for MetricsRegistry {
    type V = RegistryModel;

    closed spec fn view(&self) -> RegistryModel {
        RegistryModel {
            counters: self.counters@.map_values(|m: Metric<i64>| m@),
            gauges: self.gauges@.map_values(|m: Metric<u64>| m@),
            histograms: self.histograms@.map_values(|h: HistogramInner| h@),
            default_max_cardinality: self.default_max_cardinality,
            fresh: self.fresh,
        }
    }
}

/// A monotonic counter of a registry.
#[derive(Clone, Copy, Debug, PartialEq, Eq, Structural)]
pub struct Counter {
    index: usize,
}

impl Counter {
    /// The position of the counter in its registry.
    pub closed spec fn id(self) -> int {
        self.index as int
    }

    /// The position of a counter is one that a list can have.
    pub proof fn lemma_id(self)
        ensures
            0 <= self.id() <= usize::MAX,
    {
    }
}

/// A last-value gauge of a registry.
#[derive(Clone, Copy, Debug, PartialEq, Eq, Structural)]
pub struct Gauge {
    index: usize,
}

impl Gauge {
    /// The position of the gauge in its registry.
    pub closed spec fn id(self) -> int {
        self.index as int
    }

    /// The position of a gauge is one that a list can have.
    pub proof fn lemma_id(self)
        ensures
            0 <= self.id() <= usize::MAX,
    {
    }
}

/// A histogram of a registry.
#[derive(Clone, Copy, Debug, PartialEq, Eq, Structural)]
pub struct Histogram {
    index: usize,
}

impl Histogram {
    /// The position of the histogram in its registry.
    pub closed spec fn id(self) -> int {
        self.index as int
    }

    /// The position of a histogram is one that a list can have.
    pub proof fn lemma_id(self)
        ensures
            0 <= self.id() <= usize::MAX,
    {
    }
}

/// The kinds of metrics.
#[derive(Clone, Copy, Debug, PartialEq, Eq, Structural)]
pub enum InstrumentKind {
    Counter,
    Gauge,
    Histogram,
}

impl Default for MetricsRegistry {
    /// A registry with the default limit.
    fn default() -> (registry: Self)
        ensures
            registry.wf(),
            registry@ == RegistryModel::empty(2000),
    {
        MetricsRegistry::new()
    }
}

impl MetricsRegistry {
    /// The registry is well-formed.
    pub closed spec fn wf(self) -> bool {
        &&& self@.wf()
        &&& forall|i: int| 0 <= i < self.counters@.len() ==> (#[trigger] self.counters@[i]).wf()
        &&& forall|i: int| 0 <= i < self.gauges@.len() ==> (#[trigger] self.gauges@[i]).wf()
        &&& forall|i: int| 0 <= i < self.histograms@.len() ==> (#[trigger] self.histograms@[i]).wf()
    }

    /// What the well-formedness of a registry says of its metrics.
    pub proof fn lemma_wf(self)
        requires
            self.wf(),
        ensures
            self@.wf(),
    {
    }

    /// A registry with the default limit of attribute sets per metric.
    pub fn new() -> (registry: Self)
        ensures
            registry.wf(),
            registry@ == RegistryModel::empty(2000),
    {
        MetricsRegistry::with_max_cardinality(DEFAULT_MAX_CARDINALITY)
    }

    /// A registry with a limit of its own for all metrics that get none.
    pub fn with_max_cardinality(max_cardinality: usize) -> (registry: Self)
        ensures
            registry.wf(),
            registry@ == RegistryModel::empty(max_cardinality),
    {
        let registry = MetricsRegistry {
            counters: Vec::new(),
            gauges: Vec::new(),
            histograms: Vec::new(),
            default_max_cardinality: max_cardinality,
            fresh: false,
        };
        assert(registry@.counters =~= Seq::<MetricModel<i64>>::empty());
        assert(registry@.gauges =~= Seq::<MetricModel<u64>>::empty());
        assert(registry@.histograms =~= Seq::<HistogramModel>::empty());
        registry
    }

    /// The counter with this name, if there is one.
    fn find_counter(&self, name: &str) -> (found: Option<usize>)
        requires
            self.wf(),
        ensures
            match found {
                Some(i) => i < self@.counters.len() && model::position(self@.counter_names(), name@)
                    == Some(i as int),
                None => model::position(self@.counter_names(), name@) is None,
            },
    {
        let ghost names = self@.counter_names();
        let mut i: usize = 0;
        while i < self.counters.len()
            invariant
                i <= self.counters.len(),
                names == self@.counter_names(),
                names.len() == self.counters@.len(),
                model::distinct(names),
                forall|k: int| 0 <= k < i ==> #[trigger] names[k] != name@,
            decreases self.counters.len() - i,
        {
            assert(names[i as int] == self.counters@[i as int].name@);
            if str_eq(&self.counters[i].name, name) {
                proof {
                    model::lemma_position(names, name@, i as int);
                }
                return Some(i);
            }
            i = i + 1;
        }
        None
    }

    /// The gauge with this name, if there is one.
    fn find_gauge(&self, name: &str) -> (found: Option<usize>)
        requires
            self.wf(),
        ensures
            match found {
                Some(i) => i < self@.gauges.len() && model::position(self@.gauge_names(), name@) == Some(
                    i as int,
                ),
                None => model::position(self@.gauge_names(), name@) is None,
            },
    {
        let ghost names = self@.gauge_names();
        let mut i: usize = 0;
        while i < self.gauges.len()
            invariant
                i <= self.gauges.len(),
                names == self@.gauge_names(),
                names.len() == self.gauges@.len(),
                model::distinct(names),
                forall|k: int| 0 <= k < i ==> #[trigger] names[k] != name@,
            decreases self.gauges.len() - i,
        {
            assert(names[i as int] == self.gauges@[i as int].name@);
            if str_eq(&self.gauges[i].name, name) {
                proof {
                    model::lemma_position(names, name@, i as int);
                }
                return Some(i);
            }
            i = i + 1;
        }
        None
    }

    /// The histogram with this name, if there is one.
    fn find_histogram(&self, name: &str) -> (found: Option<usize>)
        requires
            self.wf(),
        ensures
            match found {
                Some(i) => i < self@.histograms.len() && model::position(
                    self@.histogram_names(),
                    name@,
                )
                    == Some(i as int),
                None => model::position(self@.histogram_names(), name@) is None,
            },
    {
        let ghost names = self@.histogram_names();
        let mut i: usize = 0;
        while i < self.histograms.len()
            invariant
                i <= self.histograms.len(),
                names == self@.histogram_names(),
                names.len() == self.histograms@.len(),
                model::distinct(names),
                forall|k: int| 0 <= k < i ==> #[trigger] names[k] != name@,
            decreases self.histograms.len() - i,
        {
            assert(names[i as int] == self.histograms@[i as int].metric.name@);
            if str_eq(&self.histograms[i].metric.name, name) {
                proof {
                    model::lemma_position(names, name@, i as int);
                }
                return Some(i);
            }
            i = i + 1;
        }
        None
    }

    /// Whether to warn that a name asked for as one kind of metric is already that of a
    /// metric of another kind.
    pub fn warn_cross_type_conflict(&self, name: &str, kind: InstrumentKind) -> (conflict: bool)
        requires
            self.wf(),
        ensures
            conflict == {
                let counter = model::position(self@.counter_names(), name@) is Some;
                let gauge = model::position(self@.gauge_names(), name@) is Some;
                let histogram = model::position(self@.histogram_names(), name@) is Some;
                match kind {
                    InstrumentKind::Counter => gauge || histogram,
                    InstrumentKind::Gauge => counter || histogram,
                    InstrumentKind::Histogram => counter || gauge,
                }
            },
    {
        let in_counters: bool = self.find_counter(name).is_some();
        let in_gauges: bool = self.find_gauge(name).is_some();
        let in_histograms: bool = self.find_histogram(name).is_some();
        match kind {
            InstrumentKind::Counter => in_gauges || in_histograms,
            InstrumentKind::Gauge => in_counters || in_histograms,
            InstrumentKind::Histogram => in_counters || in_gauges,
        }
    }

    /// Whether to warn that a counter with this name is there already, with another
    /// description or another limit.
    pub fn warn_counter_metadata(
        &self,
        name: &str,
        description: &str,
        max_cardinality: usize,
    ) -> (differs: bool)
        requires
            self.wf(),
        ensures
            differs == match model::position(self@.counter_names(), name@) {
                Some(i) => self@.counters[i].description != description@
                    || self@.counters[i].max_cardinality != max_cardinality,
                None => false,
            },
    {
        match self.find_counter(name) {
            Some(i) => {
                assert(self@.counters[i as int] == self.counters@[i as int]@);
                !str_eq(&self.counters[i].description, description)
                    || self.counters[i].max_cardinality != max_cardinality
            },
            None => false,
        }
    }

    /// Whether to warn that a gauge with this name is there already, with another
    /// description or another limit.
    pub fn warn_gauge_metadata(
        &self,
        name: &str,
        description: &str,
        max_cardinality: usize,
    ) -> (differs: bool)
        requires
            self.wf(),
        ensures
            differs == match model::position(self@.gauge_names(), name@) {
                Some(i) => self@.gauges[i].description != description@
                    || self@.gauges[i].max_cardinality != max_cardinality,
                None => false,
            },
    {
        match self.find_gauge(name) {
            Some(i) => {
                assert(self@.gauges[i as int] == self.gauges@[i as int]@);
                !str_eq(&self.gauges[i].description, description)
                    || self.gauges[i].max_cardinality != max_cardinality
            },
            None => false,
        }
    }

    /// Whether to warn that a histogram with this name is there already, with another
    /// number of boundaries.
    pub fn warn_histogram_boundaries(&self, name: &str, boundaries: &[u64]) -> (differs: bool)
        requires
            self.wf(),
        ensures
            differs == match model::position(self@.histogram_names(), name@) {
                Some(i) => self@.histograms[i].boundaries.len() != boundaries@.len(),
                None => false,
            },
    {
        match self.find_histogram(name) {
            Some(i) => {
                assert(self@.histograms[i as int] == self.histograms@[i as int]@);
                self.histograms[i].boundaries.len() != boundaries.len()
            },
            None => false,
        }
    }

    /// The limit of attribute sets for metrics that get none of their own.
    pub fn default_max_cardinality(&self) -> (max_cardinality: usize)
        ensures
            max_cardinality == self@.default_max_cardinality,
    {
        self.default_max_cardinality
    }

    /// Get or create a counter by name.
    pub fn counter(&mut self, name: &str, description: &str) -> (counter: Counter)
        requires
            old(self).wf(),
        ensures
            final(self).wf(),
            model::counter_registered(
                old(self)@,
                final(self)@,
                counter,
                name@,
                description@,
                old(self)@.default_max_cardinality,
            ),
    {
        let max_cardinality: usize = self.default_max_cardinality;
        self.counter_with_max_cardinality(name, description, max_cardinality)
    }

    /// Get or create a counter by name with a limit of attribute sets of its own. The
    /// first registration of a name holds: later ones get the same counter.
    pub fn counter_with_max_cardinality(
        &mut self,
        name: &str,
        description: &str,
        max_cardinality: usize,
    ) -> (counter: Counter)
        requires
            old(self).wf(),
        ensures
            final(self).wf(),
            model::counter_registered(
                old(self)@,
                final(self)@,
                counter,
                name@,
                description@,
                max_cardinality,
            ),
    {
        match self.find_counter(name) {
            Some(index) => Counter { index },
            None => {
                let ghost before = *self;
                let index: usize = self.counters.len();
                self.counters.push(Metric::new(name, description, max_cardinality));
                proof {
                    let fresh = model::fresh_metric::<i64>(name@, description@, max_cardinality);
                    assert(self@.counters =~= before@.counters.push(fresh));
                    assert(self@.gauges =~= before@.gauges);
                    assert(self@.histograms =~= before@.histograms);
                    assert(self@.counter_names() =~= before@.counter_names().push(name@));
                    assert(self@.gauge_names() =~= before@.gauge_names());
                    assert(self@.histogram_names() =~= before@.histogram_names());
                    lemma_push_distinct(before@.counter_names(), name@);
                }
                Counter { index }
            },
        }
    }

    /// Get or create a gauge by name.
    pub fn gauge(&mut self, name: &str, description: &str) -> (gauge: Gauge)
        requires
            old(self).wf(),
        ensures
            final(self).wf(),
            model::gauge_registered(
                old(self)@,
                final(self)@,
                gauge,
                name@,
                description@,
                old(self)@.default_max_cardinality,
            ),
    {
        let max_cardinality: usize = self.default_max_cardinality;
        self.gauge_with_max_cardinality(name, description, max_cardinality)
    }

    /// Get or create a gauge by name with a limit of attribute sets of its own. The
    /// first registration of a name holds: later ones get the same gauge.
    pub fn gauge_with_max_cardinality(
        &mut self,
        name: &str,
        description: &str,
        max_cardinality: usize,
    ) -> (gauge: Gauge)
        requires
            old(self).wf(),
        ensures
            final(self).wf(),
            model::gauge_registered(
                old(self)@,
                final(self)@,
                gauge,
                name@,
                description@,
                max_cardinality,
            ),
    {
        match self.find_gauge(name) {
            Some(index) => Gauge { index },
            None => {
                let ghost before = *self;
                let index: usize = self.gauges.len();
                self.gauges.push(Metric::new(name, description, max_cardinality));
                proof {
                    let fresh = model::fresh_metric::<u64>(name@, description@, max_cardinality);
                    assert(self@.gauges =~= before@.gauges.push(fresh));
                    assert(self@.counters =~= before@.counters);
                    assert(self@.histograms =~= before@.histograms);
                    assert(self@.gauge_names() =~= before@.gauge_names().push(name@));
                    assert(self@.counter_names() =~= before@.counter_names());
                    assert(self@.histogram_names() =~= before@.histogram_names());
                    lemma_push_distinct(before@.gauge_names(), name@);
                }
                Gauge { index }
            },
        }
    }

    /// Get or create a histogram by name. Boundaries are sorted and deduplicated when
    /// it is created, and those that are not finite are left out.
    pub fn histogram(
        &mut self,
        name: &str,
        description: &str,
        boundaries: &[u64],
    ) -> (histogram: Histogram)
        requires
            old(self).wf(),
        ensures
            final(self).wf(),
            model::histogram_registered(
                old(self)@,
                final(self)@,
                histogram,
                name@,
                description@,
                boundaries@,
                old(self)@.default_max_cardinality,
            ),
    {
        let max_cardinality: usize = self.default_max_cardinality;
        self.histogram_with_max_cardinality(name, description, boundaries, max_cardinality)
    }

    /// Get or create a histogram by name with a limit of attribute sets of its own.
    /// The first registration of a name holds: later ones get the same histogram.
    pub fn histogram_with_max_cardinality(
        &mut self,
        name: &str,
        description: &str,
        boundaries: &[u64],
        max_cardinality: usize,
    ) -> (histogram: Histogram)
        requires
            old(self).wf(),
        ensures
            final(self).wf(),
            model::histogram_registered(
                old(self)@,
                final(self)@,
                histogram,
                name@,
                description@,
                boundaries@,
                max_cardinality,
            ),
    {
        match self.find_histogram(name) {
            Some(index) => Histogram { index },
            None => {
                let ghost before = *self;
                let index: usize = self.histograms.len();
                let sorted: Vec<u64> = sort_distinct(boundaries);
                self.histograms.push(
                    HistogramInner {
                        boundaries: sorted,
                        metric: Metric::new(name, description, max_cardinality),
                    },
                );
                proof {
                    let fresh = HistogramModel {
                        metric: model::fresh_metric(name@, description@, max_cardinality),
                        boundaries: sorted@,
                    };
                    assert(self@.histograms =~= before@.histograms.push(fresh));
                    assert(self@.counters =~= before@.counters);
                    assert(self@.gauges =~= before@.gauges);
                    assert(self@.histogram_names() =~= before@.histogram_names().push(name@));
                    assert(self@.counter_names() =~= before@.counter_names());
                    assert(self@.gauge_names() =~= before@.gauge_names());
                    lemma_push_distinct(before@.histogram_names(), name@);
                }
                Histogram { index }
            },
        }
    }
}

proof fn lemma_push_distinct(names: Seq<Seq<char>>, name: Seq<char>)
    requires
        model::distinct(names),
        model::position(names, name) is None,
    ensures
        model::distinct(names.push(name)),
{
}

/// What became of a recorded value.
#[derive(Clone, Copy, Debug, PartialEq, Eq, Structural)]
pub enum Outcome {
    /// It is in the metric.
    Recorded,
    /// It is not a finite number.
    NotFinite,
    /// Its attribute set has the hash of another one.
    HashCollision,
    /// Its attribute set is new and the metric is full. `first` tells that this is
    /// the first time.
    LimitReached { first: bool },
}

impl<V: View> Metric<V> {
    /// Records a value that replaces the old one.
    fn record(
        &mut self,
        attrs: &[(&str, &str)],
        place: Place,
        hash: u64,
        value: V,
        exemplar: Option<Exemplar>,
    ) -> (result: Outcome)
        requires
            old(self).wf(),
            hash == attrs::attrs_hash(attrs::pairs(attrs@)),
            match place {
                Place::At(i) => model::slot(
                    old(self)@.points,
                    old(self).max_cardinality,
                    attrs::pairs(attrs@),
                ) == Slot::At(i as int) && i < old(self)@.points.len(),
                Place::Taken => model::slot(
                    old(self)@.points,
                    old(self).max_cardinality,
                    attrs::pairs(attrs@),
                ) == Slot::Taken,
                Place::Full => model::slot(
                    old(self)@.points,
                    old(self).max_cardinality,
                    attrs::pairs(attrs@),
                ) == Slot::Full,
                Place::New => model::slot(
                    old(self)@.points,
                    old(self).max_cardinality,
                    attrs::pairs(attrs@),
                ) == Slot::New,
            },
        ensures
            final(self).wf(),
            final(self)@ == model::recorded(
                old(self)@,
                attrs::pairs(attrs@),
                value@,
                value@,
                exemplar,
            ),
            result == model::outcome(old(self)@, attrs::pairs(attrs@)),
    {
        match place {
            Place::At(i) => {
                self.replace(i, value, exemplar);
                Outcome::Recorded
            },
            Place::Taken => Outcome::HashCollision,
            Place::Full => {
                let first: bool = !self.overflow_warned;
                let ghost before = *self;
                self.overflow_warned = true;
                assert(self@.points =~= before@.points);
                Outcome::LimitReached { first }
            },
            Place::New => {
                self.insert(hash, attrs, value, exemplar);
                Outcome::Recorded
            },
        }
    }
}

impl Counter {
    /// Adds an amount for an attribute set. Amounts above the largest signed number
    /// count as that.
    pub fn add(
        &self,
        registry: &mut MetricsRegistry,
        value: u64,
        attrs: &[(&str, &str)],
        context: &Option<TraceContext>,
    ) -> (result: Outcome)
        requires
            old(registry).wf(),
            self.id() < old(registry)@.counters.len(),
        ensures
            final(registry).wf(),
            final(registry)@ == (RegistryModel {
                counters: old(registry)@.counters.update(
                    self.id(),
                    model::counter_added(
                        old(registry)@.counters[self.id()],
                        value,
                        attrs::pairs(attrs@),
                        *context,
                    ),
                ),
                fresh: old(registry)@.fresh || result == Outcome::Recorded,
                ..old(registry)@
            }),
            result == model::outcome(old(registry)@.counters[self.id()], attrs::pairs(attrs@)),
    {
        let amount: i64 = if value > i64::MAX as u64 {
            i64::MAX
        } else {
            value as i64
        };
        let exemplar: Option<Exemplar> = capture_exemplar(context, ExemplarValue::Int(amount));
        let hash: u64 = attrs_hash_unordered(attrs);
        let ghost before = *registry;
        let metric: &Metric<i64> = &registry.counters[self.index];
        let place: Place = metric.place(hash, attrs);
        let next: i64 = match place {
            Place::At(i) => {
                let current: i64 = metric.entries[i].value;
                assert(metric@.points[i as int].value == current);
                if current > i64::MAX - amount {
                    i64::MAX
                } else {
                    current + amount
                }
            },
            _ => amount,
        };
        assert(before@.counters[self.id()] == before.counters@[self.id()]@);
        let result: Outcome = registry.counters[self.index].record(
            attrs,
            place,
            hash,
            next,
            exemplar,
        );
        if result == Outcome::Recorded {
            registry.fresh = true;
        }
        proof {
            registry.lemma_counter_changed(before, self.id());
        }
        result
    }
}

impl MetricsRegistry {
    /// A registry stays well-formed when one counter changes and stays well-formed
    /// under its name.
    proof fn lemma_counter_changed(self, before: MetricsRegistry, i: int)
        requires
            before.wf(),
            0 <= i < before.counters@.len(),
            self.counters@ == before.counters@.update(i, self.counters@[i]),
            self.counters@[i].wf(),
            self.counters@[i]@.name == before.counters@[i]@.name,
            self.gauges == before.gauges,
            self.histograms == before.histograms,
            self.default_max_cardinality == before.default_max_cardinality,
        ensures
            self.wf(),
            self@ == (RegistryModel {
                counters: before@.counters.update(i, self.counters@[i]@),
                fresh: self.fresh,
                ..before@
            }),
    {
        assert(self@.counters =~= before@.counters.update(i, self.counters@[i]@));
        assert(self@.counter_names() =~= before@.counter_names());
        assert forall|k: int| #![trigger self@.counters[k]] 0 <= k
            < self@.counters.len() implies model::points_wf(
            self@.counters[k].points,
            self@.counters[k].max_cardinality,
        ) by {
            assert(self.counters@[k].wf());
        }
    }

    /// A registry stays well-formed when one gauge changes and stays well-formed under
    /// its name.
    proof fn lemma_gauge_changed(self, before: MetricsRegistry, i: int)
        requires
            before.wf(),
            0 <= i < before.gauges@.len(),
            self.gauges@ == before.gauges@.update(i, self.gauges@[i]),
            self.gauges@[i].wf(),
            self.gauges@[i]@.name == before.gauges@[i]@.name,
            self.counters == before.counters,
            self.histograms == before.histograms,
            self.default_max_cardinality == before.default_max_cardinality,
        ensures
            self.wf(),
            self@ == (RegistryModel {
                gauges: before@.gauges.update(i, self.gauges@[i]@),
                fresh: self.fresh,
                ..before@
            }),
    {
        assert(self@.gauges =~= before@.gauges.update(i, self.gauges@[i]@));
        assert(self@.gauge_names() =~= before@.gauge_names());
        assert forall|k: int| #![trigger self@.gauges[k]] 0 <= k
            < self@.gauges.len() implies model::points_wf(
            self@.gauges[k].points,
            self@.gauges[k].max_cardinality,
        ) by {
            assert(self.gauges@[k].wf());
        }
    }
}

impl Gauge {
    /// Sets the value for an attribute set. Values that are not finite are rejected.
    pub fn set(
        &self,
        registry: &mut MetricsRegistry,
        value: u64,
        attrs: &[(&str, &str)],
        context: &Option<TraceContext>,
    ) -> (result: Outcome)
        requires
            old(registry).wf(),
            self.id() < old(registry)@.gauges.len(),
        ensures
            final(registry).wf(),
            final(registry)@ == (RegistryModel {
                gauges: old(registry)@.gauges.update(
                    self.id(),
                    model::gauge_set(
                        old(registry)@.gauges[self.id()],
                        value,
                        attrs::pairs(attrs@),
                        *context,
                    ),
                ),
                fresh: old(registry)@.fresh || result == Outcome::Recorded,
                ..old(registry)@
            }),
            result == if double::finite(value) {
                model::outcome(old(registry)@.gauges[self.id()], attrs::pairs(attrs@))
            } else {
                Outcome::NotFinite
            },
    {
        let ghost before = *registry;
        assert(before@.gauges[self.id()] == before.gauges@[self.id()]@);
        if !is_finite(value) {
            assert(before@.gauges.update(self.id(), before@.gauges[self.id()]) =~= before@.gauges);
            return Outcome::NotFinite;
        }
        let exemplar: Option<Exemplar> = capture_exemplar(context, ExemplarValue::Double(value));
        let hash: u64 = attrs_hash_unordered(attrs);
        let place: Place = registry.gauges[self.index].place(hash, attrs);
        let result: Outcome = registry.gauges[self.index].record(
            attrs,
            place,
            hash,
            value,
            exemplar,
        );
        if result == Outcome::Recorded {
            registry.fresh = true;
        }
        proof {
            registry.lemma_gauge_changed(before, self.id());
        }
        result
    }
}

/// One value more in a bucket is one value more in all.
proof fn lemma_total_update(counts: Seq<u64>, i: int, new: u64)
    requires
        0 <= i < counts.len(),
    ensures
        model::total(counts.update(i, new)) == model::total(counts) - counts[i] + new,
    decreases counts.len(),
{
    if i < counts.len() - 1 {
        lemma_total_update(counts.drop_last(), i, new);
        assert(counts.update(i, new).drop_last() =~= counts.drop_last().update(i, new));
    } else {
        assert(counts.update(i, new).drop_last() =~= counts.drop_last());
    }
}

/// Empty buckets hold nothing.
proof fn lemma_total_zeros(n: nat)
    ensures
        model::total(Seq::new(n, |i: int| 0u64)) == 0,
    decreases n,
{
    if n > 0 {
        let zeros = Seq::new(n, |i: int| 0u64);
        assert(zeros.drop_last() =~= Seq::new((n - 1) as nat, |i: int| 0u64));
        lemma_total_zeros((n - 1) as nat);
    }
}

impl HistogramState {
    /// The state after the first value.
    fn first(boundaries: usize, bucket: usize, value: u64) -> (state: HistogramState)
        requires
            bucket <= boundaries,
        ensures
            state@ == model::point_first(boundaries as nat + 1, bucket as int, value),
            model::total(state@.bucket_counts) == 1,
    {
        let mut bucket_counts: Vec<u64> = vec![0u64;boundaries];
        bucket_counts.push(0);
        assert(bucket_counts@ =~= Seq::new(boundaries as nat + 1, |i: int| 0u64));
        proof {
            lemma_total_zeros(boundaries as nat + 1);
            lemma_total_update(bucket_counts@, bucket as int, 1);
        }
        bucket_counts[bucket] = 1;
        HistogramState { bucket_counts, sum: value, count: 1, min: value, max: value }
    }

    /// Counts one value more; `sum` is the sum with it.
    fn observe(&mut self, bucket: usize, value: u64, sum: u64)
        requires
            bucket < old(self)@.bucket_counts.len(),
            model::total(old(self)@.bucket_counts) == old(self)@.count,
            old(self)@.count < u64::MAX,
        ensures
            final(self)@ == model::point_observed(old(self)@, bucket as int, value, sum),
            model::total(final(self)@.bucket_counts) == final(self)@.count,
    {
        proof {
            model::lemma_total_member(self.bucket_counts@, bucket as int);
            lemma_total_update(
                self.bucket_counts@,
                bucket as int,
                (self.bucket_counts@[bucket as int] + 1) as u64,
            );
        }
        let bucket_count: u64 = self.bucket_counts[bucket];
        self.bucket_counts[bucket] = bucket_count + 1;
        self.sum = sum;
        self.count = self.count + 1;
        if order_place(value) < order_place(self.min) {
            self.min = value;
        }
        if order_place(value) > order_place(self.max) {
            self.max = value;
        }
    }
}

impl<V: View> Metric<V> {
    /// A metric stays well-formed when the value or the exemplar of one data point
    /// changes.
    proof fn lemma_entry_changed(self, before: Metric<V>, i: int)
        requires
            before.wf(),
            0 <= i < before.entries@.len(),
            self.entries@ == before.entries@.update(i, self.entries@[i]),
            self.entries@[i].attrs == before.entries@[i].attrs,
            self.index == before.index,
            self.name == before.name,
            self.description == before.description,
            self.max_cardinality == before.max_cardinality,
            self.overflow_warned == before.overflow_warned,
        ensures
            self.wf(),
            self@ == (MetricModel {
                points: before@.points.update(i, self.entries@[i]@),
                ..before@
            }),
    {
        assert(self@.points =~= before@.points.update(i, self.entries@[i]@));
        assert forall|k: int| 0 <= k < self@.points.len() implies #[trigger] self@.points[k].attrs
            == before@.points[k].attrs by {}
        assert forall|k: int| 0 <= k < self.entries@.len() implies self.index@.contains_pair(
            attrs::attrs_hash(#[trigger] self@.points[k].attrs),
            k as usize,
        ) by {
            assert(before.index@.contains_pair(
                attrs::attrs_hash(before@.points[k].attrs),
                k as usize,
            ));
        }
    }
}

impl HistogramInner {
    /// Records a value; `plus` adds doubles.
    fn observe<F: Fn(u64, u64) -> u64>(
        &mut self,
        value: u64,
        attrs: &[(&str, &str)],
        context: &Option<TraceContext>,
        plus: F,
    ) -> (result: Outcome)
        requires
            old(self).wf(),
            model::has_room(old(self)@, attrs::pairs(attrs@)),
            forall|a: u64, b: u64| call_requires(plus, (a, b)),
        ensures
            final(self).wf(),
            model::observed_with(
                old(self)@,
                final(self)@,
                value,
                attrs::pairs(attrs@),
                *context,
                plus,
            ),
            result == if double::finite(value) {
                model::outcome(old(self)@.metric, attrs::pairs(attrs@))
            } else {
                Outcome::NotFinite
            },
    {
        let ghost before = *self;
        let ghost pairs = attrs::pairs(attrs@);
        let bucket: usize = bucket_index(&self.boundaries, value);
        if !is_finite(value) {
            assert(
                model::histogram_observed(before@, value, pairs, *context, bucket as int, 0) == self@
            );
            return Outcome::NotFinite;
        }
        let exemplar: Option<Exemplar> = capture_exemplar(context, ExemplarValue::Double(value));
        let hash: u64 = attrs_hash_unordered(attrs);
        let place: Place = self.metric.place(hash, attrs);
        let result: Outcome = match place {
            Place::At(i) => {
                let ghost point = before@.metric.points[i as int];
                assert(point.value == before.metric.entries@[i as int].value@);
                let sum: u64 = plus(self.metric.entries[i].value.sum, value);
                self.metric.entries[i].value.observe(bucket, value, sum);
                if exemplar.is_some() {
                    self.metric.entries[i].exemplar = exemplar;
                }
                proof {
                    assert(self.metric.entries@ =~= before.metric.entries@.update(
                        i as int,
                        self.metric.entries@[i as int],
                    ));
                    self.metric.lemma_entry_changed(before.metric, i as int);
                    assert(self@ == model::histogram_observed(
                        before@,
                        value,
                        pairs,
                        *context,
                        bucket as int,
                        sum,
                    ));
                    assert forall|k: int| #![trigger self@.metric.points[k]] 0 <= k
                        < self@.metric.points.len() implies {
                        let value = self@.metric.points[k].value;
                        &&& value.bucket_counts.len() == self@.boundaries.len() + 1
                        &&& model::total(value.bucket_counts) == value.count
                    } by {
                        let old_point = before@.metric.points[k];
                        assert(old_point.value.bucket_counts.len() == self@.boundaries.len() + 1);
                    }
                }
                Outcome::Recorded
            },
            Place::Taken => {
                assert(self@ == model::histogram_observed(
                    before@,
                    value,
                    pairs,
                    *context,
                    bucket as int,
                    0,
                ));
                Outcome::HashCollision
            },
            Place::Full => {
                let first: bool = !self.metric.overflow_warned;
                self.metric.overflow_warned = true;
                assert(self.metric@.points =~= before.metric@.points);
                assert(self@ == model::histogram_observed(
                    before@,
                    value,
                    pairs,
                    *context,
                    bucket as int,
                    0,
                ));
                Outcome::LimitReached { first }
            },
            Place::New => {
                let state: HistogramState = HistogramState::first(
                    self.boundaries.len(),
                    bucket,
                    value,
                );
                self.metric.insert(hash, attrs, state, exemplar);
                assert(self@ == model::histogram_observed(
                    before@,
                    value,
                    pairs,
                    *context,
                    bucket as int,
                    0,
                ));
                Outcome::Recorded
            },
        };
        result
    }
}

impl Histogram {
    /// Whether the data point of an attribute set can count one value more.
    pub fn has_room(&self, registry: &MetricsRegistry, attrs: &[(&str, &str)]) -> (r: bool)
        requires
            registry.wf(),
            self.id() < registry@.histograms.len(),
        ensures
            r == model::has_room(registry@.histograms[self.id()], attrs::pairs(attrs@)),
    {
        let histogram: &HistogramInner = &registry.histograms[self.index];
        assert(registry@.histograms[self.id()] == histogram@);
        let hash: u64 = attrs_hash_unordered(attrs);
        match histogram.metric.place(hash, attrs) {
            Place::At(i) => {
                assert(histogram.metric@.points[i as int].value
                    == histogram.metric.entries@[i as int].value@);
                histogram.metric.entries[i].value.count < u64::MAX
            },
            _ => true,
        }
    }

    /// Records an observed value for an attribute set. Values that are not finite are
    /// rejected. `plus` adds two doubles, given and returned as their bits.
    pub fn observe<F: Fn(u64, u64) -> u64>(
        &self,
        registry: &mut MetricsRegistry,
        value: u64,
        attrs: &[(&str, &str)],
        context: &Option<TraceContext>,
        plus: F,
    ) -> (result: Outcome)
        requires
            old(registry).wf(),
            self.id() < old(registry)@.histograms.len(),
            model::has_room(old(registry)@.histograms[self.id()], attrs::pairs(attrs@)),
            forall|a: u64, b: u64| call_requires(plus, (a, b)),
        ensures
            final(registry).wf(),
            final(registry)@ == (RegistryModel {
                histograms: old(registry)@.histograms.update(
                    self.id(),
                    final(registry)@.histograms[self.id()],
                ),
                fresh: old(registry)@.fresh || result == Outcome::Recorded,
                ..old(registry)@
            }),
            model::observed_with(
                old(registry)@.histograms[self.id()],
                final(registry)@.histograms[self.id()],
                value,
                attrs::pairs(attrs@),
                *context,
                plus,
            ),
            result == if double::finite(value) {
                model::outcome(old(registry)@.histograms[self.id()].metric, attrs::pairs(attrs@))
            } else {
                Outcome::NotFinite
            },
    {
        let ghost before = *registry;
        assert(before@.histograms[self.id()] == before.histograms@[self.id()]@);
        let result: Outcome = registry.histograms[self.index].observe(value, attrs, context, plus);
        if result == Outcome::Recorded {
            registry.fresh = true;
        }
        proof {
            registry.lemma_histogram_changed(before, self.id());
        }
        result
    }
}

impl MetricsRegistry {
    /// A registry stays well-formed when one histogram changes and stays well-formed
    /// under its name.
    proof fn lemma_histogram_changed(self, before: MetricsRegistry, i: int)
        requires
            before.wf(),
            0 <= i < before.histograms@.len(),
            self.histograms@ == before.histograms@.update(i, self.histograms@[i]),
            self.histograms@[i].wf(),
            self.histograms@[i]@.metric.name == before.histograms@[i]@.metric.name,
            self.counters == before.counters,
            self.gauges == before.gauges,
            self.default_max_cardinality == before.default_max_cardinality,
        ensures
            self.wf(),
            self@ == (RegistryModel {
                histograms: before@.histograms.update(i, self.histograms@[i]@),
                fresh: self.fresh,
                ..before@
            }),
    {
        assert(self@.histograms =~= before@.histograms.update(i, self.histograms@[i]@));
        assert(self@.histogram_names() =~= before@.histogram_names());
        assert forall|k: int| 0 <= k < self@.histograms.len() implies model::histogram_wf(
            #[trigger] self@.histograms[k],
        ) by {
            assert(self.histograms@[k].wf());
        }
    }
}

/// Another pointer to the same attributes: `Arc::clone` gives a pointer to the value
/// that the given one points to.
#[verifier::external_body]
fn share(attrs: &Attrs) -> (shared: Attrs)
    ensures
        shared == *attrs,
{
    Arc::clone(attrs)
}

impl<V: View + Copy> Metric<V> {
    /// The data points, whose exemplars are taken out.
    fn collect(&mut self) -> (data_points: Vec<(Attrs, V, Option<Exemplar>)>)
        requires
            old(self).wf(),
        ensures
            final(self).wf(),
            final(self)@ == model::cleared(old(self)@),
            data_points@.map_values(|dp: (Attrs, V, Option<Exemplar>)| model::collected_point(dp))
                == old(self)@.points,
    {
        let ghost before = *self;
        let mut data_points: Vec<(Attrs, V, Option<Exemplar>)> = Vec::new();
        let mut i: usize = 0;
        while i < self.entries.len()
            invariant
                i <= self.entries@.len() == before.entries@.len() == before@.points.len(),
                self.wf(),
                before.wf(),
                data_points@.len() == i,
                self@.name == before@.name,
                self@.description == before@.description,
                self@.max_cardinality == before@.max_cardinality,
                self@.overflow_warned == before@.overflow_warned,
                forall|k: int| 0 <= k < i ==> model::collected_point(#[trigger] data_points@[k])
                    == before@.points[k],
                forall|k: int| 0 <= k < i ==> #[trigger] self@.points[k] == model::without_exemplar(
                    before@.points[k],
                ),
                forall|k: int| i <= k < before@.points.len() ==> #[trigger] self@.points[k]
                    == before@.points[k],
            decreases self.entries.len() - i,
        {
            let ghost now = *self;
            assert(self@.points[i as int] == self.entries@[i as int]@);
            let attrs: Attrs = share(&self.entries[i].attrs);
            let value: V = self.entries[i].value;
            let exemplar: Option<Exemplar> = self.entries[i].exemplar;
            self.entries[i].exemplar = None;
            data_points.push((attrs, value, exemplar));
            proof {
                assert(self.entries@ =~= now.entries@.update(i as int, self.entries@[i as int]));
                self.lemma_entry_changed(now, i as int);
                assert(model::collected_point(data_points@[i as int]) == before@.points[i as int]);
            }
            i = i + 1;
        }
        assert(self@.points =~= model::cleared(before@).points);
        assert(data_points@.map_values(
            |dp: (Attrs, V, Option<Exemplar>)| model::collected_point(dp)
        )
            =~= before@.points);
        data_points
    }
}

impl HistogramInner {
    /// The data points, whose exemplars are taken out.
    fn collect(&mut self) -> (data_points: Vec<HistogramDataPoint>)
        requires
            old(self).wf(),
        ensures
            final(self).wf(),
            final(self)@ == (HistogramModel {
                metric: model::cleared(old(self)@.metric),
                ..old(self)@
            }),
            data_points@.map_values(|dp: HistogramDataPoint| model::collected_distribution(dp))
                == old(self)@.metric.points,
    {
        let ghost before = *self;
        let mut data_points: Vec<HistogramDataPoint> = Vec::new();
        let mut i: usize = 0;
        while i < self.metric.entries.len()
            invariant
                i <= self.metric.entries@.len() == before.metric.entries@.len(),
                before.metric.entries@.len() == before@.metric.points.len(),
                self.metric.wf(),
                before.wf(),
                self.boundaries == before.boundaries,
                data_points@.len() == i,
                self@.metric.name == before@.metric.name,
                self@.metric.description == before@.metric.description,
                self@.metric.max_cardinality == before@.metric.max_cardinality,
                self@.metric.overflow_warned == before@.metric.overflow_warned,
                forall|k: int| 0 <= k < i ==> model::collected_distribution(
                    #[trigger] data_points@[k],
                )
                    == before@.metric.points[k],
                forall|k: int| 0 <= k < i ==> #[trigger] self@.metric.points[k]
                    == model::without_exemplar(before@.metric.points[k]),
                forall|k: int| i <= k < before@.metric.points.len() ==> #[trigger] self@.metric.points[k]
                    == before@.metric.points[k],
            decreases self.metric.entries.len() - i,
        {
            let ghost now = *self;
            assert(self@.metric.points[i as int] == self.metric.entries@[i as int]@);
            let exemplar: Option<Exemplar> = self.metric.entries[i].exemplar;
            self.metric.entries[i].exemplar = None;
            let entry: &Entry<HistogramState> = &self.metric.entries[i];
            let bucket_counts: Vec<u64> = entry.value.bucket_counts.clone();
            assert(bucket_counts@ =~= entry.value.bucket_counts@);
            data_points.push(
                HistogramDataPoint {
                    attrs: share(&entry.attrs),
                    bucket_counts,
                    sum: entry.value.sum,
                    count: entry.value.count,
                    min: entry.value.min,
                    max: entry.value.max,
                    exemplar,
                },
            );
            proof {
                assert(self.metric.entries@ =~= now.metric.entries@.update(
                    i as int,
                    self.metric.entries@[i as int],
                ));
                self.metric.lemma_entry_changed(now.metric, i as int);
                assert(model::collected_distribution(data_points@[i as int])
                    == before@.metric.points[i as int]);
            }
            i = i + 1;
        }
        proof {
            assert(self@.metric.points =~= model::cleared(before@.metric).points);
            assert(data_points@.map_values(
                |dp: HistogramDataPoint| model::collected_distribution(dp)
            )
                =~= before@.metric.points);
            assert forall|k: int| #![trigger self@.metric.points[k]] 0 <= k
                < self@.metric.points.len() implies {
                let value = self@.metric.points[k].value;
                &&& value.bucket_counts.len() == self@.boundaries.len() + 1
                &&& model::total(value.bucket_counts) == value.count
            } by {
                let old_point = before@.metric.points[k];
                assert(model::total(old_point.value.bucket_counts) == old_point.value.count);
            }
        }
        data_points
    }
}

impl MetricsRegistry {
    /// Snapshots of all counters that have data points, behind `snapshots`.
    fn collect_counters(&mut self, snapshots: &mut Vec<MetricSnapshot>)
        requires
            old(self).wf(),
        ensures
            final(self).wf(),
            final(self)@ == (RegistryModel {
                counters: model::registry_cleared(old(self)@).counters,
                ..old(self)@
            }),
            model::snapshot_models(final(snapshots)@) == model::snapshot_models(old(snapshots)@)
                + model::counter_snapshots(old(self)@.counters),
    {
        let ghost before = *self;
        let ghost start = model::snapshot_models(snapshots@);
        let mut i: usize = 0;
        assert(before@.counters.take(0) =~= Seq::<MetricModel<i64>>::empty());
        assert(start + model::counter_snapshots(before@.counters.take(0)) =~= start);
        while i < self.counters.len()
            invariant
                i <= self.counters@.len() == before.counters@.len() == before@.counters.len(),
                self.wf(),
                before.wf(),
                self@.gauges == before@.gauges,
                self@.histograms == before@.histograms,
                self@.default_max_cardinality == before@.default_max_cardinality,
                self@.fresh == before@.fresh,
                forall|k: int| 0 <= k < i ==> #[trigger] self@.counters[k] == model::cleared(
                    before@.counters[k],
                ),
                forall|k: int| i <= k < before@.counters.len() ==> #[trigger] self@.counters[k]
                    == before@.counters[k],
                model::snapshot_models(snapshots@) == start + model::counter_snapshots(
                    before@.counters.take(i as int),
                ),
            decreases self.counters.len() - i,
        {
            let ghost now = *self;
            let ghost prefix = before@.counters.take(i + 1);
            assert(prefix.drop_last() =~= before@.counters.take(i as int));
            assert(self@.counters[i as int] == self.counters@[i as int]@);
            assert(self.counters@[i as int]@.points.len()
                == self.counters@[i as int].entries@.len());
            if self.counters[i].entries.len() > 0 {
                let ghost sent = snapshots@;
                let data_points: Vec<CounterDataPoint> = self.counters[i].collect();
                snapshots.push(
                    MetricSnapshot::Counter {
                        name: self.counters[i].name.clone(),
                        description: self.counters[i].description.clone(),
                        data_points,
                    },
                );
                proof {
                    assert(self.counters@ =~= now.counters@.update(
                        i as int,
                        self.counters@[i as int],
                    ));
                    self.lemma_counter_changed(now, i as int);
                    assert(model::snapshot_models(snapshots@) =~= model::snapshot_models(sent).push(
                        snapshots@.last().model(),
                    ));
                    assert(
                        model::snapshot_models(snapshots@) =~= start + model::counter_snapshots(prefix)
                    );
                }
            } else {
                assert(model::cleared(before@.counters[i as int]).points
                    =~= before@.counters[i as int].points);
            }
            i = i + 1;
        }
        assert(before@.counters.take(i as int) =~= before@.counters);
        assert(self@.counters =~= model::registry_cleared(before@).counters);
    }

    /// Snapshots of all gauges that have data points, behind `snapshots`.
    fn collect_gauges(&mut self, snapshots: &mut Vec<MetricSnapshot>)
        requires
            old(self).wf(),
        ensures
            final(self).wf(),
            final(self)@ == (RegistryModel {
                gauges: model::registry_cleared(old(self)@).gauges,
                ..old(self)@
            }),
            model::snapshot_models(final(snapshots)@) == model::snapshot_models(old(snapshots)@)
                + model::gauge_snapshots(old(self)@.gauges),
    {
        let ghost before = *self;
        let ghost start = model::snapshot_models(snapshots@);
        let mut i: usize = 0;
        assert(before@.gauges.take(0) =~= Seq::<MetricModel<u64>>::empty());
        assert(start + model::gauge_snapshots(before@.gauges.take(0)) =~= start);
        while i < self.gauges.len()
            invariant
                i <= self.gauges@.len() == before.gauges@.len() == before@.gauges.len(),
                self.wf(),
                before.wf(),
                self@.counters == before@.counters,
                self@.histograms == before@.histograms,
                self@.default_max_cardinality == before@.default_max_cardinality,
                self@.fresh == before@.fresh,
                forall|k: int| 0 <= k < i ==> #[trigger] self@.gauges[k] == model::cleared(
                    before@.gauges[k],
                ),
                forall|k: int| i <= k < before@.gauges.len() ==> #[trigger] self@.gauges[k]
                    == before@.gauges[k],
                model::snapshot_models(snapshots@) == start + model::gauge_snapshots(
                    before@.gauges.take(i as int),
                ),
            decreases self.gauges.len() - i,
        {
            let ghost now = *self;
            let ghost prefix = before@.gauges.take(i + 1);
            assert(prefix.drop_last() =~= before@.gauges.take(i as int));
            assert(self@.gauges[i as int] == self.gauges@[i as int]@);
            assert(self.gauges@[i as int]@.points.len() == self.gauges@[i as int].entries@.len());
            if self.gauges[i].entries.len() > 0 {
                let ghost sent = snapshots@;
                let data_points: Vec<GaugeDataPoint> = self.gauges[i].collect();
                snapshots.push(
                    MetricSnapshot::Gauge {
                        name: self.gauges[i].name.clone(),
                        description: self.gauges[i].description.clone(),
                        data_points,
                    },
                );
                proof {
                    assert(self.gauges@ =~= now.gauges@.update(i as int, self.gauges@[i as int]));
                    self.lemma_gauge_changed(now, i as int);
                    assert(model::snapshot_models(snapshots@) =~= model::snapshot_models(sent).push(
                        snapshots@.last().model(),
                    ));
                    assert(
                        model::snapshot_models(snapshots@) =~= start + model::gauge_snapshots(prefix)
                    );
                }
            } else {
                assert(model::cleared(before@.gauges[i as int]).points
                    =~= before@.gauges[i as int].points);
            }
            i = i + 1;
        }
        assert(before@.gauges.take(i as int) =~= before@.gauges);
        assert(self@.gauges =~= model::registry_cleared(before@).gauges);
    }

    /// Snapshots of all histograms that have data points, behind `snapshots`.
    fn collect_histograms(&mut self, snapshots: &mut Vec<MetricSnapshot>)
        requires
            old(self).wf(),
        ensures
            final(self).wf(),
            final(self)@ == (RegistryModel {
                histograms: model::registry_cleared(old(self)@).histograms,
                ..old(self)@
            }),
            model::snapshot_models(final(snapshots)@) == model::snapshot_models(old(snapshots)@)
                + model::histogram_snapshots(old(self)@.histograms),
    {
        let ghost before = *self;
        let ghost start = model::snapshot_models(snapshots@);
        let mut i: usize = 0;
        assert(before@.histograms.take(0) =~= Seq::<HistogramModel>::empty());
        assert(start + model::histogram_snapshots(before@.histograms.take(0)) =~= start);
        while i < self.histograms.len()
            invariant
                i <= self.histograms@.len() == before.histograms@.len() == before@.histograms.len(),
                self.wf(),
                before.wf(),
                self@.counters == before@.counters,
                self@.gauges == before@.gauges,
                self@.default_max_cardinality == before@.default_max_cardinality,
                self@.fresh == before@.fresh,
                forall|k: int| 0 <= k < i ==> #[trigger] self@.histograms[k] == (HistogramModel {
                    metric: model::cleared(before@.histograms[k].metric),
                    ..before@.histograms[k]
                }),
                forall|k: int| i <= k < before@.histograms.len() ==> #[trigger] self@.histograms[k]
                    == before@.histograms[k],
                model::snapshot_models(snapshots@) == start + model::histogram_snapshots(
                    before@.histograms.take(i as int),
                ),
            decreases self.histograms.len() - i,
        {
            let ghost now = *self;
            let ghost prefix = before@.histograms.take(i + 1);
            assert(prefix.drop_last() =~= before@.histograms.take(i as int));
            assert(self@.histograms[i as int] == self.histograms@[i as int]@);
            assert(self.histograms@[i as int]@.metric.points.len()
                == self.histograms@[i as int].metric.entries@.len());
            if self.histograms[i].metric.entries.len() > 0 {
                let ghost sent = snapshots@;
                let data_points: Vec<HistogramDataPoint> = self.histograms[i].collect();
                let boundaries: Vec<u64> = self.histograms[i].boundaries.clone();
                assert(boundaries@ =~= self.histograms@[i as int].boundaries@);
                snapshots.push(
                    MetricSnapshot::Histogram {
                        name: self.histograms[i].metric.name.clone(),
                        description: self.histograms[i].metric.description.clone(),
                        boundaries,
                        data_points,
                    },
                );
                proof {
                    assert(self.histograms@ =~= now.histograms@.update(
                        i as int,
                        self.histograms@[i as int],
                    ));
                    self.lemma_histogram_changed(now, i as int);
                    assert(model::snapshot_models(snapshots@) =~= model::snapshot_models(sent).push(
                        snapshots@.last().model(),
                    ));
                    assert(
                        model::snapshot_models(snapshots@) =~= start + model::histogram_snapshots(prefix)
                    );
                }
            } else {
                assert(model::cleared(before@.histograms[i as int].metric).points
                    =~= before@.histograms[i as int].metric.points);
            }
            i = i + 1;
        }
        assert(before@.histograms.take(i as int) =~= before@.histograms);
        assert(self@.histograms =~= model::registry_cleared(before@).histograms);
    }

    /// Whether a value was recorded since the last collection.
    pub fn is_fresh(&self) -> (fresh: bool)
        ensures
            fresh == self@.fresh,
    {
        self.fresh
    }

    /// Snapshots of all metrics that have data points, for encoding. Values stay as
    /// they are (they are cumulative); exemplars are taken out.
    pub fn collect(&mut self) -> (snapshots: Vec<MetricSnapshot>)
        requires
            old(self).wf(),
        ensures
            final(self).wf(),
            final(self)@ == model::registry_cleared(old(self)@),
            model::snapshot_models(snapshots@) == model::registry_snapshots(old(self)@),
    {
        let mut snapshots: Vec<MetricSnapshot> = Vec::new();
        assert(model::snapshot_models(snapshots@) =~= Seq::<SnapshotModel>::empty());
        self.collect_counters(&mut snapshots);
        self.collect_gauges(&mut snapshots);
        self.collect_histograms(&mut snapshots);
        let ghost collected = *self;
        self.fresh = false;
        assert(self@.counters == collected@.counters);
        assert(self@.gauges == collected@.gauges);
        assert(self@.histograms == collected@.histograms);
        assert(self@.counter_names() == collected@.counter_names());
        assert(model::snapshot_models(snapshots@) =~= model::registry_snapshots(old(self)@));
        snapshots
    }
}

} // verus!
