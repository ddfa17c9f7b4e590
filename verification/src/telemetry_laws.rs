//! What holds of exported metrics, of the sampling rate and of the resource over several calls.
use vstd::prelude::*;

use crate::attrs;
use crate::attrs::Pair;
use crate::double;
use crate::metrics::{Outcome, TraceContext};
use crate::metrics_laws;
use crate::metrics_model as model;
use crate::metrics_model::{HistogramModel, MetricModel, RegistryModel};
use crate::otlp_layer;
use crate::reading;
use crate::sampling;
use crate::telemetry;
use crate::telemetry::MetricsExportConfig;

verus! {

/// Once metrics have been collected there is nothing to export until something is recorded.
pub proof fn lemma_collected_is_no_news(registry: RegistryModel)
    ensures
        !telemetry::has_news(model::registry_cleared(registry)),
{
}

/// An amount that a counter takes is exported with the next collection.
pub proof fn lemma_counted_is_news(
    registry: RegistryModel,
    id: int,
    value: u64,
    pairs: Seq<Pair>,
    context: Option<TraceContext>,
)
    requires
        0 <= id < registry.counters.len(),
        model::outcome(registry.counters[id], pairs) == Outcome::Recorded,
    ensures
        telemetry::has_news(
            RegistryModel {
                counters: registry.counters.update(
                    id,
                    model::counter_added(registry.counters[id], value, pairs, context),
                ),
                fresh: true,
                ..registry
            },
        ),
{
    let after = RegistryModel {
        counters: registry.counters.update(
            id,
            model::counter_added(registry.counters[id], value, pairs, context),
        ),
        fresh: true,
        ..registry
    };
    metrics_laws::lemma_counter_given_out(after, id);
}

/// A value that a gauge takes is exported with the next collection.
pub proof fn lemma_set_is_news(
    registry: RegistryModel,
    id: int,
    value: u64,
    pairs: Seq<Pair>,
    context: Option<TraceContext>,
)
    requires
        0 <= id < registry.gauges.len(),
        double::finite(value),
        model::outcome(registry.gauges[id], pairs) == Outcome::Recorded,
    ensures
        telemetry::has_news(
            RegistryModel {
                gauges: registry.gauges.update(
                    id,
                    model::gauge_set(registry.gauges[id], value, pairs, context),
                ),
                fresh: true,
                ..registry
            },
        ),
{
    let after = RegistryModel {
        gauges: registry.gauges.update(
            id,
            model::gauge_set(registry.gauges[id], value, pairs, context),
        ),
        fresh: true,
        ..registry
    };
    metrics_laws::lemma_gauge_given_out(after, id);
}

/// A value that a histogram takes is exported with the next collection.
pub proof fn lemma_observed_is_news(
    registry: RegistryModel,
    id: int,
    value: u64,
    pairs: Seq<Pair>,
    context: Option<TraceContext>,
    bucket: int,
    sum: u64,
)
    requires
        0 <= id < registry.histograms.len(),
        double::finite(value),
        model::outcome(registry.histograms[id].metric, pairs) == Outcome::Recorded,
    ensures
        telemetry::has_news(
            RegistryModel {
                histograms: registry.histograms.update(
                    id,
                    model::histogram_observed(
                        registry.histograms[id],
                        value,
                        pairs,
                        context,
                        bucket,
                        sum,
                    ),
                ),
                fresh: true,
                ..registry
            },
        ),
{
    let observed: HistogramModel = model::histogram_observed(
        registry.histograms[id],
        value,
        pairs,
        context,
        bucket,
        sum,
    );
    let after = RegistryModel {
        histograms: registry.histograms.update(id, observed),
        fresh: true,
        ..registry
    };
    metrics_laws::lemma_histogram_given_out(after, id);
}

/// A clamped rate lies between zero and one, unless it is not a number, and clamping again
/// changes nothing.
pub proof fn lemma_clamped_rate(bits: u64)
    ensures
        telemetry::clamped_rate(telemetry::clamped_rate(bits)) == telemetry::clamped_rate(bits),
        !double::nan(bits) ==> 0 <= double::place(telemetry::clamped_rate(bits))
            <= double::place(sampling::ONE),
{
}

/// The resource depends on nothing but the texts of its attributes: the layer and the exported
/// metrics, which hold copies of them, speak of the same resource.
pub proof fn lemma_same_resource(
    service_name: Seq<char>,
    service_version: Seq<char>,
    environment: Seq<char>,
    a: Seq<(String, String)>,
    b: Seq<(String, String)>,
)
    requires
        attrs::stored_pairs(a) == attrs::stored_pairs(b),
    ensures
        otlp_layer::resource_model(service_name, service_version, environment, a)
            == otlp_layer::resource_model(service_name, service_version, environment, b),
{
    assert(attrs::stored_pairs(a).len() == a.len());
    assert(attrs::stored_pairs(b).len() == b.len());
    let left = otlp_layer::resource_model(service_name, service_version, environment, a);
    let right = otlp_layer::resource_model(service_name, service_version, environment, b);
    assert forall|k: int| 0 <= k < left.len() implies left[k] == right[k] by {
        if k >= 3 {
            let i = k - 3;
            assert(attrs::stored_pairs(a)[i] == (a[i].0@, a[i].1@));
            assert(attrs::stored_pairs(b)[i] == (b[i].0@, b[i].1@));
            assert(left[k] == otlp_layer::text_attr(a[i].0@, a[i].1@));
            assert(right[k] == otlp_layer::text_attr(b[i].0@, b[i].1@));
        }
    }
    assert(left =~= right);
}

/// Clamping leaves a rate between zero and one as it is, makes one below zero zero and one above
/// one one. By the bits: 1.0 is `0x3ff0_0000_0000_0000`, and what is above it up to infinity
/// follows it; negative rates have the top bit set.
pub proof fn lemma_clamped_rate_by_bits(bits: u64)
    ensures
        bits <= 0x3ff0_0000_0000_0000 ==> telemetry::clamped_rate(bits) == bits,
        0x3ff0_0000_0000_0000 < bits <= 0x7ff0_0000_0000_0000 ==> telemetry::clamped_rate(bits)
            == 0x3ff0_0000_0000_0000,
        0x8000_0000_0000_0000 < bits <= 0xfff0_0000_0000_0000 ==> telemetry::clamped_rate(bits)
            == 0,
{
}

/// A signal is posted below its endpoint, and nowhere where it has none.
pub proof fn lemma_endpoint_url(endpoint: Option<String>, path: Seq<char>)
    ensures
        endpoint is None ==> telemetry::endpoint_url(endpoint, path) is None,
        endpoint matches Some(text) ==> {
            &&& telemetry::endpoint_url(endpoint, path) matches Some(url)
            &&& url.len() == endpoint->0@.len() + path.len()
            &&& url.take(endpoint->0@.len() as int) == endpoint->0@
            &&& url.skip(endpoint->0@.len() as int) == path
        },
{
    if let Some(text) = endpoint {
        let url = telemetry::endpoint_url(endpoint, path)->0;
        assert(url.take(text@.len() as int) =~= text@);
        assert(url.skip(text@.len() as int) =~= path);
    }
}

/// There is something to export exactly where something was recorded since the last collection
/// and a metric has a data point.
pub proof fn lemma_what_is_news(registry: RegistryModel)
    ensures
        telemetry::has_news(registry) <==> registry.fresh && {
            ||| exists|i: int|
                0 <= i < registry.counters.len() && (#[trigger] registry.counters[i]).points.len()
                    > 0
            ||| exists|i: int|
                0 <= i < registry.gauges.len() && (#[trigger] registry.gauges[i]).points.len() > 0
            ||| exists|i: int|
                0 <= i < registry.histograms.len() && (
                #[trigger] registry.histograms[i]).metric.points.len() > 0
        },
{
    if exists|i: int|
        0 <= i < registry.counters.len() && (#[trigger] registry.counters[i]).points.len() > 0 {
        let i = choose|i: int|
            0 <= i < registry.counters.len() && (#[trigger] registry.counters[i]).points.len() > 0;
        metrics_laws::lemma_counter_given_out(registry, i);
    } else if exists|i: int|
        0 <= i < registry.gauges.len() && (#[trigger] registry.gauges[i]).points.len() > 0 {
        let i = choose|i: int|
            0 <= i < registry.gauges.len() && (#[trigger] registry.gauges[i]).points.len() > 0;
        metrics_laws::lemma_gauge_given_out(registry, i);
    } else if exists|i: int|
        0 <= i < registry.histograms.len() && (
        #[trigger] registry.histograms[i]).metric.points.len() > 0 {
        let i = choose|i: int|
            0 <= i < registry.histograms.len() && (
            #[trigger] registry.histograms[i]).metric.points.len() > 0;
        metrics_laws::lemma_histogram_given_out(registry, i);
    } else {
        metrics_laws::lemma_no_data_no_snapshots(registry);
    }
}

/// Every snapshot has data points.
proof fn lemma_snapshots_have_data(registry: RegistryModel)
    ensures
        forall|i: int|
            0 <= i < model::registry_snapshots(registry).len() ==> reading::data_points(
                #[trigger] model::registry_snapshots(registry)[i],
            ) > 0,
{
    lemma_counts_have_data(registry.counters);
    lemma_values_have_data(registry.gauges);
    lemma_distributions_have_data(registry.histograms);
    let counts = model::counter_snapshots(registry.counters);
    let values = model::gauge_snapshots(registry.gauges);
    let distributions = model::histogram_snapshots(registry.histograms);
    let all = model::registry_snapshots(registry);
    assert forall|i: int| 0 <= i < all.len() implies reading::data_points(#[trigger] all[i])
        > 0 by {
        if i < counts.len() {
            assert(all[i] == counts[i]);
        } else if i < counts.len() + values.len() {
            assert(all[i] == values[i - counts.len()]);
        } else {
            assert(all[i] == distributions[i - counts.len() - values.len()]);
        }
    }
}

proof fn lemma_counts_have_data(counters: Seq<MetricModel<i64>>)
    ensures
        forall|i: int|
            0 <= i < model::counter_snapshots(counters).len() ==> reading::data_points(
                #[trigger] model::counter_snapshots(counters)[i],
            ) > 0,
    decreases counters.len(),
{
    if counters.len() > 0 {
        lemma_counts_have_data(counters.drop_last());
        let rest = model::counter_snapshots(counters.drop_last());
        let all = model::counter_snapshots(counters);
        assert forall|i: int| 0 <= i < all.len() implies reading::data_points(#[trigger] all[i])
            > 0 by {
            if i < rest.len() {
                assert(all[i] == rest[i]);
            }
        }
    }
}

proof fn lemma_values_have_data(gauges: Seq<MetricModel<u64>>)
    ensures
        forall|i: int|
            0 <= i < model::gauge_snapshots(gauges).len() ==> reading::data_points(
                #[trigger] model::gauge_snapshots(gauges)[i],
            ) > 0,
    decreases gauges.len(),
{
    if gauges.len() > 0 {
        lemma_values_have_data(gauges.drop_last());
        let rest = model::gauge_snapshots(gauges.drop_last());
        let all = model::gauge_snapshots(gauges);
        assert forall|i: int| 0 <= i < all.len() implies reading::data_points(#[trigger] all[i])
            > 0 by {
            if i < rest.len() {
                assert(all[i] == rest[i]);
            }
        }
    }
}

proof fn lemma_distributions_have_data(histograms: Seq<HistogramModel>)
    ensures
        forall|i: int|
            0 <= i < model::histogram_snapshots(histograms).len() ==> reading::data_points(
                #[trigger] model::histogram_snapshots(histograms)[i],
            ) > 0,
    decreases histograms.len(),
{
    if histograms.len() > 0 {
        lemma_distributions_have_data(histograms.drop_last());
        let rest = model::histogram_snapshots(histograms.drop_last());
        let all = model::histogram_snapshots(histograms);
        assert forall|i: int| 0 <= i < all.len() implies reading::data_points(#[trigger] all[i])
            > 0 by {
            if i < rest.len() {
                assert(all[i] == rest[i]);
            }
        }
    }
}

/// The messages of the metrics in a request.
pub open spec fn metrics_in(request: Seq<u8>) -> Seq<Seq<u8>> {
    reading::read_repeated(reading::read_bytes(reading::read_bytes(request, 1), 2), 2)
}

/// An exported request tells the resource and the scope of the configuration and what a
/// collection gives out, metric by metric, from the start time of the configuration to now.
pub proof fn lemma_metrics_request_is_told(
    registry: RegistryModel,
    config: MetricsExportConfig,
    now: u64,
)
    ensures
        ({
            let request = telemetry::metrics_request(registry, config, now);
            let snapshots = model::registry_snapshots(registry);
            &&& reading::tells_origin(
                reading::read_bytes(request, 1),
                otlp_layer::resource_model(
                    config.service_name@,
                    config.service_version@,
                    config.environment@,
                    config.resource_attributes@,
                ),
                config.scope_name@,
                config.scope_version@,
            )
            &&& metrics_in(request).len() == snapshots.len()
            &&& forall|i: int|
                0 <= i < snapshots.len() ==> reading::tells_metric(
                    #[trigger] metrics_in(request)[i],
                    snapshots[i],
                    config.start_time,
                    now,
                )
        }),
{
    lemma_snapshots_have_data(registry);
    reading::lemma_metrics_request_tells(
        otlp_layer::resource_model(
            config.service_name@,
            config.service_version@,
            config.environment@,
            config.resource_attributes@,
        ),
        config.scope_name@,
        config.scope_version@,
        model::registry_snapshots(registry),
        config.start_time,
        now,
    );
}

/// Every data point of a counter is in the request, with its attributes and what it holds, as
/// part of a cumulative sum with the counter's name and description.
pub proof fn lemma_counter_is_exported(
    registry: RegistryModel,
    config: MetricsExportConfig,
    now: u64,
    id: int,
)
    requires
        0 <= id < registry.counters.len(),
        registry.counters[id].points.len() > 0,
    ensures
        ({
            let request = telemetry::metrics_request(registry, config, now);
            let counter = registry.counters[id];
            exists|k: int|
                0 <= k < metrics_in(request).len() && {
                    let metric = #[trigger] metrics_in(request)[k];
                    let sum = reading::read_bytes(metric, 7);
                    let points = reading::read_repeated(sum, 1);
                    &&& reading::read_string(metric, 1) == counter.name
                    &&& reading::read_string(metric, 2) == counter.description
                    &&& reading::read_varint(sum, 2) == 2
                    &&& reading::read_varint(sum, 3) == 1
                    &&& points.len() == counter.points.len()
                    &&& forall|i: int| #![trigger points[i]]
                        0 <= i < points.len() ==> {
                            &&& reading::read_fixed64(points[i], 2) == config.start_time
                            &&& reading::read_fixed64(points[i], 3) == now
                            &&& reading::signed(reading::read_fixed64(points[i], 6))
                                == counter.points[i].value
                            &&& reading::tell_pairs(
                                reading::read_repeated(points[i], 7),
                                counter.points[i].attrs,
                            )
                            &&& reading::tell_exemplar(
                                reading::read_repeated(points[i], 5),
                                counter.points[i].exemplar,
                            )
                        }
                }
        }),
{
    let request = telemetry::metrics_request(registry, config, now);
    let snapshots = model::registry_snapshots(registry);
    let counter = registry.counters[id];
    lemma_metrics_request_is_told(registry, config, now);
    metrics_laws::lemma_counter_given_out(registry, id);
    let k = choose|k: int|
        0 <= k < snapshots.len() && #[trigger] snapshots[k] == model::counter_snapshot(counter);
    let metric = metrics_in(request)[k];
    assert(reading::tells_metric(metric, snapshots[k], config.start_time, now));
    let points = reading::read_repeated(reading::read_bytes(metric, 7), 1);
    assert forall|i: int| #![trigger points[i]] 0 <= i < points.len() implies reading::tells_count(
        points[i],
        counter.points[i],
        config.start_time,
        now,
    ) by {}
}

/// Every data point of a gauge is in the request, with its attributes and the value that it
/// holds.
pub proof fn lemma_gauge_is_exported(
    registry: RegistryModel,
    config: MetricsExportConfig,
    now: u64,
    id: int,
)
    requires
        0 <= id < registry.gauges.len(),
        registry.gauges[id].points.len() > 0,
    ensures
        ({
            let request = telemetry::metrics_request(registry, config, now);
            let gauge = registry.gauges[id];
            exists|k: int|
                0 <= k < metrics_in(request).len() && {
                    let metric = #[trigger] metrics_in(request)[k];
                    let points = reading::read_repeated(reading::read_bytes(metric, 5), 1);
                    &&& reading::read_string(metric, 1) == gauge.name
                    &&& reading::read_string(metric, 2) == gauge.description
                    &&& points.len() == gauge.points.len()
                    &&& forall|i: int| #![trigger points[i]]
                        0 <= i < points.len() ==> {
                            &&& reading::read_fixed64(points[i], 2) == config.start_time
                            &&& reading::read_fixed64(points[i], 3) == now
                            &&& reading::read_fixed64(points[i], 4) == gauge.points[i].value
                            &&& reading::tell_pairs(
                                reading::read_repeated(points[i], 7),
                                gauge.points[i].attrs,
                            )
                            &&& reading::tell_exemplar(
                                reading::read_repeated(points[i], 5),
                                gauge.points[i].exemplar,
                            )
                        }
                }
        }),
{
    let request = telemetry::metrics_request(registry, config, now);
    let snapshots = model::registry_snapshots(registry);
    let gauge = registry.gauges[id];
    lemma_metrics_request_is_told(registry, config, now);
    metrics_laws::lemma_gauge_given_out(registry, id);
    let k = choose|k: int|
        0 <= k < snapshots.len() && #[trigger] snapshots[k] == model::gauge_snapshot(gauge);
    let metric = metrics_in(request)[k];
    assert(reading::tells_metric(metric, snapshots[k], config.start_time, now));
    let points = reading::read_repeated(reading::read_bytes(metric, 5), 1);
    assert forall|i: int| #![trigger points[i]] 0 <= i < points.len() implies reading::tells_value(
        points[i],
        gauge.points[i],
        config.start_time,
        now,
    ) by {}
}

/// Every data point of a histogram is in the request, with its attributes, its count, sum, least
/// and greatest value, its buckets and their boundaries.
pub proof fn lemma_histogram_is_exported(
    registry: RegistryModel,
    config: MetricsExportConfig,
    now: u64,
    id: int,
)
    requires
        0 <= id < registry.histograms.len(),
        registry.histograms[id].metric.points.len() > 0,
    ensures
        ({
            let request = telemetry::metrics_request(registry, config, now);
            let histogram = registry.histograms[id];
            exists|k: int|
                0 <= k < metrics_in(request).len() && {
                    let metric = #[trigger] metrics_in(request)[k];
                    let body = reading::read_bytes(metric, 9);
                    let points = reading::read_repeated(body, 1);
                    &&& reading::read_string(metric, 1) == histogram.metric.name
                    &&& reading::read_string(metric, 2) == histogram.metric.description
                    &&& reading::read_varint(body, 2) == 2
                    &&& points.len() == histogram.metric.points.len()
                    &&& forall|i: int| #![trigger points[i]]
                        0 <= i < points.len() ==> {
                            let point = histogram.metric.points[i];
                            &&& reading::read_fixed64(points[i], 2) == config.start_time
                            &&& reading::read_fixed64(points[i], 3) == now
                            &&& reading::read_fixed64(points[i], 4) == point.value.count
                            &&& reading::read_fixed64(points[i], 5) == point.value.sum
                            &&& reading::unpacked(reading::read_bytes(points[i], 6))
                                == point.value.bucket_counts
                            &&& reading::unpacked(reading::read_bytes(points[i], 7))
                                == histogram.boundaries
                            &&& reading::read_fixed64(points[i], 11) == point.value.min
                            &&& reading::read_fixed64(points[i], 12) == point.value.max
                            &&& reading::tell_pairs(
                                reading::read_repeated(points[i], 9),
                                point.attrs,
                            )
                            &&& reading::tell_exemplar(
                                reading::read_repeated(points[i], 8),
                                point.exemplar,
                            )
                        }
                }
        }),
{
    let request = telemetry::metrics_request(registry, config, now);
    let snapshots = model::registry_snapshots(registry);
    let histogram = registry.histograms[id];
    lemma_metrics_request_is_told(registry, config, now);
    metrics_laws::lemma_histogram_given_out(registry, id);
    let k = choose|k: int|
        0 <= k < snapshots.len() && #[trigger] snapshots[k] == model::histogram_snapshot(
            histogram,
        );
    let metric = metrics_in(request)[k];
    assert(reading::tells_metric(metric, snapshots[k], config.start_time, now));
    let points = reading::read_repeated(reading::read_bytes(metric, 9), 1);
    assert forall|i: int| #![trigger points[i]] 0 <= i
        < points.len() implies reading::tells_distribution(
        points[i],
        histogram.metric.points[i],
        histogram.boundaries,
        config.start_time,
        now,
    ) by {}
}

} // verus!
