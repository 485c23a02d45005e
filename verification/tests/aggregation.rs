use metrique::aggregate::{
    Aggregate, AggregateStrategy, CloseValue, Key, KeyedAggregator, Merge, MergeRef, NoKey,
};
use metrique::entry::{Entry, EntryItem};
use metrique::flags::MetricFlags;
use metrique::float::Float;
use metrique::test_util::{test_metric, to_test_entry, Metric};
use metrique::unit::{NegativeScale, PositiveScale, Unit};
use metrique::value::{MetricCall, Observation, WrittenValue};

fn float(v: f64) -> Float {
    Float::new(
        v.to_bits(),
        |bits: u64| dtoa::Buffer::new().format_finite(f64::from_bits(bits)).to_owned(),
        |bits: u64| format!("{}", f64::from_bits(bits)),
    )
}

fn repeated(total: f64, occurrences: u64) -> Observation {
    Observation::repeated(float(total), occurrences, |bits: u64, n: u64| {
        float(f64::from_bits(bits) / n as f64)
    })
}

/// A call with a latency, of which the distribution is kept, and a size, of which the sum is.
struct ApiCall {
    latency_ms: u64,
    response_size: u64,
}

struct ClosedApiCall {
    latency_ms: u64,
    response_size: u64,
}

impl CloseValue for ApiCall {
    type Closed = ClosedApiCall;

    fn close(self) -> ClosedApiCall {
        ClosedApiCall { latency_ms: self.latency_ms, response_size: self.response_size }
    }
}

#[derive(Default)]
struct MergedApiCall {
    latencies: Vec<u64>,
    response_size: u64,
}

impl Merge for ClosedApiCall {
    type Merged = MergedApiCall;
    type MergeConfig = ();

    fn new_merged(_config: &()) -> MergedApiCall {
        MergedApiCall::default()
    }

    fn merge(accum: &mut MergedApiCall, input: ClosedApiCall) {
        ClosedApiCall::merge_ref(accum, &input);
    }
}

impl MergeRef for ClosedApiCall {
    fn merge_ref(accum: &mut MergedApiCall, input: &ClosedApiCall) {
        accum.latencies.push(input.latency_ms);
        accum.response_size += input.response_size;
    }
}

impl AggregateStrategy for ApiCall {
    type Source = ClosedApiCall;
    type Key = NoKey;
}

impl CloseValue for MergedApiCall {
    type Closed = ClosedCalls;

    fn close(self) -> ClosedCalls {
        ClosedCalls(self)
    }
}

struct ClosedCalls(MergedApiCall);

impl Entry for ClosedCalls {
    fn write(&self) -> Vec<EntryItem> {
        let mut latencies = self.0.latencies.clone();
        latencies.sort();
        let mut distribution: Vec<Observation> = vec![];
        let mut i = 0;
        while i < latencies.len() {
            let n = latencies.iter().filter(|l| **l == latencies[i]).count();
            distribution.push(repeated((latencies[i] * n as u64) as f64, n as u64));
            i += n;
        }
        vec![
            EntryItem::Value(
                "latency".to_owned(),
                WrittenValue::Metric(MetricCall {
                    distribution,
                    unit: Unit::Second(NegativeScale::Milli),
                    dimensions: vec![],
                    flags: MetricFlags::Distribution,
                }),
            ),
            EntryItem::Value(
                "response_size".to_owned(),
                WrittenValue::Metric(MetricCall {
                    distribution: vec![Observation::Unsigned(self.0.response_size)],
                    unit: Unit::Byte(PositiveScale::One),
                    dimensions: vec![],
                    flags: MetricFlags::Empty,
                }),
            ),
        ]
    }
}

fn totals(metric: &Metric) -> Vec<(f64, u64)> {
    metric
        .distribution
        .iter()
        .map(|o| match o {
            Observation::Repeated { total, occurrences, .. } => {
                (f64::from_bits(total.bits), *occurrences)
            }
            _ => panic!("not repeated"),
        })
        .collect()
}

// Shared fixture for the `insert_all` tests below.
fn sample_api_calls() -> Vec<ApiCall> {
    vec![
        ApiCall { latency_ms: 100, response_size: 50 },
        ApiCall { latency_ms: 100, response_size: 50 },
        ApiCall { latency_ms: 200, response_size: 75 },
        ApiCall { latency_ms: 150, response_size: 60 },
    ]
}

#[test]
fn test_insert_all_matches_insert() {
    let mut bulk = Aggregate::<ApiCall>::default();
    bulk.insert_all(sample_api_calls().into_iter());

    // Parity: the same entries inserted one at a time must yield the same aggregate.
    let mut one_at_a_time = Aggregate::<ApiCall>::default();
    for call in sample_api_calls() {
        one_at_a_time.insert(call);
    }

    let bulk = test_metric(bulk);
    let one_at_a_time = test_metric(one_at_a_time);
    assert_eq!(
        totals(bulk.metrics.index("latency")),
        totals(one_at_a_time.metrics.index("latency"))
    );
    assert_eq!(
        bulk.metrics.index("response_size").as_u64(),
        one_at_a_time.metrics.index("response_size").as_u64()
    );

    // Also pin to a literal so both paths are anchored to a known-correct value.
    assert_eq!(
        totals(bulk.metrics.index("latency")),
        vec![(200.0, 2), (150.0, 1), (200.0, 1)]
    );
    assert_eq!(bulk.metrics.index("response_size").as_u64(), 235);
    assert_eq!(bulk.metrics.index("response_size").unit, Unit::Byte(PositiveScale::One));
    assert_eq!(bulk.metrics.index("latency").unit, Unit::Second(NegativeScale::Milli));
}

#[test]
fn test_insert_all_accumulates_into_existing() {
    let mut agg = Aggregate::<ApiCall>::default();
    agg.insert(ApiCall { latency_ms: 100, response_size: 50 });
    agg.insert_all(sample_api_calls().into_iter());

    let entry = test_metric(agg);
    // One seeded entry (50) plus the four from the fixture (50+50+75+60 = 235).
    assert_eq!(entry.metrics.index("response_size").as_u64(), 285);
    // Five observations total: the histogram must include the seeded one.
    assert_eq!(entry.metrics.index("latency").num_observations(), 5);
}

#[test]
fn test_insert_all_accepts_lazy_iterator() {
    let mut agg = Aggregate::<ApiCall>::default();
    agg.insert_all((1..=3).map(|ms| ApiCall { latency_ms: ms, response_size: ms }));

    let entry = test_metric(agg);
    assert_eq!(entry.metrics.index("response_size").as_u64(), 6);
    assert_eq!(entry.metrics.index("latency").num_observations(), 3);
}

#[test]
fn test_insert_all_empty_iterator_is_noop() {
    // An empty iterator must leave already-accumulated contents untouched.
    let mut agg = Aggregate::<ApiCall>::default();
    agg.insert(ApiCall { latency_ms: 100, response_size: 42 });
    agg.insert_all(std::iter::empty());

    let entry = test_metric(agg);
    assert_eq!(entry.metrics.index("response_size").as_u64(), 42);
    assert_eq!(entry.metrics.index("latency").num_observations(), 1);
}

struct RequestMetrics {
    api_calls: Aggregate<ApiCall>,
    request_id: String,
}

struct ClosedRequest {
    api_calls: ClosedCalls,
    request_id: String,
}

impl CloseValue for RequestMetrics {
    type Closed = ClosedRequest;

    fn close(self) -> ClosedRequest {
        ClosedRequest { api_calls: self.api_calls.close(), request_id: self.request_id }
    }
}

impl Entry for ClosedRequest {
    fn write(&self) -> Vec<EntryItem> {
        let mut items: Vec<EntryItem> = vec![];
        for item in self.api_calls.write() {
            items.push(match item {
                EntryItem::Value(name, value) if name == "latency" => {
                    EntryItem::Value("Latency".to_owned(), value)
                }
                EntryItem::Value(_, value) => EntryItem::Value("ResponseSize".to_owned(), value),
                other => other,
            });
        }
        items.push(EntryItem::Value(
            "RequestId".to_owned(),
            WrittenValue::Text(self.request_id.clone()),
        ));
        items
    }
}

#[test]
fn test_macro_aggregation() {
    let mut metrics =
        RequestMetrics { api_calls: Aggregate::default(), request_id: "1234".to_string() };
    metrics.api_calls.insert(ApiCall { latency_ms: 100, response_size: 50 });
    metrics.api_calls.insert(ApiCall { latency_ms: 100, response_size: 50 });
    metrics.api_calls.insert(ApiCall { latency_ms: 200, response_size: 75 });
    metrics.api_calls.insert(ApiCall { latency_ms: 150, response_size: 60 });

    let entry = test_metric(metrics);
    assert_eq!(
        totals(entry.metrics.index("Latency")),
        vec![(200.0, 2), (150.0, 1), (200.0, 1)]
    );
    assert_eq!(entry.metrics.index("ResponseSize").as_u64(), 235);
    assert_eq!(entry.metrics.index("ResponseSize").unit, Unit::Byte(PositiveScale::One));
    assert_eq!(entry.metrics.index("Latency").unit, Unit::Second(NegativeScale::Milli));
    assert_eq!(entry.values.index("RequestId"), "1234");
}

struct CountDirect {
    count: u64,
}

impl Merge for CountDirect {
    type Merged = u64;
    type MergeConfig = ();

    fn new_merged(_config: &()) -> u64 {
        0
    }

    fn merge(accum: &mut u64, input: CountDirect) {
        *accum += input.count;
    }
}

impl AggregateStrategy for CountDirect {
    type Source = CountDirect;
    type Key = NoKey;
}

#[test]
fn test_insert_all_direct() {
    // `insert_all_direct` merges source values without closing, exactly as repeated
    // `insert_direct` would.
    let mut agg = Aggregate::<CountDirect>::default();
    agg.insert_all_direct((1..=4).map(|count| CountDirect { count }));
    assert_eq!(agg.into_merged(), 10); // 1 + 2 + 3 + 4
}

/// Keeps the last value that there is.
struct LastWins {
    value: Option<String>,
}

impl Merge for LastWins {
    type Merged = Option<String>;
    type MergeConfig = ();

    fn new_merged(_config: &()) -> Option<String> {
        None
    }

    fn merge(accum: &mut Option<String>, input: LastWins) {
        if input.value.is_some() {
            *accum = input.value;
        }
    }
}

impl AggregateStrategy for LastWins {
    type Source = LastWins;
    type Key = NoKey;
}

impl CloseValue for LastWins {
    type Closed = LastWins;

    fn close(self) -> LastWins {
        self
    }
}

#[test]
fn test_insert_all_preserves_iteration_order() {
    // With an order-sensitive strategy, `insert_all` must apply entries in iteration order so
    // the last one wins.
    let mut agg = Aggregate::<LastWins>::default();
    agg.insert_all(
        ["first", "second", "third"].into_iter().map(|s| LastWins { value: Some(s.to_string()) }),
    );
    assert_eq!(agg.into_merged(), Some("third".to_string()));
}

#[test]
fn last_value_wins() {
    let mut agg = Aggregate::<LastWins>::default();
    agg.insert(LastWins { value: Some("first".to_string()) });
    agg.insert(LastWins { value: Some("second".to_string()) });
    agg.insert(LastWins { value: None });
    assert_eq!(agg.into_merged(), Some("second".to_string()));
}

/// A call whose latency is aggregated as it is, without being closed.
struct ApiCallDirect {
    latency_ms: u64,
}

#[derive(Default)]
struct Latencies(Vec<u64>);

impl Merge for ApiCallDirect {
    type Merged = Latencies;
    type MergeConfig = ();

    fn new_merged(_config: &()) -> Latencies {
        Latencies::default()
    }

    fn merge(accum: &mut Latencies, input: ApiCallDirect) {
        accum.0.push(input.latency_ms);
    }
}

impl AggregateStrategy for ApiCallDirect {
    type Source = ApiCallDirect;
    type Key = NoKey;
}

impl CloseValue for Latencies {
    type Closed = Latencies;

    fn close(self) -> Latencies {
        self
    }
}

struct RequestMetricsDirect {
    api_calls: Aggregate<ApiCallDirect>,
    request_id: String,
}

struct ClosedRequestDirect {
    api_calls: Latencies,
    request_id: String,
}

impl CloseValue for RequestMetricsDirect {
    type Closed = ClosedRequestDirect;

    fn close(self) -> ClosedRequestDirect {
        ClosedRequestDirect { api_calls: self.api_calls.close(), request_id: self.request_id }
    }
}

impl Entry for ClosedRequestDirect {
    fn write(&self) -> Vec<EntryItem> {
        vec![
            EntryItem::Value(
                "Latency".to_owned(),
                WrittenValue::Metric(MetricCall {
                    distribution: self
                        .api_calls
                        .0
                        .iter()
                        .map(|ms| Observation::Unsigned(*ms))
                        .collect(),
                    unit: Unit::Second(NegativeScale::Milli),
                    dimensions: vec![],
                    flags: MetricFlags::Distribution,
                }),
            ),
            EntryItem::Value(
                "RequestId".to_owned(),
                WrittenValue::Text(self.request_id.clone()),
            ),
        ]
    }
}

#[test]
fn test_macro_aggregation_with_multiple_keys() {
    let mut metrics =
        RequestMetricsDirect { api_calls: Aggregate::default(), request_id: "9999".to_string() };
    metrics.api_calls.insert_direct(ApiCallDirect { latency_ms: 30 });
    metrics.api_calls.insert_direct(ApiCallDirect { latency_ms: 45 });

    let entry = test_metric(metrics);
    assert_eq!(entry.values.index("RequestId"), "9999");
    assert_eq!(entry.metrics.index("Latency").num_observations(), 2);
}

#[test]
fn an_aggregate_is_closed_to_what_its_contents_are() {
    let start = || Counts(vec![3, 4]);
    assert_eq!(Aggregate::<Keyed>::new(start()).close().0, start().close().0);
    assert_eq!(Aggregate::<Keyed>::new(start()).into_merged(), start());
}

#[test]
fn entries_are_sent_on() {
    let mut agg = Aggregate::<ApiCall>::default();
    let sent = agg.insert_and_send_to(ApiCall { latency_ms: 3, response_size: 4 });
    assert_eq!((sent.latency_ms, sent.response_size), (3, 4));
    agg.merge_ref(&sent);
    let merged = agg.into_merged();
    assert_eq!((merged.latencies, merged.response_size), (vec![3, 3], 8));
}

struct Keyed {
    endpoint: String,
    count: u64,
}

/// The counts that were merged, after the number that merging started with.
#[derive(Debug, PartialEq)]
struct Counts(Vec<u64>);

impl Merge for Keyed {
    type Merged = Counts;
    type MergeConfig = u64;

    fn new_merged(config: &u64) -> Counts {
        Counts(vec![*config])
    }

    fn merge(accum: &mut Counts, input: Keyed) {
        Keyed::merge_ref(accum, &input);
    }
}

impl MergeRef for Keyed {
    fn merge_ref(accum: &mut Counts, input: &Keyed) {
        accum.0.push(input.count);
    }
}

fn natural(v: u64) -> WrittenValue {
    WrittenValue::Metric(MetricCall {
        distribution: vec![Observation::Unsigned(v)],
        unit: Unit::NoUnit,
        dimensions: vec![],
        flags: MetricFlags::Empty,
    })
}

/// The sum of the counts.
struct Sum(u64);

impl CloseValue for Counts {
    type Closed = Sum;

    fn close(self) -> Sum {
        Sum(self.0.into_iter().sum())
    }
}

impl Entry for Sum {
    fn write(&self) -> Vec<EntryItem> {
        vec![EntryItem::Value("sum".to_owned(), natural(self.0))]
    }
}

/// The key of a call: a string, and a number that is a metric in the output.
#[derive(Debug, PartialEq)]
struct EndpointKey {
    endpoint: String,
    version: u64,
}

impl CloseValue for EndpointKey {
    type Closed = ClosedKey;

    fn close(self) -> ClosedKey {
        ClosedKey(self)
    }
}

struct ClosedKey(EndpointKey);

impl Entry for ClosedKey {
    fn write(&self) -> Vec<EntryItem> {
        vec![
            EntryItem::Value(
                "endpoint".to_owned(),
                WrittenValue::Text(self.0.endpoint.clone()),
            ),
            EntryItem::Value("version".to_owned(), natural(self.0.version)),
        ]
    }
}

struct ByEndpoint;

impl Key<Keyed> for ByEndpoint {
    type Key = EndpointKey;

    fn from_source(source: &Keyed) -> EndpointKey {
        EndpointKey { endpoint: source.endpoint.clone(), version: 2 }
    }

    fn identity(source: &Keyed) -> Vec<(String, String)> {
        vec![("endpoint".to_owned(), source.endpoint.clone())]
    }
}

impl AggregateStrategy for Keyed {
    type Source = Keyed;
    type Key = ByEndpoint;
}

#[test]
fn each_key_has_its_own_aggregate() {
    let mut keyed: KeyedAggregator<Keyed> = KeyedAggregator::new_with_config(7);
    for (endpoint, count) in [("b", 1), ("a", 2), ("b", 3), ("a", 4)] {
        keyed.merge(Keyed { endpoint: endpoint.to_owned(), count });
    }
    keyed.merge_ref(&Keyed { endpoint: "c".to_owned(), count: 5 });
    let results = keyed.flush();
    let flushed: Vec<(String, u64)> =
        results.iter().map(|r| (r.key.0.endpoint.clone(), r.aggregated.0)).collect();
    assert_eq!(
        flushed,
        vec![("b".to_owned(), 11), ("a".to_owned(), 13), ("c".to_owned(), 12)]
    );
    // key and aggregate make up one entry
    let entry = to_test_entry(&results[1]);
    assert_eq!(entry.values.index("endpoint"), "a");
    assert_eq!(entry.metrics.index("version").as_u64(), 2);
    assert_eq!(entry.metrics.index("sum").as_u64(), 13);
    // nothing is left, and a key starts anew
    assert!(keyed.flush().is_empty());
    keyed.merge(Keyed { endpoint: "a".to_owned(), count: 9 });
    assert_eq!(keyed.flush()[0].aggregated.0, 16);
}
