use metrics_exporter_prometheus_write::batcher::{
    Action, Builder, Command, Event, MetricOperation, MetricType, Worker,
};
use metrics_exporter_prometheus_write::key::{Label, MetricKey};
use metrics_exporter_prometheus_write::push::{compress, payload, rejection, PushError, Rejection};
use metrics_exporter_prometheus_write::request::{time_series, write_request, WriteRequest};
use metrics_exporter_prometheus_write::sample::Sample;
use metrics_exporter_prometheus_write::store::Series;
use std::time::Duration;

fn label(name: &str, value: &str) -> Label {
    Label { name: name.to_string(), value: value.to_string() }
}

fn key(name: &str, labels: &[(&str, &str)]) -> MetricKey {
    MetricKey::new(name.to_string(), labels.iter().map(|(n, v)| label(n, v)).collect())
}

fn operation(timestamp: i64, name: &str, op: MetricOperation) -> Event {
    Event::Command(Command::Operation(timestamp, key(name, &[]), op))
}

fn listed(request: &WriteRequest) -> Vec<(Vec<(String, String)>, Vec<(i64, i64)>)> {
    request
        .timeseries
        .iter()
        .map(|t| {
            (
                t.labels.iter().map(|l| (l.name.clone(), l.value.clone())).collect(),
                t.samples.iter().map(|s| (s.timestamp, s.value)).collect(),
            )
        })
        .collect()
}

fn named(name: &str) -> Vec<(String, String)> {
    vec![("__name__".to_string(), name.to_string())]
}

#[test]
fn builder_defaults_to_a_tenth_of_a_second() {
    assert_eq!(Builder::new().interval(), Duration::from_millis(100));
    assert_eq!(Builder::default().interval(), Duration::from_millis(100));
}

#[test]
fn builder_takes_another_interval() {
    let builder = Builder::new().tick_interval(Duration::from_millis(200));
    assert_eq!(builder.interval(), Duration::from_millis(200));
    assert_eq!(builder.clone().interval(), Duration::from_millis(200));
    let builder = builder.tick_interval(Duration::from_secs(3));
    assert_eq!(builder.interval(), Duration::from_millis(3000));
}

#[test]
fn histograms_are_not_supported() {
    assert!(MetricType::Counter.is_supported());
    assert!(MetricType::Gauge.is_supported());
    assert!(!MetricType::Histogram.is_supported());
}

#[test]
fn describe_makes_a_metadata_command() {
    let command = Command::describe(
        "hits".to_string(),
        MetricType::Counter,
        Some("count".to_string()),
        "Number of hits".to_string(),
    );
    match command {
        Command::Metadata(name, kind, unit, description) => {
            assert_eq!(name, "hits");
            assert_eq!(kind, MetricType::Counter);
            assert_eq!(unit, Some("count".to_string()));
            assert_eq!(description, "Number of hits");
        }
        Command::Operation(..) => panic!("not a description"),
    }
}

#[test]
fn time_series_names_the_metric_first() {
    let series = Series {
        key: key("hits", &[("code", "200"), ("method", "GET")]),
        samples: vec![Sample { value: 1, timestamp: 10 }, Sample { value: 3, timestamp: 20 }],
    };
    let t = time_series(&series);
    assert_eq!(
        t.labels,
        vec![label("__name__", "hits"), label("code", "200"), label("method", "GET")]
    );
    assert_eq!(
        t.samples,
        vec![Sample { value: 1, timestamp: 10 }, Sample { value: 3, timestamp: 20 }]
    );
}

#[test]
fn write_request_keeps_the_order_of_the_series() {
    let series = vec![
        Series { key: key("b", &[]), samples: vec![Sample { value: 1, timestamp: 1 }] },
        Series { key: key("a", &[("x", "y")]), samples: vec![] },
    ];
    let request = write_request(&series);
    assert_eq!(
        listed(&request),
        vec![
            (named("b"), vec![(1, 1)]),
            (
                vec![
                    ("__name__".to_string(), "a".to_string()),
                    ("x".to_string(), "y".to_string())
                ],
                vec![]
            ),
        ]
    );
    assert!(write_request(&vec![]).timeseries.is_empty());
}

#[test]
fn commands_wait_and_ticks_push() {
    let mut worker = Worker::new();
    assert!(matches!(
        worker.handle(operation(100, "hits", MetricOperation::IncrementCounter(1))),
        Action::Wait
    ));
    assert!(matches!(
        worker.handle(operation(200, "hits", MetricOperation::IncrementCounter(1))),
        Action::Wait
    ));
    assert!(matches!(
        worker.handle(operation(150, "load", MetricOperation::SetGauge(-3))),
        Action::Wait
    ));
    match worker.handle(Event::Tick) {
        Action::Push(request) => assert_eq!(
            listed(&request),
            vec![(named("hits"), vec![(100, 1), (200, 2)]), (named("load"), vec![(150, -3)])]
        ),
        Action::Wait => panic!("a tick pushes"),
    }
    match worker.handle(Event::Tick) {
        Action::Push(request) => assert_eq!(
            listed(&request),
            vec![(named("hits"), vec![(200, 2)]), (named("load"), vec![(150, -3)])]
        ),
        Action::Wait => panic!("a tick pushes"),
    }
}

#[test]
fn a_tick_on_an_empty_registry_pushes_an_empty_request() {
    let mut worker = Worker::new();
    match worker.handle(Event::Tick) {
        Action::Push(request) => assert!(request.timeseries.is_empty()),
        Action::Wait => panic!("a tick pushes"),
    }
}

#[test]
fn descriptions_and_a_closed_channel_change_nothing() {
    let mut worker = Worker::new();
    worker.handle(operation(1, "hits", MetricOperation::IncrementCounter(4)));
    let described = Command::describe(
        "hits".to_string(),
        MetricType::Counter,
        None,
        "Number of hits".to_string(),
    );
    assert!(matches!(worker.handle(Event::Command(described)), Action::Wait));
    assert!(matches!(worker.handle(Event::Closed), Action::Wait));
    assert_eq!(worker.registry().counters.len(), 1);
    assert_eq!(worker.registry().gauges.len(), 0);
    match worker.handle(Event::Tick) {
        Action::Push(request) => {
            assert_eq!(listed(&request), vec![(named("hits"), vec![(1, 4)])])
        }
        Action::Wait => panic!("a tick pushes"),
    }
}

#[test]
fn every_operation_reaches_its_store() {
    let mut worker = Worker::new();
    worker.apply(10, key("c", &[]), MetricOperation::IncrementCounter(5));
    worker.apply(10, key("c", &[]), MetricOperation::SetCounter(7));
    worker.apply(20, key("c", &[]), MetricOperation::IncrementCounter(u64::MAX));
    worker.apply(10, key("g", &[]), MetricOperation::IncrementGauge(5));
    worker.apply(20, key("g", &[]), MetricOperation::DecrementGauge(8));
    worker.apply(30, key("g", &[]), MetricOperation::SetGauge(100));
    worker.apply(5, key("g", &[]), MetricOperation::SetGauge(1));
    let request = worker.flush();
    assert_eq!(
        listed(&request),
        vec![
            (named("c"), vec![(10, 7), (20, i64::MAX)]),
            (named("g"), vec![(10, 5), (20, -3), (30, 100)]),
        ]
    );
    let request = worker.flush();
    assert_eq!(
        listed(&request),
        vec![(named("c"), vec![(20, i64::MAX)]), (named("g"), vec![(30, 100)])]
    );
}

#[test]
fn flushed_total_counts_every_increment() {
    let mut worker = Worker::new();
    let mut total = 0i64;
    for (n, timestamp) in [500i64, 100, 300, 200, 400, 50, 600].iter().enumerate() {
        let delta = (n as u64 + 1) * 3;
        worker.handle(operation(*timestamp, "jobs", MetricOperation::IncrementCounter(delta)));
        total += delta as i64;
        if n == 2 {
            worker.handle(Event::Tick);
        }
    }
    match worker.handle(Event::Tick) {
        Action::Push(request) => {
            assert_eq!(listed(&request), vec![(named("jobs"), vec![(600, total)])]);
            assert_eq!(total, 84);
        }
        Action::Wait => panic!("a tick pushes"),
    }
}

#[test]
fn compression_gives_a_snappy_block() {
    assert_eq!(compress(&vec![]), Ok(vec![0]));
    assert_eq!(
        compress(&b"hello".to_vec()),
        Ok(vec![5, 0x10, b'h', b'e', b'l', b'l', b'o'])
    );
    let input: Vec<u8> = (0..4000u32).map(|i| (i % 7) as u8).collect();
    let block = compress(&input).unwrap();
    assert!(block.len() < input.len());
    assert_ne!(block, input);
    assert_eq!(snap::raw::Decoder::new().decompress_vec(&block).unwrap(), input);
}

#[test]
fn a_failed_compression_abandons_the_flush() {
    let too_big = snap::Error::TooBig { given: 1 << 33, max: u32::MAX as u64 };
    assert_eq!(payload(Err(too_big)), Err(PushError::TooBig));
    assert_eq!(payload(Ok(vec![1, 2, 3])), Ok(vec![1, 2, 3]));
}

#[test]
fn error_statuses_are_rejections() {
    assert_eq!(rejection(200), None);
    assert_eq!(rejection(204), None);
    assert_eq!(rejection(302), None);
    assert_eq!(rejection(399), None);
    assert_eq!(rejection(400), Some(Rejection::Client));
    assert_eq!(rejection(404), Some(Rejection::Client));
    assert_eq!(rejection(499), Some(Rejection::Client));
    assert_eq!(rejection(500), Some(Rejection::Server));
    assert_eq!(rejection(503), Some(Rejection::Server));
    assert_eq!(rejection(599), Some(Rejection::Server));
    assert_eq!(rejection(600), None);
    assert_eq!(rejection(0), None);
    assert_eq!(rejection(u16::MAX), None);
}
