use metrics_exporter_prometheus_write::sample::{saturating_sum, Sample, Samples};

fn pairs(samples: &Samples) -> Vec<(i64, i64)> {
    samples.all().iter().map(|s| (s.timestamp, s.value)).collect()
}

#[test]
fn sample_duplicate() {
    let mut samples = Samples::new(Sample {
        value: 1,
        timestamp: 100,
    });
    assert_eq!(samples.all().len(), 1);
    assert_eq!(samples.all()[0].value, 1);

    samples.increment(Sample {
        value: 1,
        timestamp: 200,
    });
    assert_eq!(samples.all().len(), 2);
    assert_eq!(samples.all()[1].value, 2);

    // this should overwrite the last value given it has the same timestamp.
    samples.set(Sample {
        value: 10,
        timestamp: 200,
    });
    assert_eq!(samples.all().len(), 2);
    assert_eq!(samples.all()[1].value, 10);
}

#[test]
fn sample_set_out_of_order() {
    let mut samples = Samples::new(Sample {
        value: 1,
        timestamp: 100,
    });

    samples.set(Sample {
        value: 2,
        timestamp: 200,
    });
    assert_eq!(samples.all()[1].value, 2);
    assert_eq!(samples.all()[1].timestamp, 200);

    // samples older than the latest sample should be ignored
    samples.set(Sample {
        value: 3,
        timestamp: 100,
    });
    assert_eq!(samples.all()[1].value, 2);
    assert_eq!(samples.all()[1].timestamp, 200);
}

#[test]
fn sample_increment_out_of_order() {
    let mut samples = Samples::new(Sample {
        value: 1,
        timestamp: 100,
    });

    samples.increment(Sample {
        value: 1,
        timestamp: 200,
    });
    assert_eq!(samples.all()[1].value, 2);
    assert_eq!(samples.all()[1].timestamp, 200);

    // old samples should be ignored but the total will still be incremented
    samples.increment(Sample {
        value: 1,
        timestamp: 100,
    });
    assert_eq!(samples.all()[1].value, 3);
    assert_eq!(samples.all()[1].timestamp, 200);
}

#[test]
fn new_stream_holds_its_sample_unsent() {
    let samples = Samples::new(Sample { value: 7, timestamp: 5 });
    assert_eq!(pairs(&samples), vec![(5, 7)]);
    assert!(!samples.is_sent());
}

#[test]
fn increments_then_set_at_same_timestamp() {
    let mut samples = Samples::new(Sample { value: 1, timestamp: 100 });
    assert_eq!(pairs(&samples), vec![(100, 1)]);
    samples.increment(Sample { value: 1, timestamp: 200 });
    assert_eq!(pairs(&samples), vec![(100, 1), (200, 2)]);
    samples.set(Sample { value: 10, timestamp: 200 });
    assert_eq!(pairs(&samples), vec![(100, 1), (200, 10)]);
}

#[test]
fn stale_set_changes_nothing() {
    let mut samples = Samples::new(Sample { value: 1, timestamp: 100 });
    samples.set(Sample { value: 2, timestamp: 200 });
    assert_eq!(pairs(&samples), vec![(100, 1), (200, 2)]);
    samples.set(Sample { value: 3, timestamp: 100 });
    assert_eq!(pairs(&samples), vec![(100, 1), (200, 2)]);
    samples.set(Sample { value: 3, timestamp: 199 });
    assert_eq!(pairs(&samples), vec![(100, 1), (200, 2)]);
    assert!(!samples.is_sent());
}

#[test]
fn stale_increment_folds_into_last_sample() {
    let mut samples = Samples::new(Sample { value: 1, timestamp: 100 });
    samples.increment(Sample { value: 1, timestamp: 200 });
    assert_eq!(pairs(&samples), vec![(100, 1), (200, 2)]);
    samples.increment(Sample { value: 1, timestamp: 100 });
    assert_eq!(pairs(&samples), vec![(100, 1), (200, 3)]);
    samples.increment(Sample { value: 4, timestamp: 200 });
    assert_eq!(pairs(&samples), vec![(100, 1), (200, 7)]);
}

#[test]
fn increasing_increments_hold_running_sums() {
    let deltas = [3i64, 5, -2, 10, 1];
    let mut samples = Samples::new(Sample { value: deltas[0], timestamp: 1000 });
    for (i, delta) in deltas.iter().enumerate().skip(1) {
        samples.increment(Sample { value: *delta, timestamp: 1000 + 10 * i as i64 });
    }
    assert_eq!(
        pairs(&samples),
        vec![(1000, 3), (1010, 8), (1020, 6), (1030, 16), (1040, 17)]
    );
}

#[test]
fn sent_keeps_only_the_last_sample() {
    let mut samples = Samples::new(Sample { value: 1, timestamp: 100 });
    samples.increment(Sample { value: 2, timestamp: 200 });
    samples.increment(Sample { value: 3, timestamp: 300 });
    assert_eq!(pairs(&samples), vec![(100, 1), (200, 3), (300, 6)]);
    samples.sent();
    assert!(samples.is_sent());
    assert_eq!(pairs(&samples), vec![(300, 6)]);
    samples.sent();
    assert!(samples.is_sent());
    assert_eq!(pairs(&samples), vec![(300, 6)]);
}

#[test]
fn newer_increment_after_sent_starts_a_new_window() {
    let mut samples = Samples::new(Sample { value: 1, timestamp: 100 });
    samples.increment(Sample { value: 2, timestamp: 200 });
    samples.sent();
    samples.increment(Sample { value: 5, timestamp: 300 });
    assert!(!samples.is_sent());
    assert_eq!(pairs(&samples), vec![(300, 8)]);
    samples.increment(Sample { value: 1, timestamp: 400 });
    assert_eq!(pairs(&samples), vec![(300, 8), (400, 9)]);
}

#[test]
fn stale_increment_after_sent_folds_and_stays_sent() {
    let mut samples = Samples::new(Sample { value: 1, timestamp: 100 });
    samples.increment(Sample { value: 2, timestamp: 200 });
    samples.sent();
    samples.increment(Sample { value: 5, timestamp: 150 });
    assert!(samples.is_sent());
    assert_eq!(pairs(&samples), vec![(200, 8)]);
}

#[test]
fn set_after_sent() {
    let mut samples = Samples::new(Sample { value: 1, timestamp: 100 });
    samples.sent();
    samples.set(Sample { value: 9, timestamp: 50 });
    assert!(samples.is_sent());
    assert_eq!(pairs(&samples), vec![(100, 1)]);
    samples.set(Sample { value: 9, timestamp: 100 });
    assert!(samples.is_sent());
    assert_eq!(pairs(&samples), vec![(100, 9)]);
    samples.set(Sample { value: 4, timestamp: 101 });
    assert!(!samples.is_sent());
    assert_eq!(pairs(&samples), vec![(101, 4)]);
}

#[test]
fn total_survives_flushes_and_disorder() {
    let mut samples = Samples::new(Sample { value: 1, timestamp: 100 });
    let mut total = 1i64;
    let steps = [(300i64, 2i64), (200, 3), (400, 4), (50, 5)];
    for (n, (timestamp, delta)) in steps.iter().enumerate() {
        samples.increment(Sample { value: *delta, timestamp: *timestamp });
        total += delta;
        if n == 1 {
            samples.sent();
        }
        assert_eq!(samples.all().last().unwrap().value, total);
    }
    assert_eq!(total, 15);
    assert_eq!(pairs(&samples), vec![(400, 15)]);
}

#[test]
fn values_saturate() {
    assert_eq!(saturating_sum(i64::MAX, 1), i64::MAX);
    assert_eq!(saturating_sum(i64::MIN, -1), i64::MIN);
    assert_eq!(saturating_sum(i64::MAX, i64::MIN), -1);
    assert_eq!(saturating_sum(40, 2), 42);
    assert_eq!(saturating_sum(-40, 2), -38);
    let mut samples = Samples::new(Sample { value: i64::MAX - 1, timestamp: 1 });
    samples.increment(Sample { value: 5, timestamp: 1 });
    assert_eq!(pairs(&samples), vec![(1, i64::MAX)]);
    samples.increment(Sample { value: 5, timestamp: 2 });
    assert_eq!(pairs(&samples), vec![(1, i64::MAX), (2, i64::MAX)]);
}
