use crackle_runtime::{TaskOutput, ThermalProfile};
use iii_observability::{RecordError, ServiceMetrics};

/// A fired service snapshot: the kiln entry's metrics.
struct Fired {
    label: String,
    output: TaskOutput<()>,
}

fn snap(latency_ms: f64, error_rate: f64, throughput: f64, queue_depth: f64) -> Fired {
    Fired {
        label: format!("svc/{}", latency_ms),
        output: TaskOutput::new(
            (),
            vec![
                ("latency_ms".into(), latency_ms),
                ("error_rate".into(), error_rate),
                ("throughput".into(), throughput),
                ("queue_depth".into(), queue_depth),
            ],
        ),
    }
}

trait RecordFired {
    fn put(&mut self, f: Fired) -> Result<(), RecordError>;
}

impl RecordFired for ServiceMetrics {
    fn put(&mut self, f: Fired) -> Result<(), RecordError> {
        self.record(&f.label, f.output)
    }
}

#[test]
fn test_record_and_count() {
    let mut metrics = ServiceMetrics::new("test-svc");
    assert_eq!(metrics.count(), 0);
    metrics.put(snap(50.0, 0.01, 1000.0, 5.0)).unwrap();
    assert_eq!(metrics.count(), 1);
    metrics.put(snap(55.0, 0.02, 950.0, 8.0)).unwrap();
    assert_eq!(metrics.count(), 2);
}

#[test]
fn test_cool_detects_patterns() {
    let mut metrics = ServiceMetrics::new("test-svc");
    for i in 0..10 {
        let latency = 50.0 + (i as f64 * 5.0);
        metrics.put(snap(latency, 0.01, 1000.0, 5.0)).unwrap();
    }
    let patterns = metrics.cool();
    assert!(!patterns.is_empty(), "expected at least one pattern");
}

#[test]
fn test_reset() {
    let mut metrics = ServiceMetrics::new("test-svc");
    metrics.put(snap(50.0, 0.01, 1000.0, 5.0)).unwrap();
    metrics.reset();
    assert_eq!(metrics.count(), 0);
}

#[test]
fn test_service_name() {
    let metrics = ServiceMetrics::new("api-gateway");
    assert_eq!(metrics.service_name(), "api-gateway");
}

#[test]
fn test_with_profile() {
    let metrics = ServiceMetrics::with_profile("slow-svc", ThermalProfile::slow_cooling());
    assert_eq!(metrics.service_name(), "slow-svc");
}

#[test]
fn test_multiple_services() {
    let mut svc1 = ServiceMetrics::new("api");
    let mut svc2 = ServiceMetrics::new("worker");
    svc1.put(snap(10.0, 0.0, 500.0, 0.0)).unwrap();
    svc2.put(snap(100.0, 0.05, 50.0, 100.0)).unwrap();
    assert_eq!(svc1.service_name(), "api");
    assert_eq!(svc2.service_name(), "worker");
    assert_eq!(svc1.count(), 1);
    assert_eq!(svc2.count(), 1);
}

#[test]
fn test_large_batch() {
    let mut metrics = ServiceMetrics::new("batch-test");
    for i in 0..100 {
        metrics.put(snap(50.0 + (i as f64).sin() * 10.0, 0.01, 1000.0, 5.0)).unwrap();
    }
    assert_eq!(metrics.count(), 100);
}

#[test]
fn test_cool_then_reject_records() {
    let mut metrics = ServiceMetrics::new("test");
    metrics.put(snap(50.0, 0.01, 1000.0, 5.0)).unwrap();
    let _patterns = metrics.cool();
    let result = metrics.put(snap(60.0, 0.02, 900.0, 8.0));
    assert!(result.is_err(), "recording after cool should fail");
}

#[test]
fn test_reset_after_cool() {
    let mut metrics = ServiceMetrics::new("test");
    metrics.put(snap(50.0, 0.01, 1000.0, 5.0)).unwrap();
    let _patterns = metrics.cool();
    metrics.reset();
    assert_eq!(metrics.count(), 0);
    metrics.put(snap(60.0, 0.02, 900.0, 8.0)).unwrap();
    assert_eq!(metrics.count(), 1);
}

#[test]
fn test_clone_and_independence() {
    let mut a = ServiceMetrics::new("svc");
    a.put(snap(10.0, 0.0, 100.0, 0.0)).unwrap();
    let b_count = a.count();
    a.put(snap(20.0, 0.01, 90.0, 1.0)).unwrap();
    assert_eq!(a.count(), 2);
    assert_eq!(b_count, 1);
}

// ---- Further cases ----

#[test]
fn refused_record_leaves_collector_unchanged() {
    let mut metrics = ServiceMetrics::new("svc");
    metrics.put(snap(1.0, 0.0, 1.0, 0.0)).unwrap();
    metrics.put(snap(2.0, 0.0, 1.0, 0.0)).unwrap();
    let _ = metrics.cool();
    assert_eq!(metrics.put(snap(3.0, 0.0, 1.0, 0.0)), Err(RecordError::KilnCooled));
    assert_eq!(metrics.count(), 2);
    assert!(metrics.kiln().is_cooled());
    assert_eq!(metrics.kiln().task_count(), 2);
    let labels: Vec<&str> = metrics.kiln().entries().iter().map(|e| e.label.as_str()).collect();
    assert_eq!(labels, vec!["svc/1", "svc/2"]);
}

#[test]
fn cool_keeps_count() {
    let mut metrics = ServiceMetrics::new("svc");
    for i in 0..3 {
        metrics.put(snap(i as f64, 0.0, 1.0, 0.0)).unwrap();
    }
    let _ = metrics.cool();
    assert_eq!(metrics.count(), 3);
    metrics.reset();
    assert!(!metrics.kiln().is_cooled());
    assert_eq!(metrics.service_name(), "svc");
}

#[test]
fn too_few_snapshots_give_no_patterns() {
    // fast cooling needs two entries, slow cooling five
    let mut fast = ServiceMetrics::new("fast");
    fast.put(snap(50.0, 0.01, 1000.0, 5.0)).unwrap();
    assert!(fast.cool().is_empty());
    let mut slow = ServiceMetrics::with_profile("slow", ThermalProfile::slow_cooling());
    for i in 0..4 {
        slow.put(snap(50.0 + 40.0 * i as f64, 0.01 * i as f64, 1000.0, 5.0)).unwrap();
    }
    assert!(slow.cool().is_empty());
}

#[test]
fn profile_is_kept() {
    let mut m = ServiceMetrics::with_profile("slow", ThermalProfile::slow_cooling());
    assert_eq!(m.kiln().profile().rate, crackle_runtime::CoolingRate::Slow);
    m.put(snap(1.0, 0.0, 1.0, 0.0)).unwrap();
    let _ = m.cool();
    m.reset();
    assert_eq!(m.kiln().profile().rate, crackle_runtime::CoolingRate::Slow);
    let f = ServiceMetrics::new("fast");
    assert_eq!(f.kiln().profile().rate, crackle_runtime::CoolingRate::Fast);
}

#[test]
fn no_detector_gives_no_patterns() {
    let mut m = ServiceMetrics::with_profile("quiet", ThermalProfile::no_detection());
    for i in 0..10 {
        m.put(snap(50.0 + 30.0 * i as f64, 0.01 * i as f64, 1000.0 - 50.0 * i as f64, i as f64)).unwrap();
    }
    assert!(m.cool().is_empty());
}

#[test]
fn fast_profile_settings() {
    let m = ServiceMetrics::new("fast");
    let p = m.kiln().profile();
    assert!(p.detect_clustering && p.detect_phase_transitions && p.detect_conservation && p.detect_correlations);
    assert_eq!(p.max_cooling_duration, std::time::Duration::from_secs(10));
}
