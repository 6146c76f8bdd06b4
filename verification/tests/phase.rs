use iii_observability::{Pattern, PatternKind, PhaseDetector, SreState};

#[test]
fn test_nominal_when_no_patterns() {
    let state = PhaseDetector::aggregate_state(&[]);
    assert_eq!(state, SreState::Nominal);
}

#[test]
fn test_phase_transition_is_degrading() {
    let patterns = vec![Pattern::new(PatternKind::PhaseTransition, "latency shifted", 80)];
    let state = PhaseDetector::aggregate_state(&patterns);
    assert_eq!(state, SreState::Degrading);
}

#[test]
fn test_clustering_is_degrading() {
    let patterns = vec![Pattern::new(PatternKind::Clustering, "tasks clustered", 70)];
    let state = PhaseDetector::aggregate_state(&patterns);
    assert_eq!(state, SreState::Degrading);
}

#[test]
fn test_correlation_is_degrading() {
    let patterns = vec![Pattern::new(
        PatternKind::Correlation,
        "latency correlated with errors",
        90,
    )];
    let state = PhaseDetector::aggregate_state(&patterns);
    assert_eq!(state, SreState::Degrading);
}

#[test]
fn test_conservation_is_recovered() {
    let patterns = vec![Pattern::new(PatternKind::Conservation, "throughput conserved", 90)];
    let state = PhaseDetector::aggregate_state(&patterns);
    assert_eq!(state, SreState::Recovered);
}

#[test]
fn test_degrading_overrides_recovered() {
    let patterns = vec![
        Pattern::new(PatternKind::Conservation, "stable", 90),
        Pattern::new(PatternKind::PhaseTransition, "shift", 80),
    ];
    let state = PhaseDetector::aggregate_state(&patterns);
    assert_eq!(state, SreState::Degrading, "degrading should override recovered");
}

#[test]
fn test_requires_attention() {
    assert!(!SreState::Nominal.requires_attention());
    assert!(SreState::Degrading.requires_attention());
    assert!(!SreState::Recovered.requires_attention());
}

#[test]
fn test_summary_contains_state() {
    let patterns = vec![Pattern::new(PatternKind::PhaseTransition, "test shift", 80)];
    let summary = PhaseDetector::summarize(&patterns);
    assert!(summary.contains("DEGRADING"));
    assert!(summary.contains("test shift"));
}

#[test]
fn test_summary_empty() {
    let summary = PhaseDetector::summarize(&[]);
    assert!(summary.contains("NOMINAL"));
}

#[test]
fn test_combined_patterns_all_recovered() {
    let patterns = vec![
        Pattern::new(PatternKind::Conservation, "stable A", 90),
        Pattern::new(PatternKind::Conservation, "stable B", 70),
    ];
    let state = PhaseDetector::aggregate_state(&patterns);
    assert_eq!(state, SreState::Recovered);
}

#[test]
fn test_combined_patterns_mixed() {
    let patterns = vec![
        Pattern::new(PatternKind::Conservation, "stable", 90),
        Pattern::new(PatternKind::Correlation, "corrolation", 60),
    ];
    let state = PhaseDetector::aggregate_state(&patterns);
    assert_eq!(state, SreState::Degrading);
}

#[test]
fn test_empty_requires_attention() {
    assert!(!SreState::Nominal.requires_attention());
}

#[test]
fn test_summary_multiple_patterns() {
    let patterns = vec![
        Pattern::new(PatternKind::Conservation, "throughput stable", 90),
        Pattern::new(PatternKind::Correlation, "error_rate \u{2194} latency_ms", 85),
        Pattern::new(PatternKind::PhaseTransition, "latency_ms shifted up", 75),
    ];
    let summary = PhaseDetector::summarize(&patterns);
    assert!(summary.contains("DEGRADING"), "should be DEGRADING, got: {}", summary);
    assert!(summary.contains("throughput stable"), "should mention patterns");
    assert!(summary.contains("latency_ms shifted up"), "should mention all patterns");
}

#[test]
fn test_confidence_threshold_nominal() {
    let patterns = vec![
        Pattern::new(PatternKind::Correlation, "weak corr", 10),
        Pattern::new(PatternKind::PhaseTransition, "weak shift", 5),
    ];
    let state = PhaseDetector::aggregate_state(&patterns);
    assert!(
        state == SreState::Degrading,
        "all degrading patterns produce Degrading regardless of confidence: got {:?}",
        state
    );
}

// ---- Further cases ----

#[test]
fn state_labels() {
    assert_eq!(SreState::Nominal.label(), "nominal");
    assert_eq!(SreState::Degrading.label(), "degrading");
    assert_eq!(SreState::Recovered.label(), "recovered");
    assert_eq!(SreState::Nominal.upper_label(), "NOMINAL");
    assert_eq!(SreState::Degrading.upper_label(), "DEGRADING");
    assert_eq!(SreState::Recovered.upper_label(), "RECOVERED");
}

#[test]
fn pattern_kind_and_state_names() {
    assert_eq!(PatternKind::Clustering.name(), "Clustering");
    assert_eq!(PatternKind::PhaseTransition.name(), "PhaseTransition");
    assert_eq!(PatternKind::Conservation.name(), "Conservation");
    assert_eq!(PatternKind::Correlation.name(), "Correlation");
    assert_eq!(SreState::Nominal.name(), "Nominal");
    assert_eq!(SreState::Degrading.name(), "Degrading");
    assert_eq!(SreState::Recovered.name(), "Recovered");
}

#[test]
fn pattern_to_state_mapping() {
    assert_eq!(PhaseDetector::pattern_to_state(&PatternKind::PhaseTransition).label(), "degrading");
    assert_eq!(PhaseDetector::pattern_to_state(&PatternKind::Clustering), SreState::Degrading);
    assert_eq!(PhaseDetector::pattern_to_state(&PatternKind::Correlation), SreState::Degrading);
    assert_eq!(PhaseDetector::pattern_to_state(&PatternKind::Conservation).label(), "recovered");
}

#[test]
fn pattern_confidence_is_clamped() {
    let p = Pattern::new(PatternKind::Clustering, "c", 250);
    assert_eq!(p.confidence(), Some(100));
    assert_eq!(p.kind(), PatternKind::Clustering);
    assert_eq!(p.description(), "c");
    let q = Pattern::new(PatternKind::Correlation, "d", 42);
    assert_eq!(q.confidence(), Some(42));
    let r = Pattern::without_confidence(PatternKind::Conservation, "e");
    assert_eq!(r.confidence(), None);
}

#[test]
fn summary_exact_text() {
    let summary = PhaseDetector::summarize(&[
        Pattern::new(PatternKind::PhaseTransition, "latency shifted", 85),
        Pattern::new(PatternKind::Correlation, "error_rate \u{2194} latency_ms", 72),
    ]);
    assert_eq!(
        summary,
        "=== SYSTEM STATE: DEGRADING ===\n\nPatterns detected:\n  [PhaseTransition \u{2192} Degrading] latency shifted (confidence: 0.85)\n  [Correlation \u{2192} Degrading] error_rate \u{2194} latency_ms (confidence: 0.72)"
    );
}

#[test]
fn summary_confidence_digits() {
    let summary = PhaseDetector::summarize(&[
        Pattern::new(PatternKind::Conservation, "full", 100),
        Pattern::new(PatternKind::Conservation, "low", 7),
        Pattern::without_confidence(PatternKind::Conservation, "unknown"),
    ]);
    assert_eq!(
        summary,
        "=== SYSTEM STATE: RECOVERED ===\n\nPatterns detected:\n  [Conservation \u{2192} Recovered] full (confidence: 1.00)\n  [Conservation \u{2192} Recovered] low (confidence: 0.07)\n  [Conservation \u{2192} Recovered] unknown (confidence: NaN)"
    );
}

#[test]
fn summary_of_nothing_is_heading_only() {
    assert_eq!(PhaseDetector::summarize(&[]), "=== SYSTEM STATE: NOMINAL ===\n\nPatterns detected:");
}

#[test]
fn summary_lists_each_pattern_on_its_own_line() {
    let summary = PhaseDetector::summarize(&[
        Pattern::new(PatternKind::Clustering, "first", 10),
        Pattern::new(PatternKind::Conservation, "second", 20),
        Pattern::new(PatternKind::Clustering, "third", 30),
    ]);
    let lines: Vec<&str> = summary.lines().collect();
    assert_eq!(lines.len(), 6);
    assert_eq!(lines[0], "=== SYSTEM STATE: DEGRADING ===");
    assert!(lines[3].contains("first") && lines[3].contains("(confidence: 0.10)"));
    assert!(lines[4].contains("second") && lines[4].contains("(confidence: 0.20)"));
    assert!(lines[5].contains("third") && lines[5].contains("(confidence: 0.30)"));
}

#[test]
fn aggregate_order_does_not_matter() {
    let a = vec![
        Pattern::new(PatternKind::Conservation, "a", 50),
        Pattern::new(PatternKind::Clustering, "b", 50),
    ];
    let b = vec![
        Pattern::new(PatternKind::Clustering, "b", 50),
        Pattern::new(PatternKind::Conservation, "a", 50),
    ];
    assert_eq!(PhaseDetector::aggregate_state(&a), PhaseDetector::aggregate_state(&b));
    assert!(PhaseDetector::aggregate_state(&a).requires_attention());
}
