use sublinear_bft_scifest::fault_injector::{FaultInjector, FaultType, ResilienceMetrics};
use sublinear_bft_scifest::types::{Event, Vertex};

#[test]
fn test_fault_injection_probability() {
    let injector = FaultInjector::new(vec![0, 1], 500_000);

    // Run 1000 trials, expect ~500 intercepts
    let mut intercept_count = 0;
    for _ in 0..1000 {
        if injector.should_intercept(0) {
            intercept_count += 1;
        }
    }

    assert!(
        intercept_count > 400 && intercept_count < 600,
        "Expected ~500 intercepts, got {}",
        intercept_count
    );
}

#[test]
fn test_honest_nodes_not_intercepted() {
    let injector = FaultInjector::new(vec![0, 1], 500_000);

    // Honest node (ID 2) should never be intercepted
    for _ in 0..100 {
        assert!(!injector.should_intercept(2));
    }
}

#[test]
fn interception_on_a_given_roll() {
    let injector = FaultInjector::new(vec![0, 1], 300_000);
    assert!(injector.is_byzantine(1));
    assert!(!injector.is_byzantine(2));
    assert!(injector.intercepts_on(0, 299_999));
    assert!(!injector.intercepts_on(0, 300_000));
    assert!(!injector.intercepts_on(2, 0));
    let always = FaultInjector::new(vec![7], 1_000_000);
    let never = FaultInjector::new(vec![7], 0);
    for _ in 0..50 {
        assert!(always.should_intercept(7));
        assert!(!never.should_intercept(7));
    }
}

#[test]
fn faults_applied_by_position() {
    let injector = FaultInjector::new(vec![0], 500_000);
    assert!(injector.apply_fault_at(Event::Timeout(3), 0).is_none());
    match injector.apply_fault_at(Event::Timeout(3), 1) {
        Some((Event::Timeout(3), FaultType::MessageDelay(100_000))) => {}
        _ => panic!("expected a delayed message"),
    }
    match injector.apply_fault_at(Event::Timeout(4), 2) {
        Some((Event::Timeout(4), FaultType::SlowResponse)) => {}
        _ => panic!("expected a slowed message"),
    }
    for _ in 0..20 {
        match injector.apply_fault(Event::Timeout(1)) {
            None => {}
            Some((Event::Timeout(1), FaultType::MessageDelay(100_000))) => {}
            Some((Event::Timeout(1), FaultType::SlowResponse)) => {}
            _ => panic!("unexpected fault"),
        }
    }
}

#[test]
fn equivocation_keeps_round_and_author() {
    let injector = FaultInjector::new(vec![0], 500_000);
    let honest = Vertex { round: 4, author: 2, batch_hash: [0u8; 32], parent_indices: vec![0, 1, 2] };
    let a = injector.create_equivocation_with(&honest, 17);
    let b = injector.create_equivocation_with(&honest, 17);
    let c = injector.create_equivocation_with(&honest, 18);
    assert_eq!(a.round, 4);
    assert_eq!(a.author, 2);
    assert_eq!(a.parent_indices, vec![0, 1, 2]);
    assert_eq!(a.batch_hash, *blake3::hash(b"BYZANTINE_PAYLOAD_17").as_bytes());
    assert_eq!(a.batch_hash, b.batch_hash);
    assert_ne!(a.batch_hash, c.batch_hash);
    let d = injector.create_equivocation(&honest);
    assert_eq!(d.round, 4);
    assert_ne!(d.batch_hash, honest.batch_hash);
    assert_eq!(injector.measure_recovery_time(), 500_000);
}

#[test]
fn metrics_count_faults() {
    let mut m = ResilienceMetrics::new();
    m.record_fault(&FaultType::MessageDrop);
    m.record_fault(&FaultType::MessageDrop);
    m.record_fault(&FaultType::MessageDelay(5));
    m.record_fault(&FaultType::Equivocation);
    m.record_fault(&FaultType::SlowResponse);
    m.record_fault(&FaultType::RandomCrash);
    assert_eq!(m.total_faults_injected, 6);
    assert_eq!(m.messages_dropped, 2);
    assert_eq!(m.messages_delayed, 1);
    assert_eq!(m.equivocations_detected, 1);
}

#[test]
fn mean_recovery_time_rounds_down() {
    let mut m = ResilienceMetrics::new();
    assert_eq!(m.mean_recovery_time(), None);
    m.recovery_times.push(500_000);
    assert_eq!(m.mean_recovery_time(), Some(500_000));
    m.recovery_times.push(3);
    m.recovery_times.push(2);
    assert_eq!(m.mean_recovery_time(), Some(166_668));
    let mut big = ResilienceMetrics::new();
    big.recovery_times.push(u64::MAX);
    big.recovery_times.push(u64::MAX);
    assert_eq!(big.mean_recovery_time(), Some(u64::MAX));
}

#[test]
fn report_text_is_exact() {
    let mut m = ResilienceMetrics::new();
    assert_eq!(
        m.report(),
        "Byzantine Resilience Report:\n- Total faults injected: 0\n- Messages dropped: 0\n- Messages delayed: 0\n- Equivocations detected: 0\n- Mean recovery time: None"
    );
    for _ in 0..12 {
        m.record_fault(&FaultType::MessageDrop);
    }
    m.record_fault(&FaultType::MessageDelay(100_000));
    m.recovery_times.push(1_250);
    m.recovery_times.push(750);
    assert_eq!(
        m.report(),
        "Byzantine Resilience Report:\n- Total faults injected: 13\n- Messages dropped: 12\n- Messages delayed: 1\n- Equivocations detected: 0\n- Mean recovery time: Some(1000us)"
    );
}
