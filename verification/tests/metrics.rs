use datssol_bot::metrics::Metrics;

#[test]
fn summary_reads_the_counters() {
    let mut m = Metrics::default();
    m.turns_processed = 12;
    m.record_plan_duration(10);
    m.record_plan_duration(21);
    m.plantations_peak = 7;
    m.mains_lost = 1;
    m.api_errors = 3;
    m.empty_turns = 0;
    assert!(m.total_fits());
    assert_eq!(m.avg_plan_ms(), 15);
    assert_eq!(
        m.summary(),
        "turns=12 avg_plan_ms=15 peak_plantations=7 mains_lost=1 api_errors=3 empty_turns=0"
    );
}

#[test]
fn average_of_nothing_is_zero() {
    let m = Metrics::default();
    assert_eq!(m.avg_plan_ms(), 0);
    assert_eq!(
        m.summary(),
        "turns=0 avg_plan_ms=0 peak_plantations=0 mains_lost=0 api_errors=0 empty_turns=0"
    );
}

#[test]
fn negative_peak_and_overflowing_total() {
    let mut m = Metrics::default();
    m.plantations_peak = -4;
    assert!(m.summary().contains("peak_plantations=-4"));
    m.record_plan_duration(u64::MAX);
    assert!(m.total_fits());
    m.record_plan_duration(1);
    assert!(!m.total_fits());
}
