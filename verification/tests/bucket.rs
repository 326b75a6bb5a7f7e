use throttler::bucket::Bucket;

// Quantities below use thousandths of a capacity unit and millisecond
// ticks, so a rate of 1 stands for one capacity unit per second.

#[test]
fn filled_bucket_admits_its_whole_capacity_once() {
    let mut b = Bucket::new(1000, 1, 0);
    b.fill(0);
    // Freshly filled, the budget equals the ceiling and covers it exactly.
    assert!(b.is_sufficient(1000));
    assert!(b.try_consume(1000, 0));
    // Full consumption leaves zero: any positive request now fails...
    assert!(!b.try_consume(1, 0));
    // ...while a free one still passes.
    assert!(b.try_consume(0, 0));
}

#[test]
fn new_bucket_starts_empty() {
    let mut b = Bucket::new(1000, 1, 0);
    assert!(!b.is_sufficient(1));
    assert!(!b.try_consume(1, 0));
}

#[test]
fn refill_credits_elapsed_time_and_clamps_at_ceiling() {
    let mut b = Bucket::new(1000, 1, 0);
    // 250 ticks at rate 1 yield 250 units: not yet enough for 500.
    assert!(!b.try_consume(500, 250));
    // 250 more ticks close the deficit exactly.
    assert!(b.try_consume(500, 500));
    // However long the idle stretch, the budget stops at the ceiling:
    // after consuming the full 1000, nothing more is left over.
    assert!(b.try_consume(1000, 1_000_000));
    assert!(!b.try_consume(1, 1_000_000));
}

#[test]
fn full_bucket_admits_an_oversized_request_once() {
    let mut b = Bucket::new(100, 1, 0);
    b.fill(0);
    // 250 exceeds the ceiling, yet a full bucket lets it through...
    assert!(b.try_consume(250, 0));
    // ...and the budget goes negative: 150 units in debt.
    assert_eq!(b.estimate_available_at(0, 0), 150);
}

#[test]
fn estimate_available_at_reports_the_deficit_wait() {
    let b = Bucket::new(1000, 1, 0);
    // Empty bucket, rate 1: the full ceiling takes 1000 ticks.
    assert_eq!(b.estimate_available_at(1000, 0), 1000);
    // The clock offsets the estimate.
    assert_eq!(b.estimate_available_at(1000, 40), 1040);
    // A request beyond the ceiling only waits for a full bucket.
    assert_eq!(b.estimate_available_at(5000, 0), 1000);
    // An already-satisfied request waits not at all.
    let mut f = Bucket::new(1000, 1, 0);
    f.fill(0);
    assert_eq!(f.estimate_available_at(400, 7), 7);
}

#[test]
fn estimate_available_at_rounds_the_wait_up() {
    let b = Bucket::new(10, 3, 0);
    // A deficit of 10 at rate 3 needs 4 ticks, not 3.
    assert_eq!(b.estimate_available_at(10, 0), 4);
}

#[test]
fn reconfiguration_changes_future_refills_only() {
    let mut b = Bucket::new(1000, 1, 0);
    assert_eq!(b.estimate_available_at(1000, 0), 1000);
    b.update_refill_rate(2);
    assert_eq!(b.estimate_available_at(1000, 0), 500);
    b.update_max_cap(200);
    // The deficit is now capped by the lower ceiling.
    assert_eq!(b.estimate_available_at(1000, 0), 100);
}

#[test]
fn feedback_adjusts_without_clamping() {
    // Upward past the ceiling: a request larger than the ceiling is
    // admitted through the surplus alone, before any refill clamps it.
    let mut b = Bucket::new(1000, 1, 0);
    b.fill(0);
    b.feedback(500);
    assert!(b.is_sufficient(1400));

    // Downward past zero: the debt shows up in the next wait.
    let mut d = Bucket::new(1000, 1, 0);
    d.feedback(-500);
    assert_eq!(d.estimate_available_at(0, 0), 500);

    // And an exact refund restores exactly what was taken.
    let mut r = Bucket::new(1000, 1, 0);
    r.fill(0);
    assert!(r.try_consume(1000, 0));
    r.feedback(300);
    assert!(r.try_consume(300, 0));
    assert!(!r.try_consume(1, 0));
}
