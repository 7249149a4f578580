use microvid::machine::suggest_jobs;

fn gb(x: f64) -> u64 {
    (x * 1_073_741_824.0) as u64
}

#[test]
fn suggestions() {
    assert_eq!(suggest_jobs(4, gb(8.0), false), 1);
    assert_eq!(suggest_jobs(8, gb(16.0), false), 2);
    assert_eq!(suggest_jobs(10, gb(32.0), false), 3);
    assert_eq!(suggest_jobs(16, gb(64.0), false), 4);
    assert_eq!(suggest_jobs(24, gb(4.0), false), 2);
    assert_eq!(suggest_jobs(10, gb(32.0), true), 1);
}

#[test]
fn suggestion_stays_between_one_and_four() {
    assert_eq!(suggest_jobs(0, 0, false), 1);
    assert_eq!(suggest_jobs(1, gb(1.0), true), 1);
    assert_eq!(suggest_jobs(128, gb(512.0), false), 4);
    assert_eq!(suggest_jobs(128, gb(512.0), true), 2);
    assert_eq!(suggest_jobs(6, gb(64.0), false), 2);
}
