use workqueue::summary::RunSummary;

#[test]
fn collect_adds_up_the_workers_counts() {
    let summary = RunSummary::collect(6, vec![4, 2]);
    assert_eq!(
        summary,
        Some(RunSummary { generated: 6, executed: vec![4, 2], executed_total: 6 })
    );
}

#[test]
fn collect_of_no_counts_is_zero() {
    let summary = RunSummary::collect(0, Vec::new());
    assert_eq!(
        summary,
        Some(RunSummary { generated: 0, executed: Vec::new(), executed_total: 0 })
    );
}

#[test]
fn collect_reaches_the_largest_total() {
    let summary = RunSummary::collect(1, vec![u64::MAX - 1, 0, 1]);
    assert_eq!(
        summary,
        Some(RunSummary {
            generated: 1,
            executed: vec![u64::MAX - 1, 0, 1],
            executed_total: u64::MAX,
        })
    );
}

#[test]
fn collect_gives_nothing_when_the_total_does_not_fit() {
    assert_eq!(RunSummary::collect(1, vec![u64::MAX, 1]), None);
    assert_eq!(RunSummary::collect(1, vec![1, u64::MAX, 0]), None);
    assert_eq!(RunSummary::collect(1, vec![u64::MAX, u64::MAX]), None);
}

#[test]
fn a_summary_balances_when_both_totals_agree() {
    let even = RunSummary { generated: 6, executed: vec![3, 3], executed_total: 6 };
    assert!(even.is_balanced());
    let short = RunSummary { generated: 6, executed: vec![3, 2], executed_total: 5 };
    assert!(!short.is_balanced());
}
