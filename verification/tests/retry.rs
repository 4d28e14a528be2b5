use ibc_relayer::channel::retry_strategy;
use ibc_relayer::util::retry::clamp_total;

#[test]
fn default_delays_are_fibonacci_cut_to_a_minute_and_ten_minutes() {
    let delays = retry_strategy::default();
    assert_eq!(
        delays,
        vec![
            1000, 1000, 2000, 3000, 5000, 8000, 13000, 21000, 34000, 55000, 60000, 60000, 60000,
            60000, 60000, 60000, 60000, 37000
        ]
    );
    assert_eq!(delays.len(), retry_strategy::DELAYS);
    assert_eq!(delays.iter().sum::<u64>(), retry_strategy::MAX_TOTAL_DELAY);
    assert!(delays.iter().all(|d| *d <= retry_strategy::MAX_DELAY));
    assert_eq!(delays[0], retry_strategy::INITIAL_DELAY);
    let before_last: u64 = delays[..17].iter().sum();
    assert!(before_last < 600000);
}

#[test]
fn delays_are_cut_one_by_one_and_in_all() {
    assert_eq!(clamp_total(vec![1, 2, 3, 4, 5], 3, 100), vec![1, 2, 3, 3, 3]);
    assert_eq!(clamp_total(vec![1, 2, 3, 4, 5], 10, 7), vec![1, 2, 3, 1]);
    assert_eq!(clamp_total(vec![1, 2, 3, 4, 5], 10, 6), vec![1, 2, 3]);
    assert_eq!(clamp_total(vec![5, 5, 5], 2, 5), vec![2, 2, 1]);
    assert_eq!(clamp_total(vec![5, 5, 5], 10, 0), Vec::<u64>::new());
    assert_eq!(clamp_total(Vec::new(), 10, 10), Vec::<u64>::new());
    assert_eq!(clamp_total(vec![0, 0, 4], 10, 3), vec![0, 0, 3]);
    assert_eq!(clamp_total(vec![u64::MAX, u64::MAX], u64::MAX, u64::MAX), vec![u64::MAX]);
    assert_eq!(clamp_total(vec![u64::MAX, 7], 10, u64::MAX), vec![10, 7]);
}
