use capybara::minmax::MinMax;

#[test]
fn minmax_update_max() {
    let mut min_max = MinMax::new(15);
    let round: u32 = 20;

    min_max.set_window(10);
    assert_eq!(min_max.window, 10);

    // Uninitialised.
    min_max.update_max(1, 200);
    assert_eq!(min_max.get(), 200);
    // Nothing left in window.
    min_max.update_max(round, 120);
    assert_eq!(min_max.get(), 120);
    // Found new max.
    min_max.update_max(round + 1, 150);
    assert_eq!(min_max.get(), 150);
    // Validate sample: time should be increasing.
    min_max.update_max(round, 180);
    assert_eq!(min_max.get(), 150);
    // Duration is in (0, window/4], do nothing.
    min_max.update_max(round + 2, 120);
    assert_eq!(min_max.get(), 150);
    // Duration is in (window/4, window/2), update sample 1 and sample 2.
    min_max.update_max(round + 4, 110);
    assert_eq!(min_max.get(), 150);
    // Duration between sample and sample 0 and sample 1 are both larger than window.
    min_max.update_max(round + 8, 100);
    assert_eq!(min_max.get(), 150);
    // Update sample 3.
    min_max.update_max(round + 9, 105);
    assert_eq!(min_max.get(), 150);
    assert_eq!(min_max.samples[1].value, 110);
    assert_eq!(min_max.samples[2].value, 105);
    min_max.update_max(round + 15, 90);
    assert_eq!(min_max.get(), 105);
    // Merge and update sample 2 and sample 3.
    min_max.update_max(round + 17, 95);
    assert_eq!(min_max.get(), 105);
    assert_eq!(min_max.samples[1].value, 95);
    assert_eq!(min_max.samples[2].value, 95);
}

#[test]
fn minmax_update_min() {
    let mut min_max = MinMax::default();
    assert_eq!(min_max.window, 10);

    let round: u32 = 20;
    // Uninitialised.
    min_max.update_min(1, 100);
    assert_eq!(min_max.get(), 100);
    // Nothing left in window.
    min_max.update_min(round, 120);
    assert_eq!(min_max.get(), 120);
    // Found new min.
    min_max.update_min(round + 1, 110);
    assert_eq!(min_max.get(), 110);
    // Validate sample: time should be increasing.
    min_max.update_min(round, 90);
    assert_eq!(min_max.get(), 110);
    // Update sample 2 and sample 3.
    min_max.update_min(round + 4, 120);
    assert_eq!(min_max.get(), 110);
    min_max.update_min(round + 8, 115);
    assert_eq!(min_max.samples[1].value, 115);
    min_max.update_min(round + 9, 120);
    assert_eq!(min_max.samples[2].value, 120);
    min_max.update_min(round + 10, 118);
    assert_eq!(min_max.samples[2].value, 118);
}

#[test]
fn minmax_reset_fills_all_choices() {
    let mut min_max = MinMax::new(10);
    min_max.update_max(3, 40);
    min_max.reset(capybara::minmax::MinMaxSample { time: 7, value: 9 });
    for s in min_max.samples.iter() {
        assert_eq!((s.time, s.value), (7, 9));
    }
    assert_eq!(min_max.get(), 9);
}

#[test]
fn minmax_max_best_is_at_least_latest_sample() {
    // Law: after an in-order update of a max filter, the best is at least the sample.
    let mut min_max = MinMax::new(10);
    let values = [50u32, 20, 70, 10, 30, 5, 80, 1];
    for (i, v) in values.iter().enumerate() {
        min_max.update_max(i as u32 * 3, *v);
        assert!(min_max.get() >= *v);
        assert!(min_max.samples[0].value >= min_max.samples[1].value);
        assert!(min_max.samples[1].value >= min_max.samples[2].value);
    }
}

#[test]
fn minmax_out_of_order_sample_is_ignored() {
    let mut min_max = MinMax::new(10);
    min_max.update_min(5, 30);
    min_max.update_min(4, 1);
    assert_eq!(min_max.get(), 30);
}
