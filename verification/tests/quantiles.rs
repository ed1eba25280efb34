use join_watch::quantile::{get_percentile, linterp};
use join_watch::sorting::sort_ascending;

#[test]
fn linterp_weighs_both_ends() {
    assert_eq!(linterp(30, 40, 1, 4), 130);
    assert_eq!(linterp(30, 40, 0, 4), 120);
    assert_eq!(linterp(30, 40, 4, 4), 160);
    assert_eq!(linterp(0, 3, 3, 4), 9);
    assert_eq!(linterp(7, 7, 123, 1000), 7000);
}

#[test]
fn linterp_takes_the_largest_values() {
    let top = u64::MAX as u128;
    let den = u32::MAX;
    assert_eq!(linterp(u64::MAX, u64::MAX, 0, den), top * den as u128);
    assert_eq!(linterp(u64::MAX, u64::MAX, den, den), top * den as u128);
    assert_eq!(linterp(u64::MAX, 0, 1, den), top * (den as u128 - 1));
}

#[test]
fn upper_quartile_of_four_samples() {
    let sorted = [10u32, 20, 30, 40];
    let scaled = get_percentile(&sorted, 3, 4);
    assert_eq!(scaled, 130);
    assert_eq!(scaled as f64 / 4.0, 32.5);
}

#[test]
fn quartiles_of_four_samples() {
    let sorted = [10u32, 20, 30, 40];
    assert_eq!(get_percentile(&sorted, 0, 4), 40);
    assert_eq!(get_percentile(&sorted, 1, 4), 70);
    assert_eq!(get_percentile(&sorted, 2, 4), 100);
    assert_eq!(get_percentile(&sorted, 4, 4), 160);
}

#[test]
fn percentile_of_one_sample_is_the_sample() {
    for den in [1u32, 2, 4, 100, u32::MAX] {
        for num in [0u32, 1, den / 2, den] {
            if num <= den {
                assert_eq!(get_percentile(&[5], num, den), 5 * den as u64);
            }
        }
    }
    assert_eq!(get_percentile(&[u32::MAX], 3, 4), 4 * u32::MAX as u64);
}

#[test]
fn percentile_of_nothing_is_zero() {
    for den in [1u32, 4, 1000, u32::MAX] {
        for num in [0u32, 1, den] {
            if num <= den {
                assert_eq!(get_percentile(&[], num, den), 0);
            }
        }
    }
}

#[test]
fn percentile_at_the_ends_is_first_and_last() {
    let sorted = [3u32, 9, 27, 81, 243];
    assert_eq!(get_percentile(&sorted, 0, 7), 3 * 7);
    assert_eq!(get_percentile(&sorted, 7, 7), 243 * 7);
}

#[test]
fn percentile_between_neighbours() {
    // position 1/3 of the way over four gaps is 4/3: index 1, a third of the
    // way on to index 2
    let sorted = [0u32, 30, 60, 90, 120];
    assert_eq!(get_percentile(&sorted, 1, 3), 30 * 2 + 60);
    assert_eq!(get_percentile(&sorted, 1, 3) as f64 / 3.0, 40.0);
    // two samples, median halfway between them
    assert_eq!(get_percentile(&[1, 2], 1, 2), 3);
}

#[test]
fn percentile_of_largest_counts_fits() {
    let sorted = [u32::MAX, u32::MAX, u32::MAX];
    assert_eq!(
        get_percentile(&sorted, u32::MAX - 1, u32::MAX),
        u32::MAX as u64 * u32::MAX as u64
    );
}

#[test]
fn sort_orders_and_keeps_every_entry() {
    assert_eq!(sort_ascending(&[40, 10, 30, 20]), vec![10, 20, 30, 40]);
    assert_eq!(sort_ascending(&[2, 1, 2, 1, 0]), vec![0, 1, 1, 2, 2]);
    assert_eq!(sort_ascending(&[]), Vec::<u32>::new());
    assert_eq!(sort_ascending(&[u32::MAX, 0]), vec![0, u32::MAX]);
}

#[test]
fn sorting_twice_is_sorting_once() {
    let once = sort_ascending(&[5, 3, 9, 3, 1]);
    let twice = sort_ascending(&once);
    assert_eq!(once, twice);
    assert_eq!(sort_ascending(&[1, 2, 3]), vec![1, 2, 3]);
}

#[test]
fn quantile_ignores_input_order() {
    let a = sort_ascending(&[40, 10, 30, 20]);
    let b = sort_ascending(&[20, 30, 10, 40]);
    let c = sort_ascending(&[10, 20, 30, 40]);
    for num in 0..=4u32 {
        let expected = get_percentile(&c, num, 4);
        assert_eq!(get_percentile(&a, num, 4), expected);
        assert_eq!(get_percentile(&b, num, 4), expected);
    }
}

/// The same interpolation in floating point, on a ratio between 0 and 1.
fn float_percentile(sorted: &[f64], ratio: f64) -> f64 {
    if sorted.is_empty() {
        return 0.0;
    }
    let position = (sorted.len() - 1) as f64 * ratio;
    let low = position.trunc() as usize;
    if low + 1 >= sorted.len() {
        sorted[low]
    } else {
        sorted[low] * (1.0 - position.fract()) + sorted[low + 1] * position.fract()
    }
}

#[test]
fn quartiles_agree_with_floating_point() {
    let sets: [&[u32]; 7] = [
        &[],
        &[5],
        &[1, 2],
        &[10, 20, 30, 40],
        &[0, 0, 1, 3, 3, 7, 20, 21, 500],
        &[7, 7, 7, 7, 7, 7],
        &[0, u32::MAX, u32::MAX],
    ];
    for set in sets {
        let floats: Vec<f64> = set.iter().map(|&count| count as f64).collect();
        for num in 0..=4u32 {
            let exact = get_percentile(set, num, 4) as f64 / 4.0;
            assert_eq!(exact, float_percentile(&floats, num as f64 / 4.0));
        }
    }
}

#[test]
fn percentiles_rise_with_the_ratio() {
    let sorted = sort_ascending(&[12, 0, 7, 7, 90, 3, 41, 5, 5, 1000, 2]);
    let mut before = get_percentile(&sorted, 0, 20);
    assert_eq!(before, 0);
    for num in 1..=20u32 {
        let here = get_percentile(&sorted, num, 20);
        assert!(before <= here);
        before = here;
    }
    assert_eq!(before, 1000 * 20);
}
