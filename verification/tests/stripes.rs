use raytrace::stripes::{stripe_bounds, stripe_jobs, STRIPE_COUNT};

#[test]
fn thirty_seven_columns_covered_exactly_once() {
    let width: u32 = 37;
    let mut cover = [0u32; 37];
    for i in 0..STRIPE_COUNT {
        let (lo, hi) = stripe_bounds(width, i);
        for c in lo..hi {
            cover[c as usize] += 1;
        }
    }
    for c in 0..width {
        assert_eq!(cover[c as usize], 1, "column {} not covered exactly once", c);
    }
}

#[test]
fn divisible_width_gives_equal_stripes() {
    for i in 0..STRIPE_COUNT {
        let (lo, hi) = stripe_bounds(100, i);
        assert_eq!(lo, 10 * i);
        assert_eq!(hi, 10 * i + 10);
    }
}

#[test]
fn last_stripe_absorbs_the_remainder() {
    let (lo, hi) = stripe_bounds(1234, 9);
    assert_eq!(lo, 9 * 123);
    assert_eq!(hi, 1234);
}

#[test]
fn width_under_stripe_count_falls_to_the_last_stripe() {
    let width: u32 = 7;
    for i in 0..STRIPE_COUNT - 1 {
        let (lo, hi) = stripe_bounds(width, i);
        assert_eq!(lo, hi, "stripe {} should be empty", i);
    }
    assert_eq!(stripe_bounds(width, 9), (0, 7));
}

#[test]
fn zero_width_gives_empty_stripes() {
    for i in 0..STRIPE_COUNT {
        let (lo, hi) = stripe_bounds(0, i);
        assert_eq!((lo, hi), (0, 0));
    }
}

#[test]
fn stripe_jobs_visit_every_pixel_of_the_stripe_once() {
    let (width, height) = (37u32, 3u32);
    let mut seen = vec![0u32; (width * height) as usize];
    for i in 0..STRIPE_COUNT {
        let jobs = stripe_jobs(width, height, i);
        let (lo, hi) = stripe_bounds(width, i);
        assert_eq!(jobs.len() as u32, (hi - lo) * height);
        for (x, y) in jobs {
            assert!(lo <= x && x < hi);
            assert!(y < height);
            seen[(y * width + x) as usize] += 1;
        }
    }
    for n in seen {
        assert_eq!(n, 1);
    }
}

#[test]
fn stripe_jobs_walk_columns_in_order() {
    let jobs = stripe_jobs(20, 2, 1);
    assert_eq!(jobs, vec![(2, 0), (2, 1), (3, 0), (3, 1)]);
}

#[test]
fn stripe_jobs_empty_for_zero_height() {
    assert_eq!(stripe_jobs(40, 0, 3).len(), 0);
}
