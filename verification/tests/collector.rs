use raytrace::collect::PixelCollector;

#[test]
fn fresh_collector_is_zeroed_and_incomplete() {
    let c = PixelCollector::new(4, 3);
    assert!(!c.is_complete());
    for x in 0..4 {
        for y in 0..3 {
            assert_eq!(c.pixel(x, y), (0, 0, 0));
        }
    }
}

#[test]
fn recorded_pixel_reads_back_and_leaves_the_rest() {
    let mut c = PixelCollector::new(4, 3);
    c.record(2, 1, (10, 20, 30));
    assert_eq!(c.pixel(2, 1), (10, 20, 30));
    for x in 0..4 {
        for y in 0..3 {
            if (x, y) != (2, 1) {
                assert_eq!(c.pixel(x, y), (0, 0, 0));
            }
        }
    }
}

#[test]
fn complete_only_after_every_pixel_arrives() {
    let mut c = PixelCollector::new(2, 2);
    c.record(0, 0, (1, 1, 1));
    c.record(1, 0, (2, 2, 2));
    c.record(0, 1, (3, 3, 3));
    assert!(!c.is_complete());
    c.record(1, 1, (4, 4, 4));
    assert!(c.is_complete());
}

#[test]
fn duplicate_arrival_overwrites_and_does_not_complete() {
    let mut c = PixelCollector::new(2, 1);
    c.record(0, 0, (5, 5, 5));
    c.record(0, 0, (6, 6, 6));
    assert!(!c.is_complete());
    assert_eq!(c.pixel(0, 0), (6, 6, 6));
    c.record(1, 0, (7, 7, 7));
    assert!(c.is_complete());
}

#[test]
fn empty_image_is_trivially_complete() {
    let c = PixelCollector::new(0, 0);
    assert!(c.is_complete());
}

#[test]
fn bytes_come_out_row_major() {
    let mut c = PixelCollector::new(2, 2);
    c.record(0, 0, (1, 2, 3));
    c.record(1, 0, (4, 5, 6));
    c.record(0, 1, (7, 8, 9));
    c.record(1, 1, (10, 11, 12));
    let bytes = c.into_bytes();
    assert_eq!(bytes, vec![1, 2, 3, 4, 5, 6, 7, 8, 9, 10, 11, 12]);
}
