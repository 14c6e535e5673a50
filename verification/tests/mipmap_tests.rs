use image_to_yt::image_data::ImageData;
use image_to_yt::timing::elapsed_millis;

#[test]
fn mipmap_halves_dimensions_with_floor_and_minimum_one() {
    let mut cur = ImageData { width: 13, height: 5, data: vec![0; 13 * 5 * 4] };
    let mut dims = vec![(cur.width, cur.height)];
    while let Some(next) = cur.mipmap() {
        dims.push((next.width, next.height));
        cur = next;
    }
    assert_eq!(dims, vec![(13, 5), (6, 2), (3, 1), (1, 1)]);
}

#[test]
fn one_by_one_has_no_further_level() {
    let cur = ImageData { width: 1, height: 1, data: vec![5, 6, 7, 8] };
    assert!(cur.mipmap().is_none());
}

#[test]
fn chain_length_matches_log_of_larger_dimension() {
    // floor(log2(max(w, h))) + 1 levels; a power-of-two base also matches
    // ceil(log2(max(w, h))) + 1.
    for (w, h, levels) in [(1, 1, 1), (2, 2, 2), (3, 3, 2), (6, 6, 3), (16, 1, 5), (20, 7, 5)] {
        let mut cur = ImageData { width: w, height: h, data: vec![0; w * h * 4] };
        let mut count = 1;
        while let Some(next) = cur.mipmap() {
            count += 1;
            cur = next;
        }
        assert_eq!(count, levels, "{}x{}", w, h);
        assert_eq!((cur.width, cur.height), (1, 1));
    }
}

#[test]
fn mipmap_averages_2x2_neighborhoods() {
    // A 2x2 image collapses to the channelwise average of its four pixels.
    let data = vec![
        0, 0, 0, 0, // (0,0)
        100, 40, 8, 0, // (1,0)
        100, 40, 0, 0, // (0,1)
        200, 40, 0, 4, // (1,1)
    ];
    let img = ImageData { width: 2, height: 2, data };
    let next = img.mipmap().unwrap();
    assert_eq!((next.width, next.height), (1, 1));
    assert_eq!(next.data, vec![100, 30, 2, 1]);
}

#[test]
fn mipmap_clamps_at_the_edges() {
    // A 1x2 column: the missing right neighbors repeat the edge pixel, so
    // the result is the average of the two rows.
    let img = ImageData { width: 1, height: 2, data: vec![10, 0, 0, 0, 30, 0, 0, 0] };
    let next = img.mipmap().unwrap();
    assert_eq!((next.width, next.height), (1, 1));
    assert_eq!(next.data[0], 20);
}

#[test]
fn mipmap_of_odd_width_reads_clamped_columns() {
    // 3x1: output is 1x1, averaging columns 0 and 1 (rows clamped).
    let img = ImageData {
        width: 3,
        height: 1,
        data: vec![8, 0, 0, 0, 16, 0, 0, 0, 99, 0, 0, 0],
    };
    let next = img.mipmap().unwrap();
    assert_eq!((next.width, next.height), (1, 1));
    assert_eq!(next.data[0], 12);
}

#[test]
fn elapsed_millis_combines_seconds_and_nanos() {
    assert_eq!(elapsed_millis(2, 3_500_000), 2003);
    assert_eq!(elapsed_millis(0, 999_999), 0);
    assert_eq!(elapsed_millis(0, 0), 0);
}
