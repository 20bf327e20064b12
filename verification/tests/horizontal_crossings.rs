use nprs::extract::cser::feature::{Feature, HorizontalCrossings};
use nprs::extract::cser::Incremental;
use nprs::image::Image;
use nprs::structures::{Point, Ratio};

fn empty_images() -> (Image<u8>, Image<Option<usize>>) {
    (Image::from_data(vec![], 0, 0).unwrap(), Image::from_data(vec![], 0, 0).unwrap())
}

#[test]
fn merge_with_intersection() {
    //         10                13          15
    // +-------x-----x-----x-----x-----x-----x--------->
    //      +-----+-----+-----+-----+
    //      |  2  |  3  |  2  |  1  |
    //      +-----+-----------------------+-----+
    //                  |  4  |  2  |  2  |  2  |
    //                  +-----+-----+-----+-----+

    let mut hc1 = HorizontalCrossings::from_rows(vec![2, 3, 2, 1], 10, 13, 1).unwrap();
    let hc2 = HorizontalCrossings::from_rows(vec![4, 2, 2, 2], 12, 15, 2).unwrap();
    let expected_hc = HorizontalCrossings::from_rows(vec![2, 3, 6, 3, 2, 2], 10, 15, 1).unwrap();

    let (img, reg_img) = empty_images();

    hc1.merge(&hc2, &img, &reg_img);

    assert_eq!(hc1, expected_hc);
}

#[test]
fn merge_no_intersection() {
    //        10                13          15
    // +------x-----x-----x-----x-----x-----x--------->
    //     +-----+-----+-----+-----+
    //     |  2  |  3  |  2  |  1  |
    //     +-----+-----+-----+-----------+-----+
    //                             |  2  |  2  |
    //                             +-----+-----+

    let mut hc1 = HorizontalCrossings::from_rows(vec![2, 3, 2, 1], 10, 13, 1).unwrap();
    let hc2 = HorizontalCrossings::from_rows(vec![2, 2], 14, 15, 2).unwrap();
    let expected_hc = HorizontalCrossings::from_rows(vec![2, 3, 2, 1, 2, 2], 10, 15, 1).unwrap();

    let (img, reg_image) = empty_images();

    hc1.merge(&hc2, &img, &reg_image);

    assert_eq!(hc1, expected_hc);
}

#[test]
fn merge_no_intersection_reverse() {
    let hc1 = HorizontalCrossings::from_rows(vec![2, 3, 2, 1], 10, 13, 1).unwrap();
    let mut hc2 = HorizontalCrossings::from_rows(vec![2, 2], 14, 15, 2).unwrap();
    let expected_hc = HorizontalCrossings::from_rows(vec![2, 3, 2, 1, 2, 2], 10, 15, 2).unwrap();

    let (img, reg_image) = empty_images();

    hc2.merge(&hc1, &img, &reg_image);

    assert_eq!(hc2, expected_hc);
}

#[test]
fn merge_included() {
    //        10                            15
    // +------x-----x-----x-----x-----x-----x--------->
    //     +-----+-----+-----+-----+-----+-----+
    //     |  2  |  3  |  2  |  4  |  6  |  2  |
    //     +-----+-----+-----+-----+-----+-----+
    //                 |  4  |  2  |  3  |
    //                 +-----+-----+-----+

    let mut hc1 = HorizontalCrossings::from_rows(vec![2, 3, 2, 4, 6, 2], 10, 15, 1).unwrap();
    let hc2 = HorizontalCrossings::from_rows(vec![4, 2, 3], 12, 14, 2).unwrap();
    let expected_hc = HorizontalCrossings::from_rows(vec![2, 3, 6, 6, 9, 2], 10, 15, 1).unwrap();

    let (img, reg_image) = empty_images();

    hc1.merge(&hc2, &img, &reg_image);

    assert_eq!(hc1, expected_hc);
}

#[test]
fn merge_included_reverse() {
    let hc1 = HorizontalCrossings::from_rows(vec![2, 3, 2, 4, 6, 2], 10, 15, 1).unwrap();
    let mut hc2 = HorizontalCrossings::from_rows(vec![4, 2, 3], 12, 14, 2).unwrap();
    let expected_hc = HorizontalCrossings::from_rows(vec![2, 3, 6, 6, 9, 2], 10, 15, 2).unwrap();

    let (img, reg_image) = empty_images();

    hc2.merge(&hc1, &img, &reg_image);

    assert_eq!(hc2, expected_hc);
}

#[test]
fn merged_state_reports_rows_and_range() {
    let mut hc1 = HorizontalCrossings::from_rows(vec![2, 3, 2, 1], 10, 13, 1).unwrap();
    let hc2 = HorizontalCrossings::from_rows(vec![4, 2, 2, 2], 12, 15, 2).unwrap();
    let (img, reg_img) = empty_images();
    hc1.merge(&hc2, &img, &reg_img);
    assert_eq!(hc1.rows(), vec![2, 3, 6, 3, 2, 2]);
    assert_eq!(hc1.y_top(), 10);
    assert_eq!(hc1.y_btm(), 15);
    assert_eq!(hc1.reg_idx(), 1);
}

#[test]
fn from_rows_wants_one_count_per_scanline() {
    assert!(HorizontalCrossings::from_rows(vec![1, 2], 0, 2, 0).is_none());
    assert!(HorizontalCrossings::from_rows(vec![1, 2, 3], 0, 2, 0).is_some());
    assert!(HorizontalCrossings::from_rows(vec![], 5, 4, 0).is_some());
    assert!(HorizontalCrossings::from_rows(vec![], 5, 3, 0).is_none());
}

#[test]
fn init_starts_with_two_crossings_on_one_scanline() {
    let hc = HorizontalCrossings::init(Point { x: 4, y: 7 }, 3);
    assert_eq!(hc.rows(), vec![2]);
    assert_eq!(hc.y_top(), 7);
    assert_eq!(hc.y_btm(), 7);
    assert_eq!(hc.reg_idx(), 3);
}

fn grid(w: usize, h: usize, owned: &[(usize, usize, usize)]) -> Image<Option<usize>> {
    let mut data: Vec<Option<usize>> = vec![None; w * h];
    for &(x, y, idx) in owned {
        data[y * w + x] = Some(idx);
    }
    Image::from_data(data, w, h).unwrap()
}

#[test]
fn increment_counts_owned_horizontal_neighbours() {
    let img: Image<u8> = Image::from_data(vec![0; 16], 4, 4).unwrap();
    // region 0 owns (0,1) and (2,1); pixel (1,1) joins: both neighbours owned.
    let reg = grid(4, 4, &[(0, 1, 0), (2, 1, 0)]);
    let mut hc = HorizontalCrossings::from_rows(vec![4], 1, 1, 0).unwrap();
    hc.increment(Point { x: 1, y: 1 }, &img, &reg);
    assert_eq!(hc.rows(), vec![6]);

    // pixel (1,2) joins below: no horizontal neighbour owned, new row at the end.
    hc.increment(Point { x: 1, y: 2 }, &img, &reg);
    assert_eq!(hc.rows(), vec![6, -2]);
    assert_eq!(hc.y_btm(), 2);

    // pixel (1,0) joins above: new row in front.
    hc.increment(Point { x: 1, y: 0 }, &img, &reg);
    assert_eq!(hc.rows(), vec![-2, 6, -2]);
    assert_eq!(hc.y_top(), 0);

    // pixel (3,1): left neighbour (2,1) owned, right neighbour outside.
    hc.increment(Point { x: 3, y: 1 }, &img, &reg);
    assert_eq!(hc.rows(), vec![-2, 6, -2]);

    // a neighbour owned by another region does not count.
    let other = grid(4, 4, &[(0, 1, 5), (2, 1, 0)]);
    let mut hc2 = HorizontalCrossings::from_rows(vec![4], 1, 1, 0).unwrap();
    hc2.increment(Point { x: 1, y: 1 }, &img, &other);
    assert_eq!(hc2.rows(), vec![4]);
}

fn value_of(rows: Vec<i32>) -> Vec<Ratio> {
    let n = rows.len() as i32;
    let hc = HorizontalCrossings::from_rows(rows, 0, n - 1, 0).unwrap();
    let mut out = vec![];
    hc.value(&mut out);
    out
}

#[test]
fn value_is_median_of_three_percentiles() {
    assert_eq!(value_of(vec![]), vec![Ratio { num: 0, den: 1 }]);
    assert_eq!(value_of(vec![7]), vec![Ratio { num: 7, den: 1 }]);
    // two rows: positions 0, 1, 1 -> counts 5, 9, 9 -> median 9
    assert_eq!(value_of(vec![5, 9]), vec![Ratio { num: 9, den: 1 }]);
    // ten rows: positions 1, 5, 8 -> counts 20, 60, 10 -> median 20
    assert_eq!(value_of(vec![0, 20, 0, 0, 0, 60, 0, 0, 10, 0]), vec![Ratio { num: 20, den: 1 }]);
    // hundred rows: positions 17, 50, 83
    let mut rows = vec![0; 100];
    rows[17] = 3;
    rows[50] = 1;
    rows[83] = 2;
    assert_eq!(value_of(rows), vec![Ratio { num: 2, den: 1 }]);
}

#[test]
fn value_appends_to_what_is_there() {
    let hc = HorizontalCrossings::from_rows(vec![7], 0, 0, 0).unwrap();
    let mut out = vec![Ratio { num: 1, den: 2 }];
    hc.value(&mut out);
    assert_eq!(out, vec![Ratio { num: 1, den: 2 }, Ratio { num: 7, den: 1 }]);
}

#[test]
fn snapshot_equals_original() {
    let hc = HorizontalCrossings::from_rows(vec![2, 3, 6], 4, 6, 9).unwrap();
    assert_eq!(hc.snapshot(), hc);
}
