use nprs::extract::cser::feature::num_holes::{count_patterns, fill_mat, Matrix};
use nprs::extract::cser::feature::{Feature, NumHoles};
use nprs::extract::cser::Incremental;
use nprs::image::Image;
use nprs::structures::{Point, Ratio};

#[test]
fn count_patterns_test_1() {
    // +-----+--+
    // |xx|  |  |    c1: 1
    // +--------+    c3: 2
    // |xx|xx|  |    cd: 1
    // +--------+
    // |xx|  |xx|
    // +---------

    let m = [[1, 0, 0], [1, 1, 0], [1, 0, 1]];
    let expected = (1, 2, 1);

    let actual = count_patterns(&m);

    assert_eq!(actual, expected);
}

#[test]
fn count_patterns_test_2() {
    let m = [[0, 0, 0], [0, 0, 0], [0, 0, 0]];
    let expected = (0, 0, 0);

    let actual = count_patterns(&m);

    assert_eq!(actual, expected);
}

#[test]
fn count_patterns_test_3() {
    // +-----+--+
    // |xx|  |  |    c1: 2
    // +--------+    c3: 0
    // |  |xx|  |    cd: 2
    // +--------+
    // |  |  |xx|
    // +---------

    let m = [[1, 0, 0], [0, 1, 0], [0, 0, 1]];
    let expected = (2, 0, 2);

    let actual = count_patterns(&m);

    assert_eq!(actual, expected);
}

#[test]
fn count_patterns_test_4() {
    // +-----+--+
    // |  |xx|xx|    c1: 1
    // +--------+    c3: 1
    // |  |xx|  |    cd: 1
    // +--------+
    // |  |  |xx|
    // +---------

    let m = [[0, 1, 1], [0, 1, 0], [0, 0, 1]];
    let expected = (1, 1, 1);

    let actual = count_patterns(&m);

    assert_eq!(actual, expected);
}

#[test]
fn count_patterns_test_5() {
    let m = [[1, 1, 1], [1, 1, 1], [1, 1, 1]];
    let expected = (0, 0, 0);

    let actual = count_patterns(&m);

    assert_eq!(actual, expected);
}

fn labelled(b: &[u8], w: usize, h: usize) -> Image<Option<usize>> {
    let data: Vec<Option<usize>> =
        b.iter().map(|x| if *x != 0u8 { Some((*x - 1) as usize) } else { None }).collect();
    Image::from_data(data, w, h).unwrap()
}

#[test]
fn fill_mat_test() {
    let b: Vec<u8> = vec![
        1, 1, 1, 0, //
        0, 0, 1, 0, //
        2, 2, 0, 3, //
        0, 0, 0, 3, //
    ];
    let reg_image = labelled(&b, 4, 4);

    let expected_m = [[0, 1, 1], [0, 0, 0], [0, 0, 0]];

    let mut actual_m: Matrix = [[0; 3]; 3];
    fill_mat(Point { x: 0, y: 1 }, &mut actual_m, &reg_image, 0);

    assert_eq!(actual_m, expected_m);
}

#[test]
fn fill_mat_keeps_cells_outside_the_grid() {
    let reg_image = labelled(&[1, 0, 0, 1], 2, 2);
    let mut m: Matrix = [[7; 3]; 3];
    fill_mat(Point { x: 0, y: 0 }, &mut m, &reg_image, 0);
    // rows are y - 1 .. y + 1, columns x - 1 .. x + 1
    assert_eq!(m, [[7, 7, 7], [7, 1, 0], [7, 0, 1]]);
}

fn value_of(h: &NumHoles) -> Vec<Ratio> {
    let mut out = vec![];
    h.value(&mut out);
    out
}

#[test]
fn fresh_region_has_value_one() {
    let h = NumHoles::init(Point { x: 1, y: 1 }, 0);
    assert_eq!(h.quarters(), 0);
    assert_eq!(h.reg_idx(), 0);
    assert_eq!(value_of(&h), vec![Ratio { num: 4, den: 4 }]);
}

#[test]
fn increment_adds_quarter_genus_of_the_new_pixel() {
    let img: Image<u8> = Image::from_data(vec![0; 9], 3, 3).unwrap();
    // nothing around the pixel is owned: all four blocks go from no set cell to one.
    let reg_image = labelled(&[0; 9], 3, 3);
    let mut h = NumHoles::init(Point { x: 1, y: 1 }, 0);
    h.increment(Point { x: 1, y: 1 }, &img, &reg_image);
    assert_eq!(h.quarters(), 4);
    assert_eq!(value_of(&h), vec![Ratio { num: 0, den: 4 }]);

    // the left neighbour is owned: the two left blocks go from one to two adjacent
    // cells, the two right blocks from none to one.
    let reg_image = labelled(&[0, 0, 0, 1, 0, 0, 0, 0, 0], 3, 3);
    let mut h = NumHoles::init(Point { x: 0, y: 1 }, 0);
    h.increment(Point { x: 1, y: 1 }, &img, &reg_image);
    assert_eq!(h.quarters(), 0);

    // the pixel closes a ring: all eight cells around it are owned; the four blocks
    // go from three set cells to four.
    let reg_image = labelled(&[1, 1, 1, 1, 0, 1, 1, 1, 1], 3, 3);
    let mut h = NumHoles::init(Point { x: 0, y: 0 }, 0);
    h.increment(Point { x: 1, y: 1 }, &img, &reg_image);
    assert_eq!(h.quarters(), 4);

    // two diagonal neighbours: upper left block and lower right block get a third
    // cell on top of a diagonal... the blocks with the owned corners go from one to
    // two diagonal cells, the other two from none to one.
    let reg_image = labelled(&[1, 0, 0, 0, 0, 0, 0, 0, 1], 3, 3);
    let mut h = NumHoles::init(Point { x: 0, y: 0 }, 0);
    h.increment(Point { x: 1, y: 1 }, &img, &reg_image);
    assert_eq!(h.quarters(), 4);
}

#[test]
fn merge_adds_genus() {
    let img: Image<u8> = Image::from_data(vec![0; 9], 3, 3).unwrap();
    let reg_image = labelled(&[0; 9], 3, 3);
    let mut a = NumHoles::init(Point { x: 1, y: 1 }, 0);
    a.increment(Point { x: 1, y: 1 }, &img, &reg_image);
    let mut b = NumHoles::init(Point { x: 0, y: 1 }, 1);
    b.increment(Point { x: 1, y: 1 }, &img, &reg_image);
    a.merge(&b, &img, &reg_image);
    assert_eq!(a.quarters(), 8);
    assert_eq!(a.reg_idx(), 0);
    assert_eq!(value_of(&a), vec![Ratio { num: -4, den: 4 }]);
}
