use nprs::structures::{Point, Ratio, Rect};

#[test]
fn expand_1() {
    let r1 = Rect(Point { x: 2, y: 2 }, Point { x: 5, y: 5 });
    let r2 = Rect(Point { x: 5, y: 3 }, Point { x: 6, y: 3 });
    let expected = Rect(Point { x: 2, y: 2 }, Point { x: 6, y: 5 });

    let actual = r1.expand(r2);

    assert_eq!(actual, expected);
}

#[test]
fn expand_2() {
    let r1 = Rect(Point { x: 2, y: 2 }, Point { x: 5, y: 5 });
    let r2 = Rect(Point { x: 1, y: 3 }, Point { x: 2, y: 4 });
    let expected = Rect(Point { x: 1, y: 2 }, Point { x: 5, y: 5 });

    let actual = r1.expand(r2);

    assert_eq!(actual, expected);
}

#[test]
fn expand_3() {
    let r1 = Rect(Point { x: 2, y: 2 }, Point { x: 5, y: 5 });
    let r2 = Rect(Point { x: 0, y: 3 }, Point { x: 3, y: 6 });
    let expected = Rect(Point { x: 0, y: 2 }, Point { x: 5, y: 6 });

    let actual = r1.expand(r2);

    assert_eq!(actual, expected);
}

#[test]
fn expand_4() {
    //
    //                    +---+---+
    //                    |6,0|   |
    //                    +-- +---+
    //                    |   |7,1|
    //    +-------+---+---+---+---+
    //    |2,2|   |   |   |
    //    +---------------+
    //    |   |   |   |   |
    //    +---------------+
    //    |   |   |   |5,4|
    //    +---+---+-------+

    // arrange
    let r1 = Rect(Point { x: 2, y: 2 }, Point { x: 5, y: 4 });
    let r2 = Rect(Point { x: 6, y: 0 }, Point { x: 7, y: 1 });

    let expected = Rect(Point { x: 2, y: 0 }, Point { x: 7, y: 4 });

    // act
    let merged = r1.expand(r2);

    // assert
    assert_eq!(expected, merged);
}

#[test]
fn width_1_point() {
    let r = Rect(Point { x: 1, y: 1 }, Point { x: 1, y: 1 });
    assert_eq!(r.width(), 1);
}

#[test]
fn height_1_point() {
    let r = Rect(Point { x: 1, y: 1 }, Point { x: 1, y: 1 });
    assert_eq!(r.height(), 1);
}

#[test]
fn expand_is_commutative_and_idempotent() {
    let a = Rect(Point { x: -3, y: 4 }, Point { x: 8, y: 9 });
    let b = Rect(Point { x: 0, y: -7 }, Point { x: 2, y: 30 });
    assert_eq!(a.expand(b), b.expand(a));
    assert_eq!(a.expand(b), Rect(Point { x: -3, y: -7 }, Point { x: 8, y: 30 }));
    assert_eq!(a.expand(a), a);
    assert_eq!(b.expand(b), b);
}

#[test]
fn width_and_height_count_both_borders() {
    let r = Rect(Point { x: 2, y: 2 }, Point { x: 6, y: 4 });
    assert_eq!(r.width(), 5);
    assert_eq!(r.height(), 3);
    assert_eq!(r.aspect_ratio(), Ratio { num: 5, den: 3 });
}

#[test]
fn aspect_ratio_of_extreme_rect_does_not_wrap() {
    let r = Rect(Point { x: i32::MIN, y: 0 }, Point { x: i32::MAX, y: 0 });
    assert_eq!(r.aspect_ratio(), Ratio { num: 4294967296, den: 1 });
}

#[test]
fn ratio_constructors() {
    assert_eq!(Ratio::new(3, 4), Ratio { num: 3, den: 4 });
    assert_eq!(Ratio::from_int(-7), Ratio { num: -7, den: 1 });
}
