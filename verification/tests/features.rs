use nprs::extract::cser::feature::{AspectRatio, Compactness, Feature, HorizontalCrossings, NumHoles};
use nprs::extract::cser::Incremental;
use nprs::image::Image;
use nprs::structures::{Point, Ratio, Rect};

fn blank(w: usize, h: usize) -> (Image<u8>, Image<Option<usize>>) {
    (Image::from_data(vec![0; w * h], w, h).unwrap(), Image::from_data(vec![None; w * h], w, h).unwrap())
}

#[test]
fn aspect_ratio_init_has_value_one() {
    let ar = AspectRatio::init(Point { x: 6, y: 3 }, 0);
    assert_eq!(ar.value(), Ratio { num: 1, den: 1 });
    assert_eq!(ar.bounds(), Rect(Point { x: 6, y: 3 }, Point { x: 6, y: 3 }));
}

#[test]
fn aspect_ratio_increment_expands_1() {
    //
    //    +-------+---+---+
    //    |2,2|   |   |   |
    //    +-------------------+
    //    |   |   |   |   |6,3|
    //    +-------------------+
    //    |   |   |   |5,4|
    //    +---+---+-------+
    let (img, reg) = blank(8, 8);
    let mut ar = AspectRatio::from_bounds(Rect(Point { x: 2, y: 2 }, Point { x: 5, y: 4 }));
    ar.increment(Point { x: 6, y: 3 }, &img, &reg);
    assert_eq!(ar.bounds(), Rect(Point { x: 2, y: 2 }, Point { x: 6, y: 4 }));
    assert_eq!(ar.value(), Ratio { num: 5, den: 3 });
    assert_eq!(ar.value().num as f32 / ar.value().den as f32, 5.0f32 / 3.0f32);
}

#[test]
fn aspect_ratio_increment_expands_2() {
    let (img, reg) = blank(8, 8);
    let mut ar = AspectRatio::from_bounds(Rect(Point { x: 2, y: 2 }, Point { x: 5, y: 4 }));
    ar.increment(Point { x: 1, y: 5 }, &img, &reg);
    assert_eq!(ar.bounds(), Rect(Point { x: 1, y: 2 }, Point { x: 5, y: 5 }));
    assert_eq!(ar.value(), Ratio { num: 5, den: 4 });
}

#[test]
fn aspect_ratio_merge_bounds_1() {
    let (img, reg) = blank(8, 8);
    let mut ar = AspectRatio::from_bounds(Rect(Point { x: 2, y: 2 }, Point { x: 5, y: 4 }));
    let ar2 = AspectRatio::from_bounds(Rect(Point { x: 0, y: 3 }, Point { x: 0, y: 5 }));
    ar.merge(&ar2, &img, &reg);
    assert_eq!(ar.bounds(), Rect(Point { x: 0, y: 2 }, Point { x: 5, y: 5 }));
    assert_eq!(ar.value(), Ratio { num: 6, den: 4 });
}

#[test]
fn aspect_ratio_merge_bounds_2() {
    let (img, reg) = blank(8, 8);
    let mut ar = AspectRatio::from_bounds(Rect(Point { x: 2, y: 2 }, Point { x: 5, y: 4 }));
    let ar2 = AspectRatio::from_bounds(Rect(Point { x: 6, y: 0 }, Point { x: 7, y: 1 }));
    ar.merge(&ar2, &img, &reg);
    assert_eq!(ar.bounds(), Rect(Point { x: 2, y: 0 }, Point { x: 7, y: 4 }));
    assert_eq!(ar.value(), Ratio { num: 6, den: 5 });
}

#[test]
fn aspect_ratio_emits_one_scalar() {
    let ar = AspectRatio::from_bounds(Rect(Point { x: 2, y: 2 }, Point { x: 6, y: 4 }));
    let mut out = vec![];
    Feature::value(&ar, &mut out);
    assert_eq!(out, vec![Ratio { num: 5, den: 3 }]);
}

fn compactness_value(c: &Compactness) -> Vec<Ratio> {
    let mut out = vec![];
    c.value(&mut out);
    out
}

#[test]
fn compactness_starts_at_one_over_one() {
    let c = Compactness::init(Point { x: 0, y: 0 }, 0);
    assert_eq!(c.perimeter(), 1);
    assert_eq!(c.area(), 1);
    assert_eq!(compactness_value(&c), vec![Ratio { num: 1, den: 1 }]);
}

#[test]
fn compactness_counts_neighbours_that_are_no_brighter() {
    let img: Image<u8> = Image::from_data(
        vec![
            5, 1, 9, //
            1, 5, 1, //
            9, 9, 0, //
        ],
        3,
        3,
    )
    .unwrap();
    let reg: Image<Option<usize>> = Image::from_data(vec![None; 9], 3, 3).unwrap();

    // centre: left, upper and right neighbour are darker, the lower one is brighter
    let mut c = Compactness::init(Point { x: 1, y: 0 }, 0);
    c.increment(Point { x: 1, y: 1 }, &img, &reg);
    assert_eq!(c.perimeter(), 2);
    assert_eq!(c.area(), 2);

    // corner: two neighbours outside, two darker
    c.increment(Point { x: 0, y: 0 }, &img, &reg);
    assert_eq!(c.perimeter(), 4);
    assert_eq!(c.area(), 3);

    // darkest pixel: neighbours above and left are brighter, the others outside
    c.increment(Point { x: 2, y: 2 }, &img, &reg);
    assert_eq!(c.perimeter(), 8);
    assert_eq!(c.area(), 4);

    // a neighbour of equal intensity counts
    let flat: Image<u8> = Image::from_data(vec![7; 9], 3, 3).unwrap();
    let mut c = Compactness::init(Point { x: 1, y: 0 }, 0);
    c.increment(Point { x: 1, y: 1 }, &flat, &reg);
    assert_eq!(c.perimeter(), 1);
    assert_eq!(compactness_value(&c), vec![Ratio { num: 1, den: 2 }]);
}

#[test]
fn compactness_merge_adds_both_counts() {
    let (img, reg) = blank(3, 3);
    let img9: Image<u8> = Image::from_data(vec![0, 9, 9, 9, 9, 9, 9, 9, 9], 3, 3).unwrap();
    let mut a = Compactness::init(Point { x: 0, y: 0 }, 0);
    a.increment(Point { x: 0, y: 0 }, &img9, &reg);
    assert_eq!((a.perimeter(), a.area()), (5, 2));
    let b = Compactness::init(Point { x: 1, y: 0 }, 1);
    a.merge(&b, &img, &reg);
    assert_eq!((a.perimeter(), a.area()), (6, 3));
    assert_eq!(compactness_value(&a), vec![Ratio { num: 6, den: 3 }]);
}

#[test]
fn tuples_forward_to_every_member_in_order() {
    let img: Image<u8> = Image::from_data(vec![3; 16], 4, 4).unwrap();
    let reg: Image<Option<usize>> = Image::from_data(vec![None; 16], 4, 4).unwrap();
    type Four = (AspectRatio, Compactness, HorizontalCrossings, NumHoles);
    let mut f = Four::init(Point { x: 1, y: 1 }, 2);
    f.increment(Point { x: 2, y: 1 }, &img, &reg);
    let mut out = vec![];
    f.value(&mut out);
    assert_eq!(
        out,
        vec![
            Ratio { num: 2, den: 1 },
            // both horizontal neighbours have the same intensity, so do the vertical ones
            Ratio { num: 1, den: 2 },
            // one scanline with 2 - 2 crossings
            Ratio { num: 0, den: 1 },
            // no cell around the pixel is marked as owned: genus one
            Ratio { num: 0, den: 4 },
        ]
    );

    let mut g = Four::init(Point { x: 2, y: 2 }, 5);
    g.merge(&f, &img, &reg);
    let mut out = vec![];
    g.value(&mut out);
    assert_eq!(
        out,
        vec![
            Ratio { num: 2, den: 2 },
            Ratio { num: 2, den: 3 },
            Ratio { num: 2, den: 1 },
            Ratio { num: 0, den: 4 },
        ]
    );
    assert_eq!(g.2.reg_idx(), 5);
    assert_eq!(g.3.reg_idx(), 5);
}

#[test]
fn pairs_triples_and_quintuples_concatenate_values() {
    let (img, reg) = blank(4, 4);
    let mut p = <(AspectRatio, Compactness)>::init(Point { x: 0, y: 0 }, 0);
    p.increment(Point { x: 0, y: 1 }, &img, &reg);
    let mut out = vec![];
    p.value(&mut out);
    // the pixel below the first has three neighbours of its own intensity
    assert_eq!(out, vec![Ratio { num: 1, den: 2 }, Ratio { num: 2, den: 2 }]);

    let t = <(AspectRatio, AspectRatio, Compactness)>::init(Point { x: 0, y: 0 }, 0);
    let mut out = vec![];
    t.value(&mut out);
    assert_eq!(out.len(), 3);

    let q = <(AspectRatio, Compactness, HorizontalCrossings, NumHoles, AspectRatio)>::init(Point { x: 3, y: 3 }, 1);
    let mut out = vec![];
    q.value(&mut out);
    assert_eq!(
        out,
        vec![
            Ratio { num: 1, den: 1 },
            Ratio { num: 1, den: 1 },
            Ratio { num: 2, den: 1 },
            Ratio { num: 4, den: 4 },
            Ratio { num: 1, den: 1 },
        ]
    );
    let s = q.snapshot();
    let mut out2 = vec![];
    s.value(&mut out2);
    assert_eq!(out2, out);
}
