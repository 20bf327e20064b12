use nprs::extract::cser::feature::{AspectRatio, Compactness};
use nprs::extract::cser::{Region, TracedRegion};
use nprs::extract::ExtremalRegion;
use nprs::image::Image;
use nprs::structures::{Point, Ratio, Rect};

type Reg = Region<AspectRatio>;

fn row(w: usize) -> (Image<u8>, Image<Option<usize>>) {
    (Image::from_data(vec![0; w], w, 1).unwrap(), Image::from_data(vec![None; w], w, 1).unwrap())
}

fn run(from: i32, to: i32, idx: usize, img: &Image<u8>, reg: &Image<Option<usize>>) -> Reg {
    let mut r = Reg::init(Point { x: from, y: 0 }, idx, 0);
    for x in from + 1..=to {
        r.increment(Point { x, y: 0 }, 0, img, reg);
    }
    r
}

#[test]
fn init_creates_region_of_one_point() {
    let region: Reg = Reg::init(Point { x: 6, y: 3 }, 0, 4);
    assert_eq!(region.bounds(), Rect(Point { x: 6, y: 3 }, Point { x: 6, y: 3 }));
    assert_eq!(region.points(), &[Point { x: 6, y: 3 }][..]);
    assert_eq!(region.point_count(), 1);
    assert_eq!(region.features().bounds(), Rect(Point { x: 6, y: 3 }, Point { x: 6, y: 3 }));
    assert_eq!(region.weight(), Ratio { num: -50, den: 50 });
    assert_eq!(region.peaks().len(), 0);
    assert_eq!(region.threshold(), 4);
}

#[test]
fn increment_adds_point_and_expands_bounds() {
    let img: Image<u8> = Image::from_data(vec![0; 70], 7, 10).unwrap();
    let reg_img: Image<Option<usize>> = Image::from_data(vec![None; 70], 7, 10).unwrap();
    let mut region: Reg = Reg::init(Point { x: 6, y: 3 }, 0, 0);
    region.increment(Point { x: 6, y: 4 }, 9, &img, &reg_img);
    assert_eq!(region.points(), &[Point { x: 6, y: 3 }, Point { x: 6, y: 4 }][..]);
    assert_eq!(region.bounds(), Rect(Point { x: 6, y: 3 }, Point { x: 6, y: 4 }));
    assert_eq!(region.features().bounds(), Rect(Point { x: 6, y: 3 }, Point { x: 6, y: 4 }));
    assert_eq!(region.threshold(), 9);
    assert_eq!(region.weight(), Ratio { num: 2, den: 50 });
    assert_eq!(region.peaks().len(), 0);
}

#[test]
fn merge_adds_points_bounds_and_features() {
    let img: Image<u8> = Image::from_data(vec![0; 80], 8, 10).unwrap();
    let reg_img: Image<Option<usize>> = Image::from_data(vec![None; 80], 8, 10).unwrap();
    let mut r1: Reg = Reg::init(Point { x: 6, y: 3 }, 0, 0);
    r1.increment(Point { x: 6, y: 4 }, 0, &img, &reg_img);
    let r2: Reg = Reg::init(Point { x: 7, y: 3 }, 1, 0);

    r1.merge(&r2, 5, &img, &reg_img);

    assert_eq!(r1.points(), &[Point { x: 6, y: 3 }, Point { x: 6, y: 4 }, Point { x: 7, y: 3 }][..]);
    assert_eq!(r1.bounds(), Rect(Point { x: 6, y: 3 }, Point { x: 7, y: 4 }));
    assert_eq!(r1.features().bounds(), Rect(Point { x: 6, y: 3 }, Point { x: 7, y: 4 }));
    assert_eq!(r1.threshold(), 5);
    assert_eq!(r1.weight(), Ratio { num: 3, den: 50 });
    assert_eq!(r2.points().len(), 1);
}

#[test]
fn merged_single_pixel_regions_add_up() {
    let (img, reg) = row(4);
    let mut a: Reg = Reg::init(Point { x: 0, y: 0 }, 0, 0);
    let b: Reg = Reg::init(Point { x: 1, y: 0 }, 1, 0);
    let before = a.point_count() + b.point_count();
    a.merge(&b, 1, &img, &reg);
    assert_eq!(a.point_count(), before);
    assert_eq!(a.point_count(), 2);
    assert_eq!(a.points(), &[Point { x: 0, y: 0 }, Point { x: 1, y: 0 }][..]);
    assert_eq!(a.peaks().len(), 0);
    assert_eq!(a.weight(), Ratio { num: 2, den: 50 });
}

#[test]
fn growing_pixel_by_pixel_makes_no_peak() {
    let (img, reg) = row(120);
    let r = run(0, 119, 0, &img, &reg);
    assert_eq!(r.point_count(), 120);
    assert_eq!(r.peaks().len(), 0);
    assert_eq!(r.weight(), Ratio { num: 20, den: 50 });
}

#[test]
fn a_jump_followed_by_a_drop_is_a_peak() {
    let (img, reg) = row(60);
    // two pixels: weight 2/50
    let mut a = run(0, 1, 0, &img, &reg);
    assert_eq!(a.weight(), Ratio { num: 2, den: 50 });
    // three more: weight 5/50, a jump of more than a twentieth
    let b = run(2, 4, 1, &img, &reg);
    a.merge(&b, 3, &img, &reg);
    assert_eq!(a.weight(), Ratio { num: 5, den: 50 });
    assert_eq!(a.peaks().len(), 0);
    // forty-five more: fifty pixels, weight 0, a drop of more than a twentieth
    let c = run(5, 49, 2, &img, &reg);
    assert_eq!(c.point_count(), 45);
    a.merge(&c, 8, &img, &reg);
    assert_eq!(a.point_count(), 50);
    assert_eq!(a.weight(), Ratio { num: 0, den: 50 });
    assert_eq!(a.threshold(), 8);
    assert_eq!(a.peaks().len(), 1);
    assert_eq!(a.peaks()[0].0, Rect(Point { x: 0, y: 0 }, Point { x: 49, y: 0 }));
    assert_eq!(a.peaks()[0].1.bounds(), Rect(Point { x: 0, y: 0 }, Point { x: 49, y: 0 }));
    // the next step is no peak: the weight before it was lower
    a.increment(Point { x: 50, y: 0 }, 9, &img, &reg);
    assert_eq!(a.peaks().len(), 1);
    assert_eq!(a.weight(), Ratio { num: 1, den: 50 });
}

#[test]
fn a_small_jump_is_no_peak() {
    let (img, reg) = row(60);
    // 46 pixels, then 2 more (weight 46 -> 48, a jump of 2/50), then 2 more (weight 0)
    let mut a = run(0, 45, 0, &img, &reg);
    let b = run(46, 47, 1, &img, &reg);
    a.merge(&b, 0, &img, &reg);
    assert_eq!(a.weight(), Ratio { num: 48, den: 50 });
    let c = run(48, 49, 2, &img, &reg);
    a.merge(&c, 0, &img, &reg);
    assert_eq!(a.weight(), Ratio { num: 0, den: 50 });
    assert_eq!(a.peaks().len(), 0);
    // 45 pixels, then 3 more (a jump of 3/50), then 2 more: a peak
    let mut a = run(0, 44, 0, &img, &reg);
    let b = run(45, 47, 1, &img, &reg);
    a.merge(&b, 0, &img, &reg);
    let c = run(48, 49, 2, &img, &reg);
    a.merge(&c, 0, &img, &reg);
    assert_eq!(a.peaks().len(), 1);
    assert_eq!(a.peaks()[0].0, Rect(Point { x: 0, y: 0 }, Point { x: 49, y: 0 }));
}

#[test]
fn feature_vec_appends_feature_scalars() {
    let (img, reg) = row(4);
    let mut r: Region<(AspectRatio, Compactness)> = Region::init(Point { x: 0, y: 0 }, 0, 0);
    r.increment(Point { x: 1, y: 0 }, 0, &img, &reg);
    let mut v = vec![Ratio { num: 9, den: 9 }];
    r.feature_vec(&mut v);
    assert_eq!(v, vec![Ratio { num: 9, den: 9 }, Ratio { num: 2, den: 1 }, Ratio { num: 3, den: 2 }]);
}

#[test]
fn traced_region_behaves_as_its_region() {
    let (img, reg) = row(4);
    let mut t: TracedRegion<Reg> = TracedRegion::init(Point { x: 0, y: 0 }, 0, 2);
    t.increment(Point { x: 1, y: 0 }, 3, &img, &reg);
    let o: TracedRegion<Reg> = TracedRegion::init(Point { x: 2, y: 0 }, 1, 2);
    t.merge(&o, 4, &img, &reg);
    assert_eq!(t.points(), &[Point { x: 0, y: 0 }, Point { x: 1, y: 0 }, Point { x: 2, y: 0 }][..]);
    assert_eq!(t.points(), t.region.points());
    assert_eq!(t.bounds(), Rect(Point { x: 0, y: 0 }, Point { x: 2, y: 0 }));
    assert_eq!(t.threshold(), 4);
    assert_eq!(t.weight(), Ratio { num: 3, den: 50 });
    assert_eq!(t.peaks().len(), 0);
    let mut v = vec![];
    t.feature_vec(&mut v);
    assert_eq!(v, vec![Ratio { num: 3, den: 1 }]);
}
