use nprs::extract::cser::detector::detect_regions;
use nprs::extract::cser::detector::detector::{find_neighbors, hist, index_twice, process_point, sweep};
use nprs::extract::cser::feature::{AspectRatio, Compactness, HorizontalCrossings, NumHoles};
use nprs::extract::cser::{CserDetector, EmptyTrace, Region};
use nprs::extract::{ExtremalRegion, RegionDetector};
use nprs::image::Image;
use nprs::structures::{Point, Ratio, Rect};

type Reg = Region<AspectRatio>;

#[test]
fn hist_test() {
    let data = vec![0, 6, 233, 6, 13, 200, 13, 13];
    let image: Image<u8> = Image::from_data(data, 4, 2).unwrap();
    let hist = hist(&image);

    assert_eq!(hist.len(), 256);
    assert_eq!(hist[0].len(), 1);
    assert_eq!(hist[13].len(), 3);
    assert_eq!(hist[6].len(), 2);
}

#[test]
fn hist_lists_pixels_column_by_column() {
    let data = vec![0, 6, 233, 6, 13, 200, 13, 13];
    let image: Image<u8> = Image::from_data(data, 4, 2).unwrap();
    let hist = hist(&image);
    assert_eq!(hist[0], vec![Point { x: 0, y: 0 }]);
    assert_eq!(hist[6], vec![Point { x: 1, y: 0 }, Point { x: 3, y: 0 }]);
    assert_eq!(hist[13], vec![Point { x: 0, y: 1 }, Point { x: 2, y: 1 }, Point { x: 3, y: 1 }]);
    assert_eq!(hist[200], vec![Point { x: 1, y: 1 }]);
    assert_eq!(hist[233], vec![Point { x: 2, y: 0 }]);
    assert_eq!(hist.iter().map(|b| b.len()).sum::<usize>(), 8);
    let white: Image<u8> = Image::from_data(vec![255], 1, 1).unwrap();
    assert_eq!(hist_of_255(&white), vec![Point { x: 0, y: 0 }]);
}

fn hist_of_255(image: &Image<u8>) -> Vec<Point> {
    hist(image)[255].clone()
}

fn labelled(b: &[u8], w: usize, h: usize, shift: usize) -> Image<Option<usize>> {
    let data: Vec<Option<usize>> =
        b.iter().map(|x| if *x != 0u8 { Some(*x as usize - shift) } else { None }).collect();
    Image::from_data(data, w, h).unwrap()
}

#[test]
fn count_neighbors_test() {
    let b: Vec<u8> = vec![
        0, 1, 2, 0, //
        0, 0, 2, 0, //
        0, 4, 0, 5, //
        0, 0, 6, 7, //
    ];
    let img = labelled(&b, 4, 4, 0);
    let mut neighbors_buf: Vec<usize> = vec![];

    find_neighbors(&img, Point { x: 0, y: 0 }, &mut neighbors_buf);
    assert_eq!(neighbors_buf.len(), 1);

    find_neighbors(&img, Point { x: 2, y: 2 }, &mut neighbors_buf);
    assert_eq!(neighbors_buf.len(), 4);

    find_neighbors(&img, Point { x: 3, y: 3 }, &mut neighbors_buf);
    assert_eq!(neighbors_buf.len(), 2);

    find_neighbors(&img, Point { x: 3, y: 1 }, &mut neighbors_buf);
    assert_eq!(neighbors_buf.len(), 2);

    find_neighbors(&img, Point { x: 3, y: 3 }, &mut neighbors_buf);
    let expected_points = vec![5, 6];
    assert_eq!(neighbors_buf, expected_points);
}

#[test]
fn find_neighbors_lists_each_owner_once_in_ascending_order() {
    let b: Vec<u8> = vec![
        0, 1, 1, 0, //
        0, 0, 1, 0, //
        2, 2, 0, 3, //
        0, 0, 0, 3, //
    ];
    let img = labelled(&b, 4, 4, 1);
    let mut buf: Vec<usize> = vec![9, 9, 9];

    // the one labelled neighbour of (3,3) is the pixel above it
    find_neighbors(&img, Point { x: 3, y: 3 }, &mut buf);
    assert_eq!(buf, vec![2]);

    find_neighbors(&img, Point { x: 2, y: 2 }, &mut buf);
    assert_eq!(buf, vec![0, 1, 2]);

    // two neighbours with one owner
    find_neighbors(&img, Point { x: 1, y: 1 }, &mut buf);
    assert_eq!(buf, vec![0, 1]);
    find_neighbors(&img, Point { x: 3, y: 0 }, &mut buf);
    assert_eq!(buf, vec![0]);

    find_neighbors(&img, Point { x: 0, y: 3 }, &mut buf);
    assert_eq!(buf, vec![1]);
    find_neighbors(&img, Point { x: 3, y: 1 }, &mut buf);
    assert_eq!(buf, vec![0, 2]);

    let lonely = labelled(&[0; 16], 4, 4, 1);
    find_neighbors(&lonely, Point { x: 1, y: 1 }, &mut buf);
    assert_eq!(buf, Vec::<usize>::new());
}

#[test]
fn index_twice_returns_references_to_indexed_elements() {
    let mut sl = [1, 2, 3, 4];

    if let Some((a, b)) = index_twice(&mut sl, 1, 3) {
        assert_eq!(*a, 2);
        assert_eq!(*b, 4);
        *a = 20;
        *b = 40;
    } else {
        panic!("got None");
    }
    assert_eq!(sl, [1, 20, 3, 40]);

    if let Some((a, b)) = index_twice(&mut sl, 2, 0) {
        assert_eq!(*a, 3);
        assert_eq!(*b, 1);
        *a = 30;
    } else {
        panic!("got None");
    }
    assert_eq!(sl, [1, 20, 30, 40]);
}

#[test]
fn index_twice_refuses_equal_or_missing_positions() {
    let mut sl = [1, 2, 3, 4];
    assert!(index_twice(&mut sl, 1, 1).is_none());
    assert!(index_twice(&mut sl, 1, 4).is_none());
    assert!(index_twice(&mut sl, 4, 1).is_none());
    assert!(index_twice(&mut sl, 7, 9).is_none());
    let mut none: [u8; 0] = [];
    assert!(index_twice(&mut none, 0, 1).is_none());
}

fn region_of(points: &[Point], idx: usize, img: &Image<u8>, reg: &Image<Option<usize>>) -> Reg {
    let mut r = Reg::init(points[0], idx, 0);
    for p in &points[1..] {
        r.increment(*p, 0, img, reg);
    }
    r
}

struct Scene {
    img: Image<u8>,
    reg_img: Image<Option<usize>>,
    regions: Vec<Reg>,
    buf: Vec<usize>,
}

fn scene() -> Scene {
    let img: Image<u8> = Image::from_data(vec![0; 24], 6, 4).unwrap();
    let b: Vec<u8> = vec![
        0, 1, 1, 0, 0, 0, //
        0, 0, 1, 0, 0, 0, //
        2, 2, 0, 3, 0, 0, //
        0, 0, 0, 3, 0, 0, //
    ];
    let reg_img = labelled(&b, 6, 4, 1);
    let r1 = region_of(&[Point { x: 1, y: 0 }, Point { x: 2, y: 0 }, Point { x: 2, y: 1 }], 0, &img, &reg_img);
    let r2 = region_of(&[Point { x: 0, y: 2 }, Point { x: 1, y: 2 }], 1, &img, &reg_img);
    let r3 = region_of(&[Point { x: 3, y: 2 }, Point { x: 3, y: 3 }], 2, &img, &reg_img);
    Scene { img, reg_img, regions: vec![r1, r2, r3], buf: vec![] }
}

#[test]
fn process_point_creates_region_without_adjacent_regions() {
    let mut s = scene();
    let new_point = Point { x: 5, y: 0 };
    process_point(new_point, 0, &s.img, &mut s.reg_img, &mut s.regions, &mut s.buf);
    assert_eq!(s.regions.len(), 4);
    assert_eq!(s.regions.last().unwrap().points(), &[new_point][..]);
    assert_eq!(s.regions.last().unwrap().peaks().len(), 0);
    assert_eq!(s.buf, Vec::<usize>::new());

    let b: Vec<u8> = vec![
        0, 1, 1, 0, 0, 4, //
        0, 0, 1, 0, 0, 0, //
        2, 2, 0, 3, 0, 0, //
        0, 0, 0, 3, 0, 0, //
    ];
    assert_eq!(s.reg_img.data(), labelled(&b, 6, 4, 1).data());
}

#[test]
fn process_point_increments_the_only_adjacent_region() {
    let mut s = scene();
    process_point(Point { x: 0, y: 0 }, 0, &s.img, &mut s.reg_img, &mut s.regions, &mut s.buf);

    let b: Vec<u8> = vec![
        1, 1, 1, 0, 0, 0, //
        0, 0, 1, 0, 0, 0, //
        2, 2, 0, 3, 0, 0, //
        0, 0, 0, 3, 0, 0, //
    ];
    assert_eq!(s.reg_img.data(), labelled(&b, 6, 4, 1).data());
    assert_eq!(s.regions.len(), 3);
    assert_eq!(s.regions[0].points().len(), 4);
    assert_eq!(s.regions[0].points()[3], Point { x: 0, y: 0 });
    assert_eq!(s.regions[1].points().len(), 2);
    assert_eq!(s.buf, vec![0]);
}

#[test]
fn process_point_merges_two_adjacent_regions() {
    let mut s = scene();
    process_point(Point { x: 1, y: 1 }, 7, &s.img, &mut s.reg_img, &mut s.regions, &mut s.buf);

    let b: Vec<u8> = vec![
        0, 1, 1, 0, 0, 0, //
        0, 1, 1, 0, 0, 0, //
        1, 1, 0, 3, 0, 0, //
        0, 0, 0, 3, 0, 0, //
    ];
    assert_eq!(s.reg_img.data(), labelled(&b, 6, 4, 1).data());
    assert_eq!(s.buf, vec![0, 1]);
    assert_eq!(
        s.regions[0].points(),
        &[
            Point { x: 1, y: 0 },
            Point { x: 2, y: 0 },
            Point { x: 2, y: 1 },
            Point { x: 1, y: 1 },
            Point { x: 0, y: 2 },
            Point { x: 1, y: 2 },
        ][..]
    );
    assert_eq!(s.regions[0].bounds(), Rect(Point { x: 0, y: 0 }, Point { x: 2, y: 2 }));
    assert_eq!(s.regions[0].threshold(), 7);
    // the absorbed region stays as it was
    assert_eq!(s.regions[1].points(), &[Point { x: 0, y: 2 }, Point { x: 1, y: 2 }][..]);
    assert_eq!(s.regions[1].threshold(), 0);
    assert_eq!(s.regions[2].points().len(), 2);
}

#[test]
fn process_point_merges_all_adjacent_regions() {
    let mut s = scene();
    process_point(Point { x: 2, y: 2 }, 0, &s.img, &mut s.reg_img, &mut s.regions, &mut s.buf);

    let b: Vec<u8> = vec![
        0, 1, 1, 0, 0, 0, //
        0, 0, 1, 0, 0, 0, //
        1, 1, 1, 1, 0, 0, //
        0, 0, 0, 1, 0, 0, //
    ];
    assert_eq!(s.reg_img.data(), labelled(&b, 6, 4, 1).data());
    // largest first; of two regions of one size the one with the higher index first
    assert_eq!(s.buf, vec![0, 2, 1]);
    assert_eq!(
        s.regions[0].points(),
        &[
            Point { x: 1, y: 0 },
            Point { x: 2, y: 0 },
            Point { x: 2, y: 1 },
            Point { x: 2, y: 2 },
            Point { x: 3, y: 2 },
            Point { x: 3, y: 3 },
            Point { x: 0, y: 2 },
            Point { x: 1, y: 2 },
        ][..]
    );
    assert_eq!(s.regions[0].bounds(), Rect(Point { x: 0, y: 0 }, Point { x: 3, y: 3 }));
}

#[test]
fn process_point_lets_the_larger_region_survive() {
    let img: Image<u8> = Image::from_data(vec![0; 5], 5, 1).unwrap();
    let reg_img = labelled(&[1, 0, 2, 2, 2], 5, 1, 1);
    let small = region_of(&[Point { x: 0, y: 0 }], 0, &img, &reg_img);
    let large = region_of(&[Point { x: 2, y: 0 }, Point { x: 3, y: 0 }, Point { x: 4, y: 0 }], 1, &img, &reg_img);
    let mut regions = vec![small, large];
    let mut reg_img = reg_img;
    let mut buf = vec![];
    process_point(Point { x: 1, y: 0 }, 3, &img, &mut reg_img, &mut regions, &mut buf);
    assert_eq!(buf, vec![1, 0]);
    assert_eq!(reg_img.data(), &[Some(1); 5][..]);
    assert_eq!(regions[1].points().len(), 5);
    assert_eq!(regions[0].points().len(), 1);
}

#[test]
fn single_pixel_image_yields_one_region() {
    let img: Image<u8> = Image::from_data(vec![5], 1, 1).unwrap();
    let mut trace = EmptyTrace;
    let (regions, own): (Vec<Reg>, Image<Option<usize>>) = sweep(&img, &mut trace);
    assert_eq!(regions.len(), 1);
    assert_eq!(regions[0].points(), &[Point { x: 0, y: 0 }][..]);
    assert_eq!(regions[0].point_count(), 1);
    assert_eq!(regions[0].peaks().len(), 0);
    assert_eq!(regions[0].threshold(), 5);
    assert_eq!(own.data(), &[Some(0)][..]);

    let regions: Vec<Reg> = detect_regions(&img);
    assert_eq!(regions.len(), 1);
    assert_eq!(regions[0].points(), &[Point { x: 0, y: 0 }][..]);
    assert_eq!(regions[0].peaks().len(), 0);
}

#[test]
fn empty_image_yields_no_region() {
    let img: Image<u8> = Image::from_data(vec![], 0, 0).unwrap();
    let regions: Vec<Reg> = detect_regions(&img);
    assert_eq!(regions.len(), 0);
}

#[test]
fn brightest_pixels_are_swept_too() {
    let img: Image<u8> = Image::from_data(vec![255, 0, 255], 3, 1).unwrap();
    let mut trace = EmptyTrace;
    let (regions, own): (Vec<Reg>, Image<Option<usize>>) = sweep(&img, &mut trace);
    assert_eq!(own.data(), &[Some(0), Some(0), Some(0)][..]);
    assert_eq!(regions.len(), 1);
    assert_eq!(regions[0].points(), &[Point { x: 1, y: 0 }, Point { x: 0, y: 0 }, Point { x: 2, y: 0 }][..]);
    assert_eq!(regions[0].threshold(), 255);
}

#[test]
fn every_pixel_is_owned_after_a_sweep() {
    let data: Vec<u8> = vec![
        9, 1, 9, 3, 3, //
        9, 1, 9, 9, 3, //
        1, 1, 9, 0, 9, //
        9, 9, 9, 9, 9, //
    ];
    let img: Image<u8> = Image::from_data(data, 5, 4).unwrap();
    let mut trace = EmptyTrace;
    let (regions, own): (Vec<Region<(AspectRatio, Compactness, HorizontalCrossings, NumHoles)>>, _) =
        sweep(&img, &mut trace);
    assert!(own.data().iter().all(|c| c.is_some()));
    assert_eq!(own.dimensions(), (5, 4));
    // the single 0, the 3s, and the 1s, which start as two regions in scan order
    assert_eq!(regions.len(), 4);
    let owner = own.pixel(0, 0).unwrap();
    assert!(own.data().iter().all(|c| *c == Some(owner)));
    assert_eq!(regions[owner].points().len(), 20);
    for (x, y) in [(0, 0), (4, 3), (3, 2), (1, 1)] {
        assert!(regions[owner].points().contains(&Point { x, y }));
    }
    assert_eq!(regions[owner].bounds(), Rect(Point { x: 0, y: 0 }, Point { x: 4, y: 3 }));
}

#[test]
fn sweep_follows_thresholds_and_scan_order() {
    // 0 | 1 | 0 : two regions at threshold 0, joined at threshold 1
    let img: Image<u8> = Image::from_data(vec![0, 1, 0], 3, 1).unwrap();
    let mut trace = EmptyTrace;
    let (regions, own): (Vec<Reg>, Image<Option<usize>>) = sweep(&img, &mut trace);
    assert_eq!(regions.len(), 2);
    // both have one pixel when they meet: the one with the higher index survives
    assert_eq!(own.data(), &[Some(1), Some(1), Some(1)][..]);
    assert_eq!(regions[1].points(), &[Point { x: 2, y: 0 }, Point { x: 1, y: 0 }, Point { x: 0, y: 0 }][..]);
    assert_eq!(regions[1].threshold(), 1);
    assert_eq!(regions[1].bounds(), Rect(Point { x: 0, y: 0 }, Point { x: 2, y: 0 }));
    assert_eq!(regions[1].peaks().len(), 0);
    assert_eq!(regions[0].points(), &[Point { x: 0, y: 0 }][..]);
    assert_eq!(regions[0].threshold(), 0);
}

#[test]
fn detector_returns_the_regions_of_the_sweep() {
    let img: Image<u8> = Image::from_data(vec![0, 1, 0], 3, 1).unwrap();
    let mut trace = EmptyTrace;
    let regions: Vec<Reg> = CserDetector::<Reg, EmptyTrace>::detect(&img, &mut trace);
    assert_eq!(regions.len(), 2);
    assert_eq!(regions[1].points().len(), 3);
    let _detector: CserDetector<Reg, EmptyTrace> = CserDetector::new();
}

#[test]
fn features_of_detected_regions() {
    // a dark plus sign on a bright ground
    let data: Vec<u8> = vec![
        9, 0, 9, //
        0, 0, 0, //
        9, 0, 9, //
    ];
    let img: Image<u8> = Image::from_data(data, 3, 3).unwrap();
    let mut trace = EmptyTrace;
    let (regions, own): (Vec<Region<(AspectRatio, Compactness)>>, _) = sweep(&img, &mut trace);
    // the left arm and the upper arm start as regions of their own; the centre joins them
    assert_eq!(regions.len(), 2);
    assert!(own.data().iter().all(|c| *c == Some(1)));
    assert_eq!(regions[1].points().len(), 9);
    assert_eq!(regions[0].points().len(), 1);
    let mut v = vec![];
    regions[1].feature_vec(&mut v);
    assert_eq!(v.len(), 2);
    assert_eq!(v[0], Ratio { num: 3, den: 3 });
    assert_eq!(v[1].den, 9);
}
