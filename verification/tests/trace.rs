use nprs::extract::cser::detector::detector::sweep;
use nprs::extract::cser::export::{compress_outcome, zipped};
use nprs::extract::cser::feature::AspectRatio;
use nprs::extract::cser::trace::Report;
use nprs::extract::cser::{FullTrace, PrintTrace, Region, Trace, TraceWriteError, TracedRegion};
use nprs::extract::ExtremalRegion;
use nprs::image::Image;
use nprs::structures::{Point, Ratio, Rect};
use std::io::Read;

type Reg = Region<AspectRatio>;

#[test]
fn print_trace_reports_every_threshold_and_the_end() {
    let img: Image<u8> = Image::from_data(vec![5], 1, 1).unwrap();
    let mut trace = PrintTrace::new();
    let (regions, _own): (Vec<Reg>, _) = sweep(&img, &mut trace);
    assert_eq!(regions.len(), 1);
    let reports = trace.reports();
    assert_eq!(reports.len(), 257);
    assert_eq!(reports[0], Report::Step { num: 0, regions: 0 });
    assert_eq!(reports[4], Report::Step { num: 4, regions: 0 });
    assert_eq!(reports[5], Report::Step { num: 5, regions: 1 });
    assert_eq!(reports[255], Report::Step { num: 255, regions: 1 });
    assert_eq!(reports[256], Report::Finished { regions: 1, peaks: 0 });
}

#[test]
fn count_peaks_adds_up_the_peaks_of_all_regions() {
    let img: Image<u8> = Image::from_data(vec![0; 50], 50, 1).unwrap();
    let blank: Image<Option<usize>> = Image::from_data(vec![None; 50], 50, 1).unwrap();
    let run = |from: i32, to: i32, idx: usize| {
        let mut r = Reg::init(Point { x: from, y: 0 }, idx, 0);
        for x in from + 1..=to {
            r.increment(Point { x, y: 0 }, 0, &img, &blank);
        }
        r
    };
    let mut a = run(0, 1, 0);
    let b = run(2, 4, 1);
    let c = run(5, 49, 2);
    a.merge(&b, 0, &img, &blank);
    a.merge(&c, 0, &img, &blank);
    // region 0 has absorbed the other two and owns every pixel
    let own: Image<Option<usize>> = Image::from_data(vec![Some(0); 50], 50, 1).unwrap();
    let regions = vec![a, b, c];
    assert_eq!(PrintTrace::count_peaks(&regions), 1);
    let mut trace = PrintTrace::new();
    Trace::<Reg>::result(&mut trace, &regions, &own);
    assert_eq!(trace.reports(), &[Report::Finished { regions: 3, peaks: 1 }][..]);
    Trace::<Reg>::step(&mut trace, 17, &regions, &own);
    assert_eq!(trace.reports()[1], Report::Step { num: 17, regions: 3 });
}

#[test]
fn full_trace_records_every_tenth_threshold() {
    let img: Image<u8> = Image::from_data(vec![0, 20, 250, 255], 4, 1).unwrap();
    let mut trace: FullTrace<Reg> = FullTrace::new("trace", 4, 1, (1, 1), (3, 3));
    assert_eq!(trace.path, "trace");
    assert_eq!(trace.get_trace_result().regions().len(), 0);
    assert_eq!(trace.get_trace_result().regions_map(), &vec![vec![Vec::<i32>::new(); 4]; 1]);

    let (regions, own): (Vec<TracedRegion<Reg>>, _) = sweep(&img, &mut trace);
    assert_eq!(regions.len(), 1);
    assert_eq!(own.data(), &[Some(0); 4][..]);

    let result = trace.get_trace_result();
    let recorded = result.regions();
    // after threshold 0: one pixel; after 20: two; after 250: three.
    // the region that has all four pixels after 255 is not recorded.
    let mut keys: Vec<i32> = recorded.keys().copied().collect();
    keys.sort();
    assert_eq!(keys, vec![0, 20000000, 250000000]);
    let first = &recorded[&0];
    assert_eq!(first.features, vec![Ratio { num: 1, den: 1 }]);
    assert_eq!(first.bounds, Rect(Point { x: 0, y: 0 }, Point { x: 0, y: 0 }));
    assert_eq!(first.thres, 0);
    let second = &recorded[&20000000];
    assert_eq!(second.features, vec![Ratio { num: 2, den: 1 }]);
    assert_eq!(second.bounds, Rect(Point { x: 0, y: 0 }, Point { x: 1, y: 0 }));
    assert_eq!(second.thres, 20);
    let third = &recorded[&250000000];
    assert_eq!(third.features, vec![Ratio { num: 3, den: 1 }]);
    assert_eq!(third.thres, 250);

    assert_eq!(
        result.regions_map(),
        &vec![vec![vec![0, 20000000, 250000000], vec![20000000, 250000000], vec![250000000], vec![]]]
    );
}

#[test]
fn full_trace_skips_regions_of_the_wrong_size() {
    let img: Image<u8> = Image::from_data(vec![0, 0, 20], 3, 1).unwrap();
    // only boxes three wide are good
    let mut trace: FullTrace<Reg> = FullTrace::new("t", 3, 1, (3, 1), (3, 1));
    let (_regions, _own): (Vec<TracedRegion<Reg>>, _) = sweep(&img, &mut trace);
    let result = trace.get_trace_result();
    let keys: Vec<i32> = result.regions().keys().copied().collect();
    assert_eq!(keys, vec![20000000]);
    assert_eq!(result.regions_map(), &vec![vec![vec![20000000], vec![20000000], vec![20000000]]]);
}

#[test]
fn full_trace_skips_regions_that_did_not_change() {
    let img: Image<u8> = Image::from_data(vec![3, 200], 2, 1).unwrap();
    let mut trace: FullTrace<Reg> = FullTrace::new("t", 2, 1, (1, 1), (9, 9));
    let (_regions, _own): (Vec<TracedRegion<Reg>>, _) = sweep(&img, &mut trace);
    let result = trace.get_trace_result();
    // changed at 3: recorded after 10 with key 3 * 1000000; changed at 200: recorded after 200
    let mut keys: Vec<i32> = result.regions().keys().copied().collect();
    keys.sort();
    assert_eq!(keys, vec![3000000, 200000000]);
    assert_eq!(result.regions_map(), &vec![vec![vec![3000000, 200000000], vec![200000000]]]);
}

fn inflate(z: &[u8]) -> Vec<u8> {
    let mut out = Vec::new();
    flate2::read::DeflateDecoder::new(z).read_to_end(&mut out).unwrap();
    out
}

#[test]
fn zipped_bytes_inflate_to_the_input() {
    let json = b"{\"regions\":{},\"regions_map\":[[[],[],[],[]],[[],[],[],[]]]}".to_vec();
    let z = zipped(&json).unwrap();
    assert_ne!(z, json);
    assert!(z.len() < json.len());
    assert_eq!(inflate(&z), json);
    assert_eq!(zipped(&json).unwrap(), z);

    let empty = zipped(&[]).unwrap();
    assert!(!empty.is_empty());
    assert_eq!(inflate(&empty), Vec::<u8>::new());
}

#[test]
fn compress_outcome_keeps_bytes_and_names_failures() {
    assert_eq!(compress_outcome(Ok(vec![1, 2, 3])).unwrap(), vec![1, 2, 3]);
    let failure = std::io::Error::new(std::io::ErrorKind::Other, "full");
    match compress_outcome(Err(failure)) {
        Err(TraceWriteError::CompressError(e)) => assert_eq!(e.kind(), std::io::ErrorKind::Other),
        _ => panic!("not a compress error"),
    }
}
