use fasing::algorithm::find_reactangle_three;
use fasing::axis::{Axis, DataHV, LineType, Place};
use fasing::component::strategy::PlaceMain;

#[test]
fn axis_and_place_inverses() {
    assert_eq!(Axis::Horizontal.inverse(), Axis::Vertical);
    assert_eq!(Axis::Vertical.inverse().inverse(), Axis::Vertical);
    assert_eq!(Axis::list(), [Axis::Horizontal, Axis::Vertical]);
    assert_eq!(Place::Start.inverse(), Place::End);
    assert_eq!(Place::Mind.inverse(), Place::Mind);
    assert_eq!(Place::End.inverse().inverse(), Place::End);
    assert_eq!(Place::start_and_end(), [Place::Start, Place::End]);
    let hv = Axis::hv_data();
    assert_eq!(hv.h, Axis::Horizontal);
    assert_eq!(hv.v, Axis::Vertical);
    assert!(LineType::HLine < LineType::DLine);
    assert!(PlaceMain::NoPlane < PlaceMain::NoBeSurround);
}

#[test]
fn data_hv_access() {
    let mut d = DataHV::new(1, 2);
    assert_eq!(*d.hv_get(Axis::Vertical), 2);
    d.hv_set(Axis::Horizontal, 5);
    assert_eq!(d, DataHV::new(5, 2));
    assert_eq!(d.vh(), DataHV::new(2, 5));
    assert_eq!(DataHV::splat(7), DataHV::new(7, 7));
    assert_eq!(d.to_array(), [5, 2]);
    let z = d.zip(DataHV::new('a', 'b'));
    assert_eq!(z.h, (5, 'a'));
    let (a, b) = z.unzip();
    assert_eq!(a, d);
    assert_eq!(b, DataHV::new('a', 'b'));
}

#[test]
fn rectangle_under_profile() {
    assert_eq!(find_reactangle_three(&[]), (0, 0, 0, 0));
    assert_eq!(find_reactangle_three(&[5]), (0, 0, 0, 0));
    assert_eq!(find_reactangle_three(&[2, 3]), (0, 1, 2, 2));
    assert_eq!(find_reactangle_three(&[1, 5, 5, 1]), (1, 2, 5, 5));
    assert_eq!(find_reactangle_three(&[3, 3, 3]), (0, 2, 3, 6));
}

#[test]
fn data_hv_map_and_search() {
    let d = DataHV::new(3usize, 8usize);
    let doubled = d.map(|x: &usize| *x * 2);
    assert_eq!(doubled, DataHV::new(6, 16));
    assert_eq!(d.in_axis(|x: &usize| *x > 5), Some(Axis::Vertical));
    assert_eq!(d.in_axis(|x: &usize| *x > 1), Some(Axis::Horizontal));
    assert_eq!(d.in_axis(|x: &usize| *x > 9), None);
    let names = DataHV::new(vec![1, 2], vec![3]).into_map(|v: Vec<i32>| v.len());
    assert_eq!(names, DataHV::new(2, 1));
    let r = d.as_ref();
    assert_eq!(*r.h, 3);
    assert_eq!(*r.v, 8);
}

#[test]
fn rectangle_with_the_largest_bar_at_the_limit() {
    assert_eq!(find_reactangle_three(&[usize::MAX, 0]), (0, 1, 0, 0));
}

#[test]
fn rectangle_area_kept_by_reversal_and_scaling() {
    let bars = [2usize, 1, 5, 6, 2, 3];
    let best = find_reactangle_three(&bars).3;
    let reversed: Vec<usize> = bars.iter().rev().copied().collect();
    assert_eq!(find_reactangle_three(&reversed).3, best);
    let scaled: Vec<usize> = bars.iter().map(|b| b * 3).collect();
    assert_eq!(find_reactangle_three(&scaled).3, 3 * best);
}
