use fasing::axis::{Axis, DataHV};
use fasing::component::attrs::{Allocs, CharBox, InPlaceAllocs, PresetCenter, ReduceAllc};
use fasing::component::struc::StrucProto;
use fasing::construct::space::{IndexPoint, KeyPath};
use std::collections::BTreeMap;

fn path(points: &[(usize, usize)]) -> KeyPath {
    KeyPath::from_points(points.iter().map(|&(x, y)| IndexPoint::new(x, y)).collect())
}

#[test]
fn test_allocs() {
    let struc = StrucProto::from_paths(vec![path(&[(0, 0), (2, 0), (2, 2)]), path(&[(1, 1), (1, 1)])]);
    let values = struc.values();
    assert_eq!(values.h, vec![0, 1, 2]);
    assert_eq!(values.v, vec![0, 1, 2]);

    let mut struc = StrucProto::from_paths(vec![path(&[(1, 1), (2, 1), (2, 2)]), path(&[(4, 1), (2, 1)])]);

    assert_eq!(struc.allocation_values(), DataHV::new(vec![1, 2], vec![1]));
    assert_eq!(struc.values_map().h, BTreeMap::from([(1, 0), (2, 1), (4, 3)]));

    struc.attrs.allocs = Some(DataHV::new(vec![0, 1], vec![2]));
    assert_eq!(struc.allocation_values(), DataHV::new(vec![0, 1], vec![2]));
    assert_eq!(struc.allocation_space(), DataHV::new(vec![1], vec![2]));
    assert_eq!(struc.values_map().h, BTreeMap::from([(1, 0), (2, 0), (4, 1)]));
}

#[test]
fn allocation_size_sums_gaps() {
    let struc = StrucProto::from_paths(vec![path(&[(1, 1), (2, 1), (2, 2)]), path(&[(4, 1), (2, 1)])]);
    assert_eq!(struc.allocation_size(), DataHV::new(3, 1));
    let empty = StrucProto::from_paths(vec![]);
    assert_eq!(empty.allocation_size(), DataHV::new(0, 0));
    assert_eq!(empty.allocation_values(), DataHV::new(vec![], vec![]));
}

#[test]
fn value_index_counts_distinct_positions() {
    let mut struc = StrucProto::from_paths(vec![path(&[(1, 1), (2, 1), (2, 2)]), path(&[(4, 1), (2, 1)])]);
    struc.attrs.allocs = Some(DataHV::new(vec![0, 1], vec![2]));
    // positions along the horizontal axis are 0, 0, 1: distinct ones 0 and 1
    assert_eq!(struc.value_index_in_axis(&[1, 0], Axis::Horizontal), vec![1, 0]);
    // vertical positions 0 and 2
    assert_eq!(struc.value_index_in_axis(&[2], Axis::Vertical), vec![1]);
}

#[test]
fn adjacency_bounds_lower_allocation() {
    let mut struc = StrucProto::from_paths(vec![path(&[(0, 0), (2, 0), (5, 0)]), path(&[(0, 0), (0, 3)])]);
    assert_eq!(struc.allocation_values(), DataHV::new(vec![2, 3], vec![3]));
    struc.attrs.in_place = Some(vec![
        ("o x o x".to_string(), DataHV::new(vec![1, 9], vec![9])),
        ("x".to_string(), DataHV::new(vec![0, 0], vec![0])),
        ("*".to_string(), DataHV::new(vec![5, 2], vec![])),
    ]);
    let adjacencies = DataHV::new([true, false], [true, false]);
    struc.set_allocs_in_adjacency(adjacencies);
    assert_eq!(struc.attrs.allocs, Some(DataHV::new(vec![1, 2], vec![3])));
    assert_eq!(struc.attrs.reduce_target, Some(DataHV::new(Some(3), None)));
    assert_eq!(struc.attrs.adjacencies, Some(adjacencies));
}

#[test]
fn reduce_takes_first_candidate_that_applies() {
    let mut struc = StrucProto::from_paths(vec![path(&[(0, 0), (2, 0), (5, 0)]), path(&[(0, 0), (0, 3)])]);
    struc.attrs.reduce_alloc = Some(DataHV::new(vec![vec![9, 9], vec![1, 1], vec![0, 0]], vec![]));
    struc.attrs.fixed_alloc = Some(DataHV::new(vec![1], vec![]));

    // checking reports the reduction and records the allocation unchanged
    assert!(struc.reduce(Axis::Horizontal, true));
    assert_eq!(struc.attrs.allocs, Some(DataHV::new(vec![2, 3], vec![3])));
    assert_eq!(struc.attrs.reduce_target, Some(DataHV::new(Some(5), None)));

    // the second candidate applies to the first entry only, the second is fixed
    assert!(struc.reduce(Axis::Horizontal, false));
    assert_eq!(struc.attrs.allocs, Some(DataHV::new(vec![1, 3], vec![3])));
    assert_eq!(struc.attrs.reduce_target, Some(DataHV::new(Some(4), None)));

    // nothing to reduce along the vertical axis
    assert!(!struc.reduce(Axis::Vertical, false));
}

#[test]
fn attribute_keys() {
    assert_eq!(Allocs::key(), "allocs");
    assert_eq!(InPlaceAllocs::key(), "in_place");
    assert_eq!(CharBox::key(), "char_box");
    assert_eq!(ReduceAllc::key(), "ruduce_alloc");
    assert_eq!(PresetCenter::key(), "preset_center");
}

use fasing::axis::Place;
use fasing::component::view::{Direction, StrucView};

fn view_struc() -> StrucProto {
    StrucProto::from_paths(vec![path(&[(2, 1), (2, 5)]), path(&[(1, 2), (4, 2)])])
}

#[test]
fn test_view() {
    let mut struc = view_struc();
    let view = StrucView::new(&struc);
    assert_eq!(view.0.len(), 5);
    assert_eq!(view.0[0].len(), 4);
    assert_eq!(view.size(), DataHV::new(4, 5));

    struc.attrs.allocs = Some(DataHV::new(vec![0, 1], vec![1, 2]));
    let view = StrucView::new(&struc);
    assert_eq!(view.0.len(), 4);
    assert_eq!(view.0[0].len(), 2);
}

#[test]
fn view_cells_hold_stroke_directions() {
    let view = StrucView::new(&view_struc());
    assert_eq!(view.0[0][1], vec![Direction::Below]);
    assert_eq!(view.0[1][1], vec![Direction::Vertical, Direction::Horizontal]);
    assert_eq!(view.0[4][1], vec![Direction::Above]);
    assert_eq!(view.0[1][0], vec![Direction::Right]);
    assert_eq!(view.0[1][3], vec![Direction::Left]);
    assert!(view.0[0][0].is_empty());

    let mut lines = view.read_lines(Axis::Horizontal, Place::Start);
    assert_eq!(lines.l.len(), 5);
    assert_eq!(lines.segment, 0);
    assert_eq!(lines.place_index(), (0, 1));
    assert_eq!(lines.l[1][0], vec![Direction::Right]);
    assert_eq!(lines.l[1][1], vec![Direction::Vertical, Direction::Horizontal]);

    lines.backspace();
    assert!(lines.l[1][0].is_empty());
    assert_eq!(lines.l[1][1], vec![Direction::Right]);

    lines.add_gap(Place::Start);
    assert_eq!(lines.l.len(), 6);
    assert!(lines.l[0][0].is_empty() && lines.l[0][1].is_empty());

    let end = view.read_lines(Axis::Vertical, Place::End);
    assert_eq!(end.segment, 4);
    assert_eq!(end.l.len(), 4);
    assert_eq!(end.l[1][0], vec![Direction::Vertical]);
    assert_eq!(end.l[1][1], vec![Direction::Above]);
    lines.connect(end);
    assert_eq!(lines.l.len(), 10);
}

#[test]
fn diagonal_segments_fill_their_box() {
    let view = StrucView::new(&StrucProto::from_paths(vec![path(&[(0, 0), (2, 2)])]));
    let side = Direction::DiagonalSide { from: IndexPoint::new(0, 0), to: IndexPoint::new(2, 2) };
    assert_eq!(view.0[0][0], vec![Direction::RightBelow, side, side]);
    assert_eq!(view.0[1][1], vec![Direction::Diagonal]);
    assert_eq!(view.0[1][2], vec![side]);
    assert_eq!(view.0[2][2], vec![Direction::LeftAbove]);
    let dot = StrucView::new(&StrucProto::from_paths(vec![path(&[(3, 3)])]));
    assert_eq!(dot.0, vec![vec![vec![Direction::Center]]]);
}

#[test]
fn direction_symbols_and_faces() {
    let p = IndexPoint::new(1, 1);
    assert_eq!(Direction::new(p, Some(IndexPoint::new(0, 2))), Direction::LeftBelow);
    assert_eq!(Direction::new(p, Some(IndexPoint::new(2, 0))), Direction::RightAbove);
    assert_eq!(Direction::new(p, None), Direction::Center);
    assert_eq!(Direction::new(p, Some(p)).symbol(), '5');
    assert_eq!(Direction::Diagonal.symbol(), 't');
    assert!(Direction::Diagonal.is_diagonal_padding());
    assert!(!Direction::Vertical.is_diagonal_padding());
    assert!(Direction::is_face(&vec![Direction::Below], &vec![], Axis::Horizontal));
    assert!(!Direction::is_face(&vec![Direction::Below], &vec![], Axis::Vertical));
    assert!(Direction::is_face(&vec![], &vec![Direction::Horizontal], Axis::Vertical));
}
