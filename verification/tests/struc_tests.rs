use fasing::axis::{Axis, DataHV};
use fasing::struc::attribute::{true_positions, AttrMatcher, PaddingPointAttr, PointAttribute};
use fasing::struc::space::{IndexPoint, KeyPath, KeyPoint, KeyPointType};
use fasing::struc::view::{StrucAllAttrView, StrucAttrView};
use fasing::fas_file::{AllocateRule, AllocateTable, WeightRegex};
use fasing::struc::variety::StrucDataCache;
use fasing::struc::{IndexSize, Struc};

fn point(x: usize, y: usize, t: KeyPointType) -> KeyPoint {
    KeyPoint::new(IndexPoint::new(x, y), t)
}

fn line(x: usize, y: usize) -> Option<KeyPoint> {
    Some(KeyPoint::new_line_point(IndexPoint::new(x, y)))
}

fn sample_proto() -> Struc {
    Struc {
        tags: Vec::new(),
        key_paths: vec![
            KeyPath {
                closed: false,
                points: vec![
                    point(1, 0, KeyPointType::Mark),
                    point(1, 1, KeyPointType::Line),
                    point(0, 2, KeyPointType::Horizontal),
                ],
            },
            KeyPath {
                closed: false,
                points: vec![
                    point(1, 1, KeyPointType::Line),
                    point(3, 1, KeyPointType::Line),
                    point(2, 3, KeyPointType::Line),
                ],
            },
        ],
    }
}

#[test]
fn test_reduce() {
    let proto = Struc {
        tags: Vec::new(),
        key_paths: vec![
            KeyPath {
                closed: false,
                points: vec![point(1, 1, KeyPointType::Line), point(0, 2, KeyPointType::Horizontal)],
            },
            KeyPath {
                closed: false,
                points: vec![
                    point(1, 1, KeyPointType::Line),
                    point(3, 1, KeyPointType::Line),
                    point(2, 3, KeyPointType::Line),
                ],
            },
        ],
    }
    .reduce(Axis::Vertical, 0);

    assert!(proto
        .key_paths
        .iter()
        .find(|path| path.points.iter().find(|p| p.point.y != 1).is_some())
        .is_none());
}

#[test]
fn mod_test_size() {
    let proto = sample_proto();
    assert_eq!(proto.real_size(), IndexSize::new(4, 2));
}

fn check_connect_symbols() {
    assert_eq!('0', PointAttribute::symbol_of_connect(None, None));
    assert_eq!('0', PointAttribute::symbol_of_connect(line(0, 0), None));
    assert_eq!('0', PointAttribute::symbol_of_connect(None, line(0, 0)));
    assert_eq!('0', PointAttribute::symbol_of_connect(line(0, 0), line(0, 0)));
    assert_eq!('6', PointAttribute::symbol_of_connect(line(0, 0), line(2, 0)));
    assert_eq!('3', PointAttribute::symbol_of_connect(line(1, 1), line(3, 2)));
    assert_eq!('2', PointAttribute::symbol_of_connect(line(1, 1), line(1, 2)));
    assert_eq!('1', PointAttribute::symbol_of_connect(line(1, 1), line(0, 2)));
    assert_eq!('4', PointAttribute::symbol_of_connect(line(1, 1), line(0, 1)));
    assert_eq!('7', PointAttribute::symbol_of_connect(line(1, 1), line(0, 0)));
    assert_eq!('8', PointAttribute::symbol_of_connect(line(1, 1), line(1, 0)));
    assert_eq!('9', PointAttribute::symbol_of_connect(line(1, 1), line(2, 0)));
}

#[test]
fn mod_test_symbol() {
    check_connect_symbols();
}

#[test]
fn struc_test_symbol() {
    check_connect_symbols();
}

#[test]
fn test_attrs() {
    let proto = sample_proto();
    let view = StrucAttrView::new(&proto).ok().unwrap();
    let attrs = view.get_space_attrs();
    assert_eq!(attrs.h.len(), 3);
    assert_eq!(attrs.v.len(), 1);
}

#[test]
fn space_attrs_of_one_stroke() {
    let proto = Struc {
        tags: Vec::new(),
        key_paths: vec![KeyPath {
            closed: false,
            points: vec![point(0, 0, KeyPointType::Line), point(2, 0, KeyPointType::Line)],
        }],
    };
    let view = StrucAttrView::new(&proto).ok().unwrap();
    assert_eq!(view.real.h, vec![0, 1]);
    assert_eq!(view.real.v, vec![0]);
    assert_eq!(view.view.len(), 1);
    assert_eq!(view.view[0].len(), 2);
    assert_eq!(view.view[0][0][0].to_string(), "0L6");
    assert_eq!(view.view[0][1][0].to_string(), "4L0");
    let attrs = view.get_space_attrs();
    assert_eq!(attrs.h, vec!["h:L6-L4:L6-L4:0-0".to_string()]);
    assert!(attrs.v.is_empty());
}

#[test]
fn point_attribute_parts() {
    let pa = PointAttribute::from_key_point(line(0, 0), KeyPoint::new_line_point(IndexPoint::new(1, 1)), line(2, 1));
    assert_eq!(pa.front_connect(), '7');
    assert_eq!(pa.this_point(), 'L');
    assert_eq!(pa.next_connect(), '6');
    assert_eq!(pa.to_string(), "7L6");
    assert_eq!(PointAttribute::negative('1'), '9');
    assert_eq!(PointAttribute::negative('6'), '6');
    assert_eq!(PointAttribute::symbol_of_type(Some(KeyPointType::Vertical)), 'V');
    assert_eq!(PointAttribute::symbol_of_type(None), 'X');
    match pa.padding_next() {
        PaddingPointAttr::Line(p) => assert_eq!(p.to_string(), "hLh"),
        PaddingPointAttr::Box(_) => panic!("a horizontal segment is padded by a line"),
    }
    let diag = PointAttribute::new(['0', 'L', '3']);
    match diag.padding_next() {
        PaddingPointAttr::Box(b) => {
            assert_eq!(b[0].to_string(), "tLt");
            assert_eq!(b[3].to_string(), "rLr");
        }
        PaddingPointAttr::Line(_) => panic!("a diagonal segment is padded by a box"),
    }
}

#[test]
fn compact_ranks_allocations() {
    assert_eq!(DataHV::<Vec<String>>::compact(vec![5, 1, 5, 3]), vec![3, 1, 3, 2]);
    assert_eq!(DataHV::<Vec<String>>::compact(vec![4, 7]), vec![2, 3]);
    assert_eq!(DataHV::<Vec<String>>::compact(vec![]), Vec::<usize>::new());
}

#[test]
fn struc_size_and_values() {
    let proto = sample_proto();
    assert_eq!(proto.size(), IndexSize::new(4, 4));
    let real = proto.maps_to_real_point();
    assert_eq!(real.h, vec![0, 1, 2, 3]);
    assert_eq!(real.v, vec![1, 3]);
    let not_mark = proto.maps_to_not_mark_pos();
    assert_eq!(not_mark.h, vec![0, 1, 2, 3]);
    assert_eq!(not_mark.v, vec![1, 2, 3]);
    let unreliable = proto.unreliable_in();
    assert_eq!(unreliable.h, Vec::<usize>::new());
    assert_eq!(unreliable.v, vec![0, 2]);
}

#[test]
fn rotate_quarter_turn() {
    let mut proto = Struc {
        tags: Vec::new(),
        key_paths: vec![KeyPath {
            closed: false,
            points: vec![point(0, 0, KeyPointType::Line), point(2, 1, KeyPointType::Horizontal)],
        }],
    };
    proto.rotate(1);
    assert_eq!(proto.key_paths[0].points[0], point(0, 2, KeyPointType::Line));
    assert_eq!(proto.key_paths[0].points[1], point(1, 0, KeyPointType::Vertical));
    proto.rotate(3);
    assert_eq!(proto.key_paths[0].points[0], point(0, 0, KeyPointType::Line));
    assert_eq!(proto.key_paths[0].points[1], point(2, 1, KeyPointType::Horizontal));
}

#[test]
fn merge_keeps_tags_once() {
    let mut a = Struc {
        tags: vec!["x".to_string(), "y".to_string()],
        key_paths: vec![KeyPath { closed: false, points: vec![point(0, 0, KeyPointType::Line)] }],
    };
    let b = Struc {
        tags: vec!["y".to_string(), "z".to_string()],
        key_paths: vec![KeyPath { closed: true, points: vec![point(1, 1, KeyPointType::Line)] }],
    };
    a.merge(b);
    assert_eq!(a.key_paths.len(), 2);
    assert!(a.key_paths[1].closed);
    assert_eq!(a.tags, vec!["x".to_string(), "y".to_string(), "z".to_string()]);
}

#[test]
fn hide_all_hides_every_point() {
    let mut path = KeyPath::new(vec![point(0, 0, KeyPointType::Line), point(1, 0, KeyPointType::Mark)], false);
    path.hide_all();
    assert!(path.points.iter().all(|p| p.p_type == KeyPointType::Hide));
    assert_eq!(path.points[1].point, IndexPoint::new(1, 0));
}

#[test]
fn all_attr_view_of_one_stroke() {
    let proto = Struc {
        tags: Vec::new(),
        key_paths: vec![KeyPath {
            closed: false,
            points: vec![point(0, 0, KeyPointType::Line), point(2, 0, KeyPointType::Line)],
        }],
    };
    let view = StrucAllAttrView::new(&proto).ok().unwrap();
    assert_eq!(view.width(), 3);
    assert_eq!(view.height(), 1);
    assert_eq!(view.view[0][1][0].to_string(), "hLh");
    assert_eq!(view.read_row(0, 0..1), "v:0L6-;");
    assert_eq!(view.read_row(1, 0..1), "v:-;");
    assert_eq!(view.read_row(2, 0..1), "v:4L0-;");
    assert_eq!(view.read_row(2, 1..1), "v:;");
}

#[test]
fn all_attr_view_pads_diagonal_box() {
    let proto = Struc {
        tags: Vec::new(),
        key_paths: vec![KeyPath {
            closed: false,
            points: vec![point(0, 0, KeyPointType::Line), point(2, 2, KeyPointType::Line)],
        }],
    };
    let view = StrucAllAttrView::new(&proto).ok().unwrap();
    assert_eq!(view.width(), 3);
    assert_eq!(view.height(), 3);
    let text = |y: usize, x: usize| -> Vec<String> { view.view[y][x].iter().map(|pa| pa.to_string()).collect() };
    // the box corner shared with the start point is left out of top and left
    assert_eq!(text(0, 0), vec!["0L3".to_string()]);
    assert_eq!(text(0, 1), vec!["tLt".to_string()]);
    assert_eq!(text(0, 2), vec!["rLr".to_string(), "tLt".to_string()]);
    assert_eq!(text(1, 0), vec!["lLl".to_string()]);
    assert_eq!(text(2, 0), vec!["bLb".to_string(), "lLl".to_string()]);
    assert_eq!(text(2, 2), vec!["7L0".to_string()]);
}

#[test]
fn attributes_matching_a_pattern() {
    let attrs = DataHV::new(
        vec!["h:L6-L4".to_string(), "v:x".to_string(), "h:L2".to_string()],
        vec!["v:L8".to_string()],
    );
    let matcher = AttrMatcher::new(r"^h:L[26]").unwrap();
    let found = attrs.all_match_indexes(&matcher);
    assert_eq!(found.h, vec![0, 2]);
    assert_eq!(found.v, Vec::<usize>::new());
    assert!(AttrMatcher::new("(unclosed").is_none());
    assert_eq!(true_positions(&vec![false, true, true, false]), vec![1, 2]);
}

#[test]
fn attributes_read_the_space_view() {
    let proto = sample_proto();
    let direct = StrucAttrView::new(&proto).ok().unwrap().get_space_attrs();
    let attrs = proto.attributes();
    assert_eq!(attrs.h.len(), 3);
    assert_eq!(attrs.v.len(), 1);
    assert_eq!(attrs, direct);
}

#[test]
fn point_attributes_by_column_and_row() {
    let proto = sample_proto();
    let (h, v) = proto.point_attributes();
    let h_lens: Vec<usize> = h.iter().map(|c| c.len()).collect();
    let v_lens: Vec<usize> = v.iter().map(|c| c.len()).collect();
    assert_eq!(h_lens, vec![1, 3, 1, 1]);
    assert_eq!(v_lens, vec![1, 3, 1, 1]);
    let expected = PointAttribute::from_key_point(
        Some(point(1, 1, KeyPointType::Line)),
        point(3, 1, KeyPointType::Line),
        Some(point(2, 3, KeyPointType::Line)),
    );
    assert_eq!(h[3][0], expected);
    assert_eq!(v[1][2], expected);
    let first = PointAttribute::from_key_point(
        None,
        point(1, 0, KeyPointType::Mark),
        Some(point(1, 1, KeyPointType::Line)),
    );
    assert_eq!(h[1][0], first);
    assert_eq!(v[0][0], first);
}

#[test]
fn axis_info_marks_real_lines() {
    let proto = sample_proto();
    let info = proto.axis_info();
    let h: Vec<(usize, bool)> = info.h.iter().map(|(k, v)| (*k, *v)).collect();
    let v: Vec<(usize, bool)> = info.v.iter().map(|(k, v)| (*k, *v)).collect();
    assert_eq!(h, vec![(0, true), (1, true), (2, true), (3, true)]);
    assert_eq!(v, vec![(0, false), (1, true), (2, false), (3, true)]);
}

#[test]
fn alloc_size_leaves_out_unreal_lines() {
    let proto = sample_proto();
    assert_eq!(proto.alloc_size(), IndexSize::new(3, 1));
    let empty = Struc { tags: Vec::new(), key_paths: Vec::new() };
    assert_eq!(empty.alloc_size(), IndexSize::new(0, 0));
}

#[test]
fn data_cache_allocates_real_gaps() {
    let proto = sample_proto();
    let attrs = sample_proto().attributes();
    let cache = StrucDataCache::new(proto);
    assert_eq!(cache.allocs.h, vec![1, 1, 1]);
    assert_eq!(cache.allocs.v, vec![1]);
    assert_eq!(cache.attrs.h, attrs.h);
    assert_eq!(cache.attrs.v, attrs.v);
    assert_eq!(cache.view.real.h, vec![0, 1, 2, 3]);
    assert_eq!(cache.proto.key_paths.len(), 2);
}

#[test]
fn data_cache_gaps_skip_unreal_lines() {
    let proto = Struc {
        tags: Vec::new(),
        key_paths: vec![
            KeyPath {
                closed: false,
                points: vec![point(0, 0, KeyPointType::Line), point(4, 0, KeyPointType::Line)],
            },
            KeyPath {
                closed: false,
                points: vec![point(1, 0, KeyPointType::Vertical), point(1, 2, KeyPointType::Vertical)],
            },
        ],
    };
    let cache = StrucDataCache::new(proto);
    assert_eq!(cache.allocs.h, vec![3]);
}

#[test]
fn data_cache_from_alloc_table() {
    let attrs = sample_proto().attributes();
    let first = format!("^{}$", regex::escape(&attrs.h[0]));
    let table = AllocateTable::new(vec![
        AllocateRule::new(AttrMatcher::new(".*").unwrap(), 5, vec!["other".to_string()]),
        AllocateRule::new(AttrMatcher::new(&first).unwrap(), 3, Vec::new()),
        AllocateRule::new(AttrMatcher::new(".*").unwrap(), 2, vec!["default".to_string()]),
    ]);
    let cache = StrucDataCache::from_alloc_table(sample_proto(), &table);
    assert_eq!(cache.attrs.h, attrs.h);
    let expected_h: Vec<usize> = attrs.h.iter().map(|a| if *a == attrs.h[0] { 3 } else { 2 }).collect();
    assert_eq!(cache.allocs.h, expected_h);
    assert_eq!(cache.allocs.v, vec![2; attrs.v.len()]);

    let mut tagged = sample_proto();
    tagged.tags = vec!["other".to_string()];
    let cache = StrucDataCache::from_alloc_table(tagged, &table);
    assert_eq!(cache.allocs.h, vec![5; attrs.h.len()]);

    let empty = AllocateTable::new(Vec::new());
    let cache = StrucDataCache::from_alloc_table(sample_proto(), &empty);
    assert_eq!(cache.allocs.h, vec![1; attrs.h.len()]);
}

#[test]
fn weight_regex_compiles_its_pattern() {
    assert!(WeightRegex::from_str("(", 1usize).is_none());
    let w = WeightRegex::from_str("a+", 7usize).unwrap();
    assert_eq!(w.weight, 7);
    let m = AttrMatcher::new("b").unwrap();
    let w2 = WeightRegex::new(m, -1i32);
    assert_eq!(w2.weight, -1);
}

#[test]
fn space_attrs_of_an_empty_view() {
    let view = StrucAttrView { view: Vec::new(), real: DataHV::new(vec![0, 5], vec![3]) };
    let attrs = view.get_space_attrs();
    assert_eq!(attrs.h, vec!["h:-::0-0".to_string()]);
    assert!(attrs.v.is_empty());
}
