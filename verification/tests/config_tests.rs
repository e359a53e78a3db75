use fasing::axis::{Axis, DataHV, Place};
use fasing::config::process::Operation as ProcessOperation;
use fasing::config::{place_match, Config, Operation, TypeDate};
use fasing::construct::data::{Attrs, Component};
use fasing::construct::types::Type;
use fasing::fas_file::integer_index_last_get;

#[test]
fn test_place_match() {
    let mut places = DataHV::from_pair(([true, false], [true, false]));
    assert!(place_match("*", places));
    assert!(!place_match("x", places));
    assert!(!place_match("o", places));
    assert!(place_match("o x o x", places));
    assert!(!place_match("o x", places));

    places.h = [true, true];
    places.v = [false, false];
    assert!(place_match("*", places));
    assert!(!place_match("x", places));
    assert!(!place_match("o", places));
    assert!(place_match("o o x x", places));
    assert!(place_match("o x", places));

    places.v = [true, true];
    assert!(place_match("*", places));
    assert!(!place_match("x", places));
    assert!(place_match("o", places));
    assert!(!place_match("o o x x", places));
    assert!(place_match("o o", places));
}

#[test]
fn place_match_alternatives_and_malformed_rules() {
    let places = DataHV::new([true, false], [false, false]);
    assert!(place_match("o;x", DataHV::new([false; 2], [false; 2])));
    assert!(place_match("o o o o;o x x x", places));
    assert!(!place_match("o x x", places));
    assert!(!place_match("", places));
    assert!(!place_match("oo", places));
    assert!(!place_match("o  x", places));
}

#[test]
fn operations_hold_their_parts() {
    let op = Operation::new(3u32, 'e');
    assert_eq!(op.operation, 3);
    assert_eq!(op.execution, 'e');
    let op = ProcessOperation::new(-1i64, true);
    assert_eq!(op.operation, -1);
    assert!(op.execution);
    let td = TypeDate { axis: 1u8, surround: 2u8 };
    assert_eq!(td.axis + td.surround, 3);
}

#[test]
fn construct_type_symbols() {
    assert_eq!(Type::from_symbol("⿰"), Type::Scale(Axis::Horizontal));
    assert_eq!(Type::from_symbol("⿲"), Type::Scale(Axis::Horizontal));
    assert_eq!(Type::from_symbol("⿳"), Type::Scale(Axis::Vertical));
    assert_eq!(Type::from_symbol("⿺"), Type::Surround(DataHV::new(Place::Start, Place::End)));
    assert_eq!(Type::from_symbol("⿴"), Type::Surround(DataHV::new(Place::Mind, Place::Mind)));
    assert_eq!(Type::from_symbol("abc"), Type::Single);
    assert_eq!(Type::from_symbol(""), Type::Single);
    assert_eq!(Type::Single.symbol(), '□');
    assert_eq!(Type::Scale(Axis::Vertical).symbol(), '⿱');
    assert_eq!(Type::Surround(DataHV::new(Place::End, Place::Start)).symbol(), '⿹');
    for t in [
        Type::Scale(Axis::Horizontal),
        Type::Scale(Axis::Vertical),
        Type::Surround(DataHV::new(Place::Start, Place::Start)),
        Type::Surround(DataHV::new(Place::Mind, Place::End)),
        Type::Surround(DataHV::new(Place::Start, Place::Mind)),
    ] {
        assert_eq!(Type::from_symbol(&t.symbol().to_string()), t);
    }
}

#[test]
fn index_last_get_picks_entries() {
    let list = vec![10, 20, 30];
    assert_eq!(integer_index_last_get(&list, 0, &0), Some(&0));
    assert_eq!(integer_index_last_get(&list, 1, &0), Some(&10));
    assert_eq!(integer_index_last_get(&list, 3, &0), Some(&30));
    assert_eq!(integer_index_last_get(&list, 7, &0), Some(&30));
    let empty: Vec<i32> = vec![];
    assert_eq!(integer_index_last_get(&empty, 1, &5), None);
    assert_eq!(integer_index_last_get(&empty, 0, &5), Some(&5));
}

#[test]
fn test_type_replace_name() {
    let mut cfg = Config::default();
    cfg.type_replace.push((
        '□',
        vec![(Place::Start, vec![("丯".to_string(), Component::from_name("丰"))])],
    ));

    let r = cfg.type_replace_name("丯", Type::Single, Place::Start).unwrap();
    match r {
        Component::Char(name) => assert_eq!(name, "丰".to_string()),
        Component::Complex(_) => unreachable!(),
    }
}

#[test]
fn type_replace_follows_the_chain() {
    let mut cfg = Config::default();
    cfg.type_replace.push((
        '⿰',
        vec![
            (Place::End, vec![("a".to_string(), Component::from_name("z"))]),
            (
                Place::Start,
                vec![
                    ("a".to_string(), Component::from_name("b")),
                    ("b".to_string(), Component::from_name("c")),
                ],
            ),
        ],
    ));
    let r = cfg.type_replace_name("a", Type::Scale(Axis::Horizontal), Place::Start).unwrap();
    assert_eq!(r.name(), "c".to_string());
    let end = cfg.type_replace_name("a", Type::Scale(Axis::Horizontal), Place::End).unwrap();
    assert_eq!(end.name(), "z".to_string());
    assert!(cfg.type_replace_name("c", Type::Scale(Axis::Horizontal), Place::Start).is_none());
    assert!(cfg.type_replace_name("a", Type::Scale(Axis::Vertical), Place::Start).is_none());
}

#[test]
fn place_replace_takes_the_first_matching_rule() {
    let mut cfg = Config::default();
    let inner = Attrs {
        tp: Type::Scale(Axis::Vertical),
        components: vec![Component::from_name("x"), Component::from_name("y")],
    };
    cfg.place_replace.push((
        "a".to_string(),
        vec![
            ("o".to_string(), Component::from_name("full")),
            ("x;o x o x".to_string(), Component::Complex(inner)),
            ("*".to_string(), Component::from_name("any")),
        ],
    ));
    let all = DataHV::from_pair(([true, true], [true, true]));
    assert_eq!(cfg.place_replace_name("a", all).unwrap().name(), "full".to_string());
    let some = DataHV::from_pair(([true, false], [true, false]));
    assert_eq!(cfg.place_replace_name("a", some).unwrap().name(), "⿱(x+y)".to_string());
    let other = DataHV::from_pair(([false, true], [true, true]));
    assert_eq!(cfg.place_replace_name("a", other).unwrap().name(), "any".to_string());
    assert!(cfg.place_replace_name("b", all).is_none());
}
