use fasing::axis::{Axis, DataHV, Place};
use fasing::config::Config;
use fasing::construct::data::{Attrs, Component, Table};
use fasing::construct::tree::CharTree;
use fasing::construct::types::Type;
use fasing::service::combination::{get_char_tree, get_char_tree_within};

fn chr(name: &str) -> Component {
    Component::from_name(name)
}

fn attrs(tp: Type, components: Vec<Component>) -> Attrs {
    Attrs { tp, components }
}

fn beside() -> Type {
    Type::Scale(Axis::Horizontal)
}

fn describe(tree: &CharTree) -> String {
    if tree.children.is_empty() {
        tree.name.clone()
    } else {
        let inner: Vec<String> = tree.children.iter().map(describe).collect();
        format!("{}[{}]", tree.name, inner.join(","))
    }
}

fn sample_table() -> Table {
    Table {
        data: vec![
            ("木".to_string(), Attrs::single()),
            ("林".to_string(), attrs(beside(), vec![chr("木"), chr("木")])),
            ("国".to_string(), attrs(Type::Surround(DataHV::new(Place::Mind, Place::Mind)), vec![chr("囗"), chr("玉")])),
            ("P".to_string(), attrs(beside(), vec![chr("a"), chr("b")])),
            ("X".to_string(), attrs(Type::Surround(DataHV::new(Place::Start, Place::Start)), vec![chr("P"), chr("Q")])),
        ],
    }
}

#[test]
fn char_tree_side_by_side() {
    let tree = get_char_tree("林".to_string(), &sample_table(), &Config::default());
    assert_eq!(tree.tp, beside());
    assert_eq!(describe(&tree), "林[木,木]".to_string());
    let single = get_char_tree("木".to_string(), &sample_table(), &Config::default());
    assert_eq!(single.tp, Type::Single);
    assert!(single.children.is_empty());
    let unknown = get_char_tree("z".to_string(), &sample_table(), &Config::default());
    assert_eq!(describe(&unknown), "z".to_string());
}

#[test]
fn char_tree_surround() {
    let tree = get_char_tree("国".to_string(), &sample_table(), &Config::default());
    assert_eq!(describe(&tree), "国[囗,玉]".to_string());
}

#[test]
fn char_tree_surround_moves_into_side_by_side() {
    let tree = get_char_tree("X".to_string(), &sample_table(), &Config::default());
    assert_eq!(tree.tp, beside());
    assert_eq!(describe(&tree), "X[a,⿸(b+Q)[b,Q]]".to_string());
}

#[test]
fn char_tree_follows_replacements() {
    let mut cfg = Config::default();
    cfg.type_replace.push(('⿰', vec![(Place::Start, vec![("木".to_string(), chr("朩"))])]));
    cfg.place_replace.push(("木".to_string(), vec![("o x * *".to_string(), chr("术"))]));
    let tree = get_char_tree("林".to_string(), &sample_table(), &cfg);
    assert_eq!(describe(&tree), "林[朩,术]".to_string());
    cfg.supplement.push(("朩".to_string(), attrs(beside(), vec![chr("丿"), chr("乀")])));
    let tree = get_char_tree("林".to_string(), &sample_table(), &cfg);
    assert_eq!(describe(&tree), "林[朩[丿,乀],术]".to_string());
}

#[test]
fn char_tree_within_a_depth() {
    let tree = get_char_tree_within("X".to_string(), &sample_table(), &Config::default(), 10).unwrap();
    assert_eq!(describe(&tree), "X[a,⿸(b+Q)[b,Q]]".to_string());
    assert!(get_char_tree_within("林".to_string(), &sample_table(), &Config::default(), 0).is_none());
    let looping = Table { data: vec![("a".to_string(), attrs(beside(), vec![chr("a"), chr("b")]))] };
    assert!(get_char_tree_within("a".to_string(), &looping, &Config::default(), 50).is_none());
    let mut cfg = Config::default();
    cfg.type_replace.push(('⿰', vec![(Place::Start, vec![("p".to_string(), chr("q")), ("q".to_string(), chr("p"))])]));
    let table = Table { data: vec![("w".to_string(), attrs(beside(), vec![chr("p"), chr("r")]))] };
    assert!(get_char_tree_within("w".to_string(), &table, &cfg, 50).is_none());
    let odd = Table {
        data: vec![(
            "s".to_string(),
            attrs(Type::Surround(DataHV::new(Place::End, Place::End)), vec![chr("a"), chr("b")]),
        )],
    };
    assert!(get_char_tree_within("s".to_string(), &odd, &Config::default(), 50).is_none());
}
