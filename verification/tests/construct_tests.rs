use fasing::axis::{Axis, DataHV, Place};
use fasing::construct::data::{Attrs, Component, Table};
use fasing::construct::types::Type;

fn chr(name: &str) -> Component {
    Component::from_name(name)
}

fn beside(a: Component, b: Component) -> Attrs {
    Attrs { tp: Type::Scale(Axis::Horizontal), components: vec![a, b] }
}

fn sorted(mut names: Vec<String>) -> Vec<String> {
    names.sort();
    names
}

#[test]
fn names_of_components() {
    assert_eq!(chr("木").name(), "木".to_string());
    let inner = Attrs { tp: Type::Scale(Axis::Vertical), components: vec![chr("日"), chr("一")] };
    let outer = beside(chr("木"), Component::Complex(inner));
    assert_eq!(outer.comps_name(), "⿰(木+⿱(日+一))".to_string());
    let surround = Attrs {
        tp: Type::Surround(DataHV::from_pair((Place::Start, Place::Start))),
        components: vec![chr("广"), chr("木")],
    };
    assert_eq!(Component::Complex(surround).name(), "⿸(广+木)".to_string());
    assert_eq!(Attrs::single().comps_name(), "□()".to_string());
}

#[test]
fn clone_keeps_the_name() {
    let c = Component::Complex(beside(chr("a"), Component::Complex(beside(chr("b"), chr("c")))));
    let d = c.clone();
    assert_eq!(d.name(), c.name());
    assert_eq!(d.name(), "⿰(a+⿰(b+c))".to_string());
}

#[test]
fn necessary_components_of_a_table() {
    let table = Table {
        data: vec![
            ("木".to_string(), Attrs::single()),
            ("林".to_string(), beside(chr("木"), chr("木"))),
            ("森".to_string(), Attrs {
                tp: Type::Scale(Axis::Vertical),
                components: vec![chr("木"), chr("林")],
            }),
            ("休".to_string(), beside(chr("亻"), chr("木"))),
            ("x".to_string(), beside(chr("y"), Component::Complex(beside(chr("z"), chr("木"))))),
        ],
    };
    let needed = table.all_necessary_components();
    assert_eq!(
        sorted(needed),
        sorted(vec![
            "木".to_string(),
            "亻".to_string(),
            "y".to_string(),
            "z".to_string(),
        ])
    );
    assert!(Table::empty().all_necessary_components().is_empty());
}
