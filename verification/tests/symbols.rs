use drawskill::dataflow::{Boundary, Dataflow, Entity, Flow, Process, Store};
use drawskill::registry::{sort_names, Registry};
use drawskill::schematic::{
    axis_facing, dir_facing, ground_dir, Capacitor, Diode, Facing, Ground, Ic, Inductor,
    Junction, Resistor, Schematic, Switch, VoltageSource,
};
use drawskill::shapes::{Arrow, Circle, Explosion, Oval, Rectangle, Shapes};
use drawskill::symbols::{prop_kind_str, Dir, PropKind};

#[test]
fn register_and_resolve() {
    let mut reg = Registry::new();
    reg.register("test", "test plugin", vec![("dot".to_string(), 3u32)]);
    assert!(reg.get("test.dot").is_some());
    assert!(reg.get("test.missing").is_none());
    assert_eq!(reg.qualified_names(), vec!["test.dot".to_string()]);
    let plugins = reg.plugins();
    assert_eq!(plugins[0].0, "test");
    assert_eq!(plugins[0].2, vec!["dot".to_string()]);
}

#[test]
fn registry_sorts_and_replaces() {
    let mut reg = Registry::new();
    reg.register(
        "shapes",
        "basic shapes",
        vec![("oval".to_string(), 1u32), ("arrow".to_string(), 2), ("oval".to_string(), 3)],
    );
    reg.register("dataflow", "dfd", vec![("store".to_string(), 4u32)]);
    assert_eq!(reg.get("shapes.oval"), Some(&3));
    assert_eq!(reg.get("shapes.arrow"), Some(&2));
    assert_eq!(reg.get("dataflow.store"), Some(&4));
    assert_eq!(reg.get("oval"), None);
    assert_eq!(
        reg.qualified_names(),
        vec!["dataflow.store".to_string(), "shapes.arrow".to_string(), "shapes.oval".to_string()]
    );
    let plugins = reg.plugins();
    assert_eq!(plugins.len(), 2);
    assert_eq!(plugins[0], ("dataflow".to_string(), "dfd".to_string(), vec!["store".to_string()]));
    assert_eq!(plugins[1].0, "shapes");
    assert_eq!(plugins[1].1, "basic shapes");
    assert_eq!(plugins[1].2, vec!["arrow".to_string(), "oval".to_string(), "oval".to_string()]);
}

#[test]
fn registering_again_replaces_the_plugin_entry() {
    let mut reg = Registry::new();
    reg.register("p", "first", vec![("a".to_string(), 1u8)]);
    reg.register("p", "second", vec![("b".to_string(), 2u8)]);
    assert_eq!(reg.get("p.a"), Some(&1));
    assert_eq!(reg.get("p.b"), Some(&2));
    let plugins = reg.plugins();
    assert_eq!(plugins, vec![("p".to_string(), "second".to_string(), vec!["b".to_string()])]);
}

#[test]
fn names_sort_like_strings() {
    let names: Vec<String> = ["b", "B", "a", "ab", "", "a"].iter().map(|s| s.to_string()).collect();
    let mut expected = names.clone();
    expected.sort();
    assert_eq!(sort_names(names), expected);
}

#[test]
fn property_kind_names() {
    assert_eq!(prop_kind_str(&PropKind::Number), "number");
    assert_eq!(prop_kind_str(&PropKind::Text), "text");
    assert_eq!(prop_kind_str(&PropKind::Bool), "bool");
    assert_eq!(prop_kind_str(&PropKind::List), "list");
    assert_eq!(prop_kind_str(&PropKind::Enum(&["left", "right", "up"])), "enum(left|right|up)");
    assert_eq!(prop_kind_str(&PropKind::Enum(&[])), "enum()");
}

#[test]
fn plugin_and_symbol_names() {
    assert_eq!(Schematic.id(), "schematic");
    assert_eq!(Dataflow.id(), "dataflow");
    assert_eq!(Shapes.id(), "shapes");
    let schematic = [
        Resistor.name(),
        Capacitor.name(),
        Inductor.name(),
        Diode.name(),
        VoltageSource.name(),
        Switch.name(),
        Ground.name(),
        Junction.name(),
        Ic.name(),
    ];
    assert_eq!(
        schematic,
        ["resistor", "capacitor", "inductor", "diode", "vsource", "switch", "ground", "junction", "ic"]
    );
    let dataflow = [Process.name(), Entity.name(), Store.name(), Flow.name(), Boundary.name()];
    assert_eq!(dataflow, ["process", "entity", "store", "flow", "boundary"]);
    let shapes = [Rectangle.name(), Circle.name(), Oval.name(), Explosion.name(), Arrow.name()];
    assert_eq!(shapes, ["rectangle", "circle", "oval", "explosion", "arrow"]);
    assert!(!Ic.description().is_empty());
    assert!(!Schematic.description().is_empty());
}

#[test]
fn facings_and_port_directions() {
    assert_eq!(Facing::Right.port_dirs(), (Dir::Left, Dir::Right));
    assert_eq!(Facing::Left.port_dirs(), (Dir::Right, Dir::Left));
    assert_eq!(Facing::Up.port_dirs(), (Dir::Down, Dir::Up));
    assert_eq!(Facing::Down.port_dirs(), (Dir::Up, Dir::Down));
    assert!(Facing::Left.is_horizontal());
    assert!(!Facing::Up.is_horizontal());
    assert_eq!(axis_facing("vertical"), Facing::Down);
    assert_eq!(axis_facing("horizontal"), Facing::Right);
    assert_eq!(axis_facing("Vertical"), Facing::Right);
    assert_eq!(dir_facing("up", Facing::Right), Facing::Up);
    assert_eq!(dir_facing("sideways", Facing::Down), Facing::Down);
    assert_eq!(dir_facing("right", Facing::Down), Facing::Right);
    assert_eq!(ground_dir("down"), Dir::Down);
    assert_eq!(ground_dir("left"), Dir::Left);
    assert_eq!(ground_dir("right"), Dir::Right);
    assert_eq!(ground_dir(""), Dir::Up);
    assert_eq!(Arrow::direction("up"), Dir::Up);
    assert_eq!(Arrow::direction("left"), Dir::Left);
    assert_eq!(Arrow::direction("down"), Dir::Down);
    assert_eq!(Arrow::direction("diagonal"), Dir::Right);
}
