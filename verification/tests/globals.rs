use antlir::globals::{Globals, GlobalsBuilder, GlobalsStatic, LibraryExtension};
use antlir::value::FrozenValue;

fn string(s: &str) -> FrozenValue {
    FrozenValue::Native { kind: "string".to_string(), repr: format!("\"{}\"", s) }
}

fn int_value(i: i64) -> FrozenValue {
    FrozenValue::Native { kind: "int".to_string(), repr: i.to_string() }
}

fn function(repr: &str) -> FrozenValue {
    FrozenValue::Native { kind: "function".to_string(), repr: repr.to_string() }
}

fn attribute(v: FrozenValue) -> FrozenValue {
    FrozenValue::Attribute(Box::new(v))
}

fn assert_send_sync<T: Send + Sync>() {}

#[test]
fn test_send_sync() {
    assert_send_sync::<Globals>();
}

#[test]
fn test_set_attribute() {
    let res = GlobalsStatic::new();
    let methods = res
        .methods(|x: &mut GlobalsBuilder| {
            x.set_attribute("my_type", string("magic"));
            x.set_attribute("my_value", int_value(42));
        })
        .unwrap();
    // `magic.my_type` gives "magic" and `magic.my_value` gives 42.
    assert_eq!(methods.get_frozen("my_type"), Some(attribute(string("magic"))));
    assert_eq!(methods.get_frozen("my_value"), Some(attribute(int_value(42))));
    assert_eq!(methods.names(), vec!["my_type".to_string(), "my_value".to_string()]);
}

#[test]
fn new_globals_are_empty() {
    let g = Globals::new();
    assert!(g.names().is_empty());
    assert_eq!(g.describe(), "");
    assert_eq!(g.get_frozen("len"), None);
}

#[test]
fn set_then_get_gives_the_value() {
    let mut b = GlobalsBuilder::new();
    b.set("a", int_value(1));
    b.set("b", string("x"));
    let g = b.build();
    assert_eq!(g.get_frozen("a"), Some(int_value(1)));
    assert_eq!(g.get_frozen("b"), Some(string("x")));
    assert_eq!(g.get_frozen("c"), None);
}

#[test]
fn setting_a_name_again_keeps_its_place() {
    let mut b = GlobalsBuilder::new();
    b.set("a", int_value(1));
    b.set("b", int_value(2));
    b.set("a", int_value(3));
    let g = b.build();
    assert_eq!(g.names(), vec!["a".to_string(), "b".to_string()]);
    assert_eq!(g.get_frozen("a"), Some(int_value(3)));
}

#[test]
fn struct_collects_the_fields_set_inside() {
    let mut b = GlobalsBuilder::new();
    b.set("before", int_value(0));
    b.struct_("s", |x: &mut GlobalsBuilder| {
        x.set("foo", int_value(1));
        x.set_attribute("bar", string("y"));
    });
    b.set("after", int_value(9));
    let g = b.build();
    assert_eq!(g.names(), vec!["before".to_string(), "s".to_string(), "after".to_string()]);
    assert_eq!(
        g.get_frozen("s"),
        Some(FrozenValue::Struct(vec![
            ("foo".to_string(), int_value(1)),
            ("bar".to_string(), attribute(string("y"))),
        ]))
    );
    assert_eq!(g.get_frozen("foo"), None);
}

#[test]
fn with_and_with_struct_build_fluently() {
    let g = GlobalsBuilder::new()
        .with(|x: &mut GlobalsBuilder| x.set("a", int_value(1)))
        .with_struct("t", |x: &mut GlobalsBuilder| x.set("b", int_value(2)))
        .build();
    assert_eq!(g.get_frozen("a"), Some(int_value(1)));
    assert_eq!(
        g.get_frozen("t"),
        Some(FrozenValue::Struct(vec![("b".to_string(), int_value(2))]))
    );
}

#[test]
fn describe_writes_one_line_per_global() {
    let mut b = GlobalsBuilder::new();
    b.set("len", function("len(x)"));
    b.set("f", function("f(a, b = ...)"));
    b.set("n", int_value(5));
    b.struct_("s", |x: &mut GlobalsBuilder| {
        x.set("k", string("v"));
        x.set_attribute("m", int_value(1));
    });
    let g = b.build();
    assert_eq!(
        g.describe(),
        "def len(x): pass\ndef f(a, b = None): pass\n# n = 5\n# s = struct(k=\"v\", m=<attribute>)"
    );
}

#[test]
fn standard_holds_the_starlark_builtins() {
    let g = Globals::standard();
    let names = g.names();
    assert_eq!(names.len(), 29);
    assert_eq!(&names[0..3], &["None".to_string(), "True".to_string(), "False".to_string()]);
    assert!(names.contains(&"len".to_string()));
    assert!(!names.contains(&"print".to_string()));
    assert_eq!(g.get_frozen("len"), Some(function("len")));
    assert_eq!(
        g.get_frozen("True"),
        Some(FrozenValue::Native { kind: "bool".to_string(), repr: "True".to_string() })
    );
}

#[test]
fn extended_adds_every_extension() {
    let standard = Globals::standard().names();
    let extended = Globals::extended().names();
    assert_eq!(extended.len(), standard.len() + 14);
    assert_eq!(&extended[..standard.len()], &standard[..]);
    assert_eq!(extended, Globals::extended_by(&LibraryExtension::all()).names());
    assert!(extended.contains(&"print".to_string()));
    assert!(extended.contains(&"field".to_string()));
}

#[test]
fn extended_by_adds_in_the_given_order() {
    let g = Globals::extended_by(&[LibraryExtension::Print, LibraryExtension::RecordType]);
    let names = g.names();
    let n = names.len();
    assert_eq!(&names[n - 3..], &["print".to_string(), "record".to_string(), "field".to_string()]);
    let mut b = GlobalsBuilder::standard();
    LibraryExtension::Abs.add(&mut b);
    assert_eq!(b.build().names().last(), Some(&"abs".to_string()));
}

#[test]
fn function_needs_exactly_one_global() {
    let one = GlobalsStatic::new();
    assert_eq!(one.function(|x: &mut GlobalsBuilder| x.set("f", function("f()"))), Some(function("f()")));
    let two = GlobalsStatic::new();
    assert_eq!(
        two.function(|x: &mut GlobalsBuilder| {
            x.set("f", function("f()"));
            x.set("g", function("g()"));
        }),
        None
    );
}

#[test]
fn globals_static_builds_once() {
    let cell = GlobalsStatic::new();
    let first = cell.methods(|x: &mut GlobalsBuilder| x.set("a", int_value(1))).unwrap().names();
    let second = cell.methods(|x: &mut GlobalsBuilder| x.set("b", int_value(2))).unwrap().names();
    assert_eq!(first, vec!["a".to_string()]);
    assert_eq!(second, vec!["a".to_string()]);
}

#[test]
fn populate_copies_every_global() {
    let cell = GlobalsStatic::new();
    let mut out = GlobalsBuilder::new();
    out.set("b", int_value(0));
    cell.populate(
        |x: &mut GlobalsBuilder| {
            x.set("a", int_value(1));
            x.set("b", int_value(2));
        },
        &mut out,
    );
    let g = out.build();
    assert_eq!(g.names(), vec!["b".to_string(), "a".to_string()]);
    assert_eq!(g.get_frozen("a"), Some(int_value(1)));
    assert_eq!(g.get_frozen("b"), Some(int_value(2)));
}

#[test]
fn populate_into_an_empty_builder_gives_the_same_globals() {
    let cell = GlobalsStatic::new();
    let f = |x: &mut GlobalsBuilder| {
        x.set("a", int_value(1));
        x.struct_("s", |y: &mut GlobalsBuilder| y.set("c", int_value(3)));
    };
    let mut out = GlobalsBuilder::new();
    cell.populate(f, &mut out);
    let copied = out.build();
    let original = cell.methods(|_: &mut GlobalsBuilder| {}).unwrap();
    assert_eq!(copied.names(), original.names());
    assert_eq!(copied.get_frozen("s"), original.get_frozen("s"));
    assert_eq!(copied.describe(), original.describe());
}

#[test]
fn alloc_value_hands_the_value_back() {
    let b = GlobalsBuilder::new();
    assert_eq!(b.alloc_value(int_value(7)), int_value(7));
}

#[test]
fn copy_and_repr_of_values() {
    let v = FrozenValue::Struct(vec![("a".to_string(), attribute(int_value(1)))]);
    assert_eq!(v.copy(), v);
    assert_eq!(v.repr(), "struct(a=<attribute>)");
    assert_eq!(v.kind(), "struct");
    assert_eq!(attribute(int_value(1)).kind(), "attribute");
    assert_eq!(v.describe("x"), "# x = struct(a=<attribute>)");
}

#[test]
fn extending_keeps_every_standard_name() {
    let standard = Globals::standard().names();
    for extensions in [vec![], vec![LibraryExtension::Json], LibraryExtension::all()] {
        let names = Globals::extended_by(&extensions).names();
        for n in &standard {
            assert!(names.contains(n));
        }
        let mut sorted = names.clone();
        sorted.sort();
        sorted.dedup();
        assert_eq!(sorted.len(), names.len());
    }
}

#[test]
fn building_may_use_the_same_static() {
    let cell = GlobalsStatic::new();
    let outer = cell
        .methods(|x: &mut GlobalsBuilder| {
            let inner = cell.methods(|y: &mut GlobalsBuilder| y.set("a", int_value(1))).unwrap();
            assert_eq!(inner.names(), vec!["a".to_string()]);
            x.set("b", int_value(2));
        })
        .unwrap();
    // The inner use filled the cell first; every use sees those globals.
    assert_eq!(outer.names(), vec!["a".to_string()]);
    assert_eq!(cell.function(|_: &mut GlobalsBuilder| {}), Some(int_value(1)));
}
