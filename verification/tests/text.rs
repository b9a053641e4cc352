use antlir::text::{chars_of, decimal_string, replace_str};
use antlir::globals::GlobalsBuilder;
use antlir::value::FrozenValue;

#[test]
fn decimal_numerals() {
    assert_eq!(decimal_string(0), "0");
    assert_eq!(decimal_string(7), "7");
    assert_eq!(decimal_string(1204), "1204");
    assert_eq!(decimal_string(u64::MAX), "18446744073709551615");
}

#[test]
fn replacing_substrings() {
    assert_eq!(replace_str("aaa", "aa", "b"), "ba");
    assert_eq!(replace_str("f(x = ...)", " = ...", " = None"), "f(x = None)");
    assert_eq!(replace_str("", "a", "b"), "");
    assert_eq!(replace_str("abc", "d", "e"), "abc");
    assert_eq!(replace_str("a<b<", "<", "&lt;"), "a&lt;b&lt;");
}

#[test]
fn joining_descriptions() {
    let mut b = GlobalsBuilder::new();
    let v = |r: &str| FrozenValue::Native { kind: "int".to_string(), repr: r.to_string() };
    b.set("a", v("1"));
    assert_eq!(b.build().describe(), "# a = 1");
    let mut b = GlobalsBuilder::new();
    b.set("a", v("1"));
    b.set("b", v("2"));
    b.set("c", v("3"));
    assert_eq!(b.build().describe(), "# a = 1\n# b = 2\n# c = 3");
    let s = FrozenValue::Struct(vec![("x".to_string(), v("1")), ("y".to_string(), v("2"))]);
    assert_eq!(s.repr(), "struct(x=1, y=2)");
    assert_eq!(FrozenValue::Struct(Vec::new()).repr(), "struct()");
}

#[test]
fn characters_of_text() {
    assert_eq!(chars_of("héllo"), vec!['h', 'é', 'l', 'l', 'o']);
    assert_eq!(chars_of(""), Vec::<char>::new());
}
