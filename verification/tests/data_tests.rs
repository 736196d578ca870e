use rumblebars::data::Kind;
use rumblebars::escape::push_indented;
use rumblebars::scope::{split, Scope};
use rumblebars::{parse, HBData, HBEntry, HBValHolder};

fn object(members: Vec<(&str, HBData)>) -> HBData {
    HBData::Object(members.into_iter().map(|(k, v)| (k.to_string(), v)).collect())
}

fn text(s: &str) -> HBData {
    HBData::String(s.to_string())
}

fn shown(d: Option<&HBData>) -> String {
    match d {
        Some(d) => format!("{:?}", d),
        None => "absent".to_string(),
    }
}

#[test]
fn kinds_of_values() {
    assert_eq!(HBData::Null.kind(), Kind::Null);
    assert_eq!(HBData::Boolean(true).kind(), Kind::Bool);
    assert_eq!(HBData::I64(-1).kind(), Kind::Number);
    assert_eq!(HBData::U64(1).kind(), Kind::Number);
    assert_eq!(HBData::F64(1.5f64.to_bits(), "1.5".to_string()).kind(), Kind::Number);
    assert_eq!(text("s").kind(), Kind::String);
    assert_eq!(HBData::Array(vec![]).kind(), Kind::Array);
    assert_eq!(object(vec![]).kind(), Kind::Object);
}

#[test]
fn get_finds_the_first_member_of_a_name() {
    let data = object(vec![("a", HBData::U64(1)), ("b", HBData::U64(2)), ("a", HBData::U64(3))]);
    assert_eq!(shown(data.get(&"a".to_string())), "U64(1)");
    assert_eq!(shown(data.get(&"b".to_string())), "U64(2)");
    assert_eq!(shown(data.get(&"c".to_string())), "absent");
    assert_eq!(shown(data.get(&"0".to_string())), "absent");
}

#[test]
fn get_reads_a_decimal_index() {
    let data = HBData::Array(vec![text("a"), text("b")]);
    assert_eq!(shown(data.get(&"0".to_string())), "String(\"a\")");
    assert_eq!(shown(data.get(&"1".to_string())), "String(\"b\")");
    assert_eq!(shown(data.get(&"001".to_string())), "String(\"b\")");
    assert_eq!(shown(data.get(&"2".to_string())), "absent");
    assert_eq!(shown(data.get(&"".to_string())), "absent");
    assert_eq!(shown(data.get(&"1x".to_string())), "absent");
    assert_eq!(shown(data.get(&"+1".to_string())), "absent");
    assert_eq!(shown(data.get(&"18446744073709551616".to_string())), "absent");
    assert_eq!(shown(text("s").get(&"0".to_string())), "absent");
    assert_eq!(shown(HBData::Null.get(&"a".to_string())), "absent");
}

#[test]
fn copy_keeps_the_value() {
    let data = object(vec![
        ("a", HBData::Array(vec![HBData::Null, HBData::I64(-3), text("x")])),
        ("b", object(vec![("c", HBData::F64(2.5f64.to_bits(), "2.5".to_string()))])),
    ]);
    assert_eq!(format!("{:?}", data.copy()), format!("{:?}", data));
}

#[test]
fn default_rendering() {
    assert_eq!(HBData::I64(0).render_default(), "0");
    assert_eq!(HBData::I64(-10).render_default(), "-10");
    assert_eq!(HBData::I64(i64::MAX).render_default(), "9223372036854775807");
    assert_eq!(HBData::U64(1234567890).render_default(), "1234567890");
    assert_eq!(object(vec![("a", HBData::Null)]).render_default(), "");
    let mut out = "x=".to_string();
    HBData::U64(10).push_default(&mut out);
    assert_eq!(out, "x=10");
}

#[test]
fn paths_are_split_at_dots_and_slashes() {
    assert_eq!(split("a.b/c"), vec!["a", "b", "c"]);
    assert_eq!(split("../u"), vec!["..", "u"]);
    assert_eq!(split("../../u.v"), vec!["..", "..", "u", "v"]);
    assert_eq!(split("./u"), vec![".", "u"]);
    assert_eq!(split("."), vec!["."]);
    assert_eq!(split(""), Vec::<String>::new());
    assert_eq!(split("a//b"), vec!["a", "b"]);
}

#[test]
fn scope_resolves_paths_and_variables() {
    let root = object(vec![("name", text("top")), ("xs", HBData::Array(vec![text("a")]))]);
    let inner = object(vec![("name", text("in"))]);
    let outer = Scope::root(&root);
    let scope = Scope {
        value: &inner,
        vars: vec![("index".to_string(), HBData::U64(4)), ("index".to_string(), HBData::U64(5))],
        parent: Some(&outer),
    };
    let path = |segments: &[&str]| -> Vec<String> { segments.iter().map(|s| s.to_string()).collect() };
    assert_eq!(shown(scope.resolve(&path(&["name"]))), "String(\"in\")");
    assert_eq!(shown(scope.resolve(&path(&[".", "name"]))), "String(\"in\")");
    assert_eq!(shown(scope.resolve(&path(&["..", "name"]))), "String(\"top\")");
    assert_eq!(shown(scope.resolve(&path(&["..", "..", "name"]))), "absent");
    assert_eq!(shown(scope.resolve(&path(&["@root", "xs", "0"]))), "String(\"a\")");
    assert_eq!(shown(scope.resolve(&path(&["@index"]))), "U64(5)");
    assert_eq!(shown(outer.resolve(&path(&["@index"]))), "absent");
    assert_eq!(shown(scope.resolve(&path(&["name", "x"]))), "absent");
    assert_eq!(shown(scope.resolve(&path(&[]))), "absent");
    assert_eq!(shown(scope.lookup_var("index")), "U64(5)");
    assert_eq!(shown(Some(scope.root_value())), format!("{:?}", root));
    let op = HBValHolder::String("lit".to_string());
    assert_eq!(shown(scope.operand_value(&op).get()), "String(\"lit\")");
    let op = HBValHolder::Path(path(&["..", "xs", "0"]));
    assert_eq!(shown(scope.operand_value(&op).get()), "String(\"a\")");
    let op = HBValHolder::Literal(HBData::Boolean(true), "true".to_string());
    assert_eq!(shown(scope.operand_value(&op).get()), "Boolean(true)");
}

#[test]
fn indentation_follows_every_line_feed() {
    let mut out = String::new();
    push_indented(&mut out, "a\nb\n\nc\n", &Some("  ".to_string()));
    assert_eq!(out, "a\n  b\n  \n  c\n  ");
    let mut out = ">".to_string();
    push_indented(&mut out, "a\nb", &None);
    assert_eq!(out, ">a\nb");
}

#[test]
fn entries_know_their_flavour() {
    let t = parse("a{{b}}{{> c}}").ok().unwrap();
    let flavours: Vec<bool> = t.entries.iter().map(|e| e.is_partial()).collect();
    assert_eq!(flavours, vec![false, false, true]);
    assert!(matches!(*t.entries[0], HBEntry::Raw(_)));
}

#[test]
fn iter_walks_items_and_members() {
    let list = HBData::Array(vec![text("a"), text("b")]);
    let pairs: Vec<String> = list.iter().into_iter().map(|(k, v)| format!("{}={:?}", k, v)).collect();
    assert_eq!(pairs, vec!["0=String(\"a\")", "1=String(\"b\")"]);
    let map = object(vec![("x", HBData::U64(1)), ("y", HBData::Null)]);
    let pairs: Vec<String> = map.iter().into_iter().map(|(k, v)| format!("{}={:?}", k, v)).collect();
    assert_eq!(pairs, vec!["x=U64(1)", "y=Null"]);
    assert!(text("abc").iter().is_empty());
    assert!(HBData::Null.iter().is_empty());
}
