use rumblebars::escape::escape;
use rumblebars::{eval, parse, EvalContext, HBData, Template};

fn object(members: Vec<(&str, HBData)>) -> HBData {
    HBData::Object(members.into_iter().map(|(k, v)| (k.to_string(), v)).collect())
}

fn text(s: &str) -> HBData {
    HBData::String(s.to_string())
}

fn render(template: &str, data: &HBData) -> String {
    let tmpl = parse(template).ok().unwrap();
    let ctx: EvalContext = Default::default();
    let mut buf = String::new();
    eval(&tmpl, data, &mut buf, &ctx).unwrap();
    buf
}

#[test]
fn escaped_interpolation() {
    assert_eq!(render("{{a}}", &object(vec![("a", text("<x>"))])), "&lt;x&gt;");
}

#[test]
fn unescaped_interpolation() {
    assert_eq!(render("{{{a}}}", &object(vec![("a", text("<x>"))])), "<x>");
    assert_eq!(render("{{&a}}", &object(vec![("a", text("<x>"))])), "<x>");
}

#[test]
fn each_with_index() {
    let data = object(vec![("xs", HBData::Array(vec![text("a"), text("b")]))]);
    assert_eq!(render("{{#each xs}}{{@index}}:{{.}} {{/each}}", &data), "0:a 1:b ");
}

#[test]
fn if_else_on_false() {
    let data = object(vec![("p", HBData::Boolean(false))]);
    assert_eq!(render("{{#if p}}y{{else}}n{{/if}}", &data), "n");
}

#[test]
fn with_enters_value() {
    let data = object(vec![("t", object(vec![("j", text("ok"))]))]);
    assert_eq!(render("{{#with t}}{{j}}{{/with}}", &data), "ok");
}

#[test]
fn lookup_from_root_in_section() {
    let data = object(vec![
        ("t", object(vec![("j", text("u.v"))])),
        ("u", object(vec![("v", text("V"))])),
    ]);
    assert_eq!(render("{{#t}}{{lookup @root j}}{{/t}}", &data), "V");
}

#[test]
fn escape_covers_every_special_character() {
    assert_eq!(escape("&<>\"'`="), "&amp;&lt;&gt;&quot;&#x27;&#x60;&#x3D;");
    assert_eq!(escape("plain text"), "plain text");
    let s = "a & b < c = `d`";
    assert_eq!(render("{{x}}", &object(vec![("x", text(s))])), escape(s));
    assert_eq!(render("{{{x}}}", &object(vec![("x", text(s))])), s);
}

#[test]
fn empty_values_leave_the_raw_text() {
    let data = object(vec![("a", text("")), ("b", object(vec![("c", text(""))]))]);
    assert_eq!(render("one {{a}} two{{b.c}}three {{{a}}}", &data), "one  twothree ");
}

#[test]
fn partial_is_indented() {
    let tmpl = parse("  {{> p}}").ok().unwrap();
    let mut ctx: EvalContext = Default::default();
    ctx.register_partial("p".to_string(), parse("a\nb").ok().unwrap());
    let mut buf = String::new();
    eval(&tmpl, &HBData::Null, &mut buf, &ctx).unwrap();
    assert_eq!(buf, "  a\n  b");
}

#[test]
fn partial_sees_the_current_value_and_its_options() {
    let tmpl = parse("{{#each xs}}[{{> item sep=\"-\"}}]{{/each}}").ok().unwrap();
    let mut ctx: EvalContext = Default::default();
    ctx.register_partial("item".to_string(), parse("{{@index}}{{@sep}}{{.}}").ok().unwrap());
    let data = object(vec![("xs", HBData::Array(vec![text("a"), text("b")]))]);
    let mut buf = String::new();
    eval(&tmpl, &data, &mut buf, &ctx).unwrap();
    assert_eq!(buf, "[0-a][1-b]");
}

#[test]
fn partial_takes_its_parameter_as_value() {
    let tmpl = parse("{{> show who}}").ok().unwrap();
    let mut ctx: EvalContext = Default::default();
    ctx.register_partial("show".to_string(), parse("<{{name}}>").ok().unwrap());
    let data = object(vec![("who", object(vec![("name", text("N"))]))]);
    let mut buf = String::new();
    eval(&tmpl, &data, &mut buf, &ctx).unwrap();
    assert_eq!(buf, "<N>");
}

#[test]
fn unknown_partial_writes_nothing() {
    assert_eq!(render("a{{> nothing}}b", &HBData::Null), "ab");
}

#[test]
fn later_partial_replaces_earlier() {
    let tmpl = parse("{{> p}}").ok().unwrap();
    let mut ctx: EvalContext = Default::default();
    ctx.register_partial("p".to_string(), parse("one").ok().unwrap());
    ctx.register_partial("p".to_string(), parse("two").ok().unwrap());
    let mut buf = String::new();
    eval(&tmpl, &HBData::Null, &mut buf, &ctx).unwrap();
    assert_eq!(buf, "two");
}

#[test]
fn recursive_partial_stops_at_the_depth_limit() {
    let tmpl = parse("{{> p}}").ok().unwrap();
    let mut ctx: EvalContext = Default::default();
    ctx.register_partial("p".to_string(), parse("x{{> p}}").ok().unwrap());
    ctx.partial_depth = 3;
    let mut buf = String::new();
    eval(&tmpl, &HBData::Null, &mut buf, &ctx).unwrap();
    assert_eq!(buf, "xxx");
}

#[test]
fn numbers_and_booleans_render_as_text() {
    let data = object(vec![
        ("i", HBData::I64(-42)),
        ("min", HBData::I64(i64::MIN)),
        ("u", HBData::U64(18446744073709551615)),
        ("z", HBData::U64(0)),
        ("t", HBData::Boolean(true)),
        ("f", HBData::Boolean(false)),
        ("x", HBData::F64(1.5f64.to_bits(), "1.5".to_string())),
        ("n", HBData::Null),
        ("a", HBData::Array(vec![HBData::U64(1)])),
    ]);
    assert_eq!(
        render("{{i}} {{min}} {{u}} {{z}} {{t}} {{f}} {{x}} [{{n}}] [{{a}}]", &data),
        "-42 -9223372036854775808 18446744073709551615 0 true false 1.5 [] []"
    );
}

#[test]
fn truthiness_follows_the_kind() {
    let falsy = vec![
        HBData::Null,
        HBData::Boolean(false),
        HBData::I64(0),
        HBData::U64(0),
        HBData::F64(0.0f64.to_bits(), "0".to_string()),
        HBData::F64((-0.0f64).to_bits(), "-0".to_string()),
        text(""),
        HBData::Array(vec![]),
        HBData::Object(vec![]),
    ];
    for v in falsy.iter() {
        assert!(!v.truthy());
    }
    let truthy = vec![
        HBData::Boolean(true),
        HBData::I64(-1),
        HBData::U64(7),
        HBData::F64(0.5f64.to_bits(), "0.5".to_string()),
        text("0"),
        HBData::Array(vec![HBData::Null]),
        object(vec![("k", HBData::Null)]),
    ];
    for v in truthy.iter() {
        assert!(v.truthy());
    }
}

#[test]
fn get_reads_members_and_indices() {
    let data = object(vec![("xs", HBData::Array(vec![text("a"), text("b"), text("c")]))]);
    assert_eq!(render("{{xs.1}}{{xs.[2]}}{{xs.3}}{{xs.x}}{{xs.01}}", &data), "bcb");
    assert_eq!(render("{{xs.99999999999999999999999999}}|{{xs.-1}}", &data), "|");
}

#[test]
fn parent_and_root_paths() {
    let data = object(vec![
        ("name", text("top")),
        ("a", object(vec![("name", text("inner")), ("b", object(vec![("k", text("deep"))]))])),
    ]);
    assert_eq!(
        render("{{#with a}}{{name}}/{{../name}}/{{#with b}}{{k}}/{{../name}}/{{../../name}}/{{@root.name}}/{{../../../name}}{{/with}}{{/with}}", &data),
        "inner/top/deep/inner/top/top/"
    );
    assert_eq!(render("{{#with a}}{{this.name}}{{./name}}{{/with}}", &data), "innerinner");
}

#[test]
fn unless_and_inverse_blocks() {
    let data = object(vec![("yes", HBData::Boolean(true)), ("no", HBData::Boolean(false))]);
    assert_eq!(render("{{#unless no}}a{{else}}b{{/unless}}{{#unless yes}}c{{else}}d{{/unless}}", &data), "ad");
    assert_eq!(render("{{^no}}a{{/no}}{{^yes}}b{{/yes}}{{^missing}}c{{/missing}}", &data), "ac");
    assert_eq!(render("{{#yes}}a{{^}}b{{/yes}}{{#no}}c{{^}}d{{/no}}", &data), "ad");
}

#[test]
fn each_over_objects_and_empty_collections() {
    let data = object(vec![
        ("o", object(vec![("a", HBData::U64(1)), ("b", HBData::U64(2))])),
        ("e", HBData::Array(vec![])),
    ]);
    assert_eq!(
        render("{{#each o}}{{@index}}{{@key}}={{.}}{{#if @last}}.{{else}},{{/if}}{{/each}}", &data),
        "0a=1,1b=2."
    );
    assert_eq!(render("{{#each e}}x{{else}}none{{/each}}{{#each missing}}x{{else}}!{{/each}}", &data), "none!");
    assert_eq!(render("{{#each o}}{{@key}}{{/each}}", &HBData::Null), "");
}

#[test]
fn sections_need_a_compatible_context() {
    let tmpl = parse("{{#xs}}{{.}}{{/xs}}{{#o}}{{k}}{{/o}}{{#n}}no{{/n}}").ok().unwrap();
    let data = object(vec![
        ("xs", HBData::Array(vec![HBData::U64(1), HBData::U64(2)])),
        ("o", object(vec![("k", text("v"))])),
        ("n", HBData::U64(0)),
    ]);
    let mut ctx: EvalContext = Default::default();
    let mut buf = String::new();
    eval(&tmpl, &data, &mut buf, &ctx).unwrap();
    assert_eq!(buf, "12v");
    ctx.compat = false;
    let mut buf = String::new();
    eval(&tmpl, &data, &mut buf, &ctx).unwrap();
    assert_eq!(buf, "");
}

#[test]
fn literal_parameters_keep_their_value() {
    assert_eq!(render("{{#if true}}a{{/if}}{{#if false}}b{{/if}}{{#if 0}}c{{/if}}{{#if 12}}d{{/if}}{{#if null}}e{{/if}}", &HBData::Null), "ad");
    assert_eq!(render("{{#if \"\"}}a{{else}}b{{/if}}{{#if \"s\"}}c{{/if}}", &HBData::Null), "bc");
}

#[test]
fn eval_to_string_uses_the_default_context() {
    let tmpl: Template = parse("{{#t}}{{j}}{{/t}}!").ok().unwrap();
    let data = object(vec![("t", object(vec![("j", text("x"))]))]);
    assert_eq!(tmpl.eval_to_string(&data), Some("x!".to_string()));
    let mut buf = "before ".to_string();
    tmpl.eval(&data, &mut buf, &EvalContext::<rumblebars::NoHelper>::new()).unwrap();
    assert_eq!(buf, "before x!");
}

#[test]
fn simple_source_renders_as_itself_without_its_tags() {
    let data = object(vec![
        ("a", text("")),
        ("b", object(vec![("c", text(""))])),
    ]);
    let cases = [
        ("one {{a}} two\n  {{b.c}}\nthree", "one  two\n  \nthree"),
        ("{{a}}{{b/c}}", ""),
        (" \t{{a}}\r\n{{a}} x { y } ", " \t\r\n x { y } "),
        ("no tags at all\n", "no tags at all\n"),
    ];
    for (source, expected) in cases.iter() {
        let tmpl = parse(source).ok().unwrap();
        let mut raw = String::new();
        for e in tmpl.entries.iter() {
            match **e {
                rumblebars::HBEntry::Raw(ref s) => raw.push_str(s),
                rumblebars::HBEntry::Eval(ref x) => assert!(x.block.is_none() && x.else_block.is_none()),
                rumblebars::HBEntry::Partial(_) => panic!("a partial"),
            }
        }
        assert_eq!(&raw, expected);
        assert_eq!(&render(source, &data), expected);
        assert_eq!(tmpl.eval_to_string(&data), Some(expected.to_string()));
    }
}
