use rumblebars::{eval, parse, EvalContext, HBData};
use rustc_serialize::json::Json;

fn convert(json: &Json) -> HBData {
    match json {
        &Json::Null => HBData::Null,
        &Json::Boolean(b) => HBData::Boolean(b),
        &Json::I64(n) => HBData::I64(n),
        &Json::U64(n) => HBData::U64(n),
        &Json::F64(x) => HBData::F64(x.to_bits(), format!("{}", x)),
        &Json::String(ref s) => HBData::String(s.clone()),
        &Json::Array(ref items) => HBData::Array(items.iter().map(convert).collect()),
        &Json::Object(ref members) => {
            HBData::Object(members.iter().map(|(k, v)| (k.clone(), convert(v))).collect())
        }
    }
}

fn render_with(template: &str, data: &str, partials: &[(&str, &str)]) -> String {
    let tmpl = parse(template).ok().unwrap();
    let mut ctx: EvalContext = Default::default();
    ctx.compat = true;
    for (name, source) in partials.iter() {
        ctx.register_partial(name.to_string(), parse(source).ok().unwrap());
    }
    let json = convert(&Json::from_str(data).ok().unwrap());
    let mut buf = String::new();
    eval(&tmpl, &json, &mut buf, &ctx).unwrap();
    buf
}

fn render(template: &str, data: &str) -> String {
    render_with(template, data, &[])
}

#[test]
fn mustache_interpolation() {
    assert_eq!(render("Hello from {Mustache}!\n", "{}"), "Hello from {Mustache}!\n");
    assert_eq!(render("Hello, {{subject}}!\n", r#"{"subject": "world"}"#), "Hello, world!\n");
    assert_eq!(
        render("These characters should be HTML escaped: {{forbidden}}\n", r#"{"forbidden": "& \" < >"}"#),
        "These characters should be HTML escaped: &amp; &quot; &lt; &gt;\n"
    );
    assert_eq!(
        render("These characters should not be HTML escaped: {{{forbidden}}}\n", r#"{"forbidden": "& \" < >"}"#),
        "These characters should not be HTML escaped: & \" < >\n"
    );
    assert_eq!(render("\"{{mph}} miles an hour!\"", r#"{"mph": 85}"#), "\"85 miles an hour!\"");
    assert_eq!(render("\"{{power}} jiggawatts!\"", r#"{"power": 1.21}"#), "\"1.21 jiggawatts!\"");
    assert_eq!(render("I ({{cannot}}) be seen!", "{}"), "I () be seen!");
    assert_eq!(
        render("\"{{person.name}}\" == \"{{#person}}{{name}}{{/person}}\"", r#"{"person": {"name": "Joe"}}"#),
        "\"Joe\" == \"Joe\""
    );
    assert_eq!(
        render("\"{{a.b.c.d.e.name}}\" == \"Phil\"", r#"{"a": {"b": {"c": {"d": {"e": {"name": "Phil"}}}}}}"#),
        "\"Phil\" == \"Phil\""
    );
    assert_eq!(render("\"{{a.b.c}}\" == \"\"", r#"{"a": {}}"#), "\"\" == \"\"");
}

#[test]
fn mustache_interpolation_whitespace() {
    assert_eq!(render("| {{string}} |", r#"{"string": "---"}"#), "| --- |");
    assert_eq!(render("| {{{string}}} |", r#"{"string": "---"}"#), "| --- |");
    assert_eq!(render("| {{&string}} |", r#"{"string": "---"}"#), "| --- |");
    assert_eq!(render("  {{string}}\n", r#"{"string": "---"}"#), "  ---\n");
    assert_eq!(render("  {{{string}}}\n", r#"{"string": "---"}"#), "  ---\n");
    assert_eq!(render("|{{ string }}|", r#"{"string": "---"}"#), "|---|");
    assert_eq!(render("|{{{ string }}}|", r#"{"string": "---"}"#), "|---|");
    assert_eq!(render("|{{& string }}|", r#"{"string": "---"}"#), "|---|");
}

#[test]
fn mustache_sections() {
    assert_eq!(render("\"{{#boolean}}This should be rendered.{{/boolean}}\"", r#"{"boolean": true}"#), "\"This should be rendered.\"");
    assert_eq!(render("\"{{#boolean}}This should not be rendered.{{/boolean}}\"", r#"{"boolean": false}"#), "\"\"");
    assert_eq!(render("\"{{#context}}Hi {{name}}.{{/context}}\"", r#"{"context": {"name": "Joe"}}"#), "\"Hi Joe.\"");
    assert_eq!(
        render("\"{{#list}}{{item}}{{/list}}\"", r#"{"list": [{"item": 1}, {"item": 2}, {"item": 3}]}"#),
        "\"123\""
    );
    assert_eq!(render("\"{{#list}}Yay lists!{{/list}}\"", r#"{"list": []}"#), "\"\"");
    assert_eq!(render("[{{#missing}}Found key 'missing'!{{/missing}}]", "{}"), "[]");
    assert_eq!(render("\"{{#list}}({{.}}){{/list}}\"", r#"{"list": ["a", "b", "c", "d", "e"]}"#), "\"(a)(b)(c)(d)(e)\"");
    assert_eq!(render("\"{{#list}}({{.}}){{/list}}\"", r#"{"list": [1, 2, 3, 4, 5]}"#), "\"(1)(2)(3)(4)(5)\"");
    assert_eq!(render("\"{{#a.b.c}}Here{{/a.b.c}}\" == \"Here\"", r#"{"a": {"b": {"c": true}}}"#), "\"Here\" == \"Here\"");
    assert_eq!(render("\"{{#a.b.c}}Here{{/a.b.c}}\" == \"\"", r#"{"a": {}}"#), "\"\" == \"\"");
    assert_eq!(
        render("{{#bool}}\n* first\n{{/bool}}\n* {{two}}\n{{#bool}}\n* third\n{{/bool}}\n", r#"{"two": "second", "bool": true}"#),
        "* first\n* second\n* third\n"
    );
}

#[test]
fn mustache_section_whitespace() {
    assert_eq!(render(" | {{#boolean}}\t|\t{{/boolean}} | \n", r#"{"boolean": true}"#), " | \t|\t | \n");
    assert_eq!(render(" | {{#boolean}} {{! Important Whitespace }}\n {{/boolean}} | \n", r#"{"boolean": true}"#), " |  \n  | \n");
    assert_eq!(render(" {{#boolean}}YES{{/boolean}}\n {{#boolean}}GOOD{{/boolean}}\n", r#"{"boolean": true}"#), " YES\n GOOD\n");
    assert_eq!(render("| This Is\n{{#boolean}}\n|\n{{/boolean}}\n| A Line\n", r#"{"boolean": true}"#), "| This Is\n|\n| A Line\n");
    assert_eq!(render("| This Is\n  {{#boolean}}\n|\n  {{/boolean}}\n| A Line\n", r#"{"boolean": true}"#), "| This Is\n|\n| A Line\n");
    assert_eq!(render("|\r\n{{#boolean}}\r\n{{/boolean}}\r\n|", r#"{"boolean": true}"#), "|\r\n|");
    assert_eq!(render("  {{#boolean}}\n#{{/boolean}}\n/", r#"{"boolean": true}"#), "#\n/");
    assert_eq!(render("#{{#boolean}}\n/\n  {{/boolean}}", r#"{"boolean": true}"#), "#\n/\n");
    assert_eq!(render("|{{# boolean }}={{/ boolean }}|", r#"{"boolean": true}"#), "|=|");
}

#[test]
fn mustache_inverted() {
    assert_eq!(render("\"{{^boolean}}This should be rendered.{{/boolean}}\"", r#"{"boolean": false}"#), "\"This should be rendered.\"");
    assert_eq!(render("\"{{^boolean}}This should not be rendered.{{/boolean}}\"", r#"{"boolean": true}"#), "\"\"");
    assert_eq!(render("\"{{^context}}Hi {{name}}.{{/context}}\"", r#"{"context": {"name": "Joe"}}"#), "\"\"");
    assert_eq!(render("\"{{^list}}{{n}}{{/list}}\"", r#"{"list": [{"n": 1}]}"#), "\"\"");
    assert_eq!(render("\"{{^list}}Yay lists!{{/list}}\"", r#"{"list": []}"#), "\"Yay lists!\"");
    assert_eq!(render("[{{^missing}}Cannot find key 'missing'!{{/missing}}]", "{}"), "[Cannot find key 'missing'!]");
    assert_eq!(render("| A {{^bool}}B {{^bool}}C{{/bool}} D{{/bool}} E |", r#"{"bool": false}"#), "| A B C D E |");
    assert_eq!(render("| This Is\n{{^boolean}}\n|\n{{/boolean}}\n| A Line\n", r#"{"boolean": false}"#), "| This Is\n|\n| A Line\n");
    assert_eq!(render("^{{^boolean}}\n/\n  {{/boolean}}", r#"{"boolean": false}"#), "^\n/\n");
    assert_eq!(render("|{{^ boolean }}={{/ boolean }}|", r#"{"boolean": false}"#), "|=|");
}

#[test]
fn mustache_comments() {
    assert_eq!(render("12345{{! Comment Block! }}67890", "{}"), "1234567890");
    assert_eq!(render("12345{{!\n  This is a\n  multi-line comment...\n}}67890\n", "{}"), "1234567890\n");
    assert_eq!(render("Begin.\n{{! Comment Block! }}\nEnd.\n", "{}"), "Begin.\nEnd.\n");
    assert_eq!(render("Begin.\n  {{! Indented Comment Block! }}\nEnd.\n", "{}"), "Begin.\nEnd.\n");
    assert_eq!(render("|\r\n{{! Standalone Comment }}\r\n|", "{}"), "|\r\n|");
    assert_eq!(render("  {{! I'm Still Standalone }}\n!", "{}"), "!");
    assert_eq!(render("!\n  {{! I'm Still Standalone }}", "{}"), "!\n");
    assert_eq!(render("Begin.\n{{!\nSomething's going on here...\n}}\nEnd.\n", "{}"), "Begin.\nEnd.\n");
    assert_eq!(render("  12 {{! 34 }}\n", "{}"), "  12 \n");
    assert_eq!(render("12345 {{! Comment Block! }} 67890", "{}"), "12345  67890");
}

#[test]
fn mustache_partials() {
    assert_eq!(render_with("\"{{>text}}\"", "{}", &[("text", "from partial")]), "\"from partial\"");
    assert_eq!(render_with("\"{{>text}}\"", "{}", &[]), "\"\"");
    assert_eq!(render_with("\"{{>partial}}\"", r#"{"text": "content"}"#, &[("partial", "*{{text}}*")]), "\"*content*\"");
    assert_eq!(
        render_with("{{>node}}", r#"{"content": "X", "nodes": [{"content": "Y", "nodes": []}]}"#, &[("node", "{{content}}<{{#nodes}}{{>node}}{{/nodes}}>")]),
        "X<Y<>>"
    );
    assert_eq!(render_with("| {{>partial}} |", "{}", &[("partial", "\t|\t")]), "| \t|\t |");
    assert_eq!(render_with("|\r\n{{>partial}}\r\n|", "{}", &[("partial", ">")]), "|\r\n>|");
    assert_eq!(render_with("  {{>partial}}\n>", "{}", &[("partial", ">\n>")]), "  >\n  >>");
    assert_eq!(render_with(">\n  {{>partial}}", "{}", &[("partial", ">\n>")]), ">\n  >\n  >");
    assert_eq!(render_with("|{{> partial }}|", r#"{"boolean": true}"#, &[("partial", "[]")]), "|[]|");
}
