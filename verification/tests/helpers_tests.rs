use rumblebars::{eval, parse, EvalContext, HBData};
use rustc_serialize::json::Json;
use std::default::Default;

fn convert(json: &Json) -> HBData {
    match json {
        &Json::Null => HBData::Null,
        &Json::Boolean(b) => HBData::Boolean(b),
        &Json::I64(n) => HBData::I64(n),
        &Json::U64(n) => HBData::U64(n),
        &Json::F64(x) => HBData::F64(x.to_bits(), format!("{}", x)),
        &Json::String(ref s) => HBData::String(s.clone()),
        &Json::Array(ref items) => HBData::Array(items.iter().map(convert).collect()),
        &Json::Object(ref members) => {
            HBData::Object(members.iter().map(|(k, v)| (k.clone(), convert(v))).collect())
        }
    }
}

fn data(text: &str) -> HBData {
    convert(&Json::from_str(text).ok().unwrap())
}

#[test]
fn if_true() {
    {
        let json = data(r##"true"##);
        let tmpl = parse(r##"{{#if .}}ok{{else}}ko{{/if}}"##).ok().unwrap();
        let eval_ctxt: EvalContext = Default::default();
        let mut buf = String::new();

        eval(&tmpl, &json, &mut buf, &eval_ctxt).unwrap();

        assert_eq!(buf, "ok");
    }
    {
        let json = data(r##"{}"##);
        let tmpl = parse(r##"{{#if .}}ok{{else}}ko{{/if}}"##).ok().unwrap();
        let eval_ctxt: EvalContext = Default::default();
        let mut buf = String::new();

        eval(&tmpl, &json, &mut buf, &eval_ctxt).unwrap();

        assert_eq!(buf, "ko");
    }
    {
        let json = data(r##""any""##);
        let tmpl = parse(r##"{{#if .}}ok{{else}}ko{{/if}}"##).ok().unwrap();
        let eval_ctxt: EvalContext = Default::default();
        let mut buf = String::new();

        eval(&tmpl, &json, &mut buf, &eval_ctxt).unwrap();

        assert_eq!(buf, "ok");
    }
    {
        let json = data(r##"[1]"##);
        let tmpl = parse(r##"{{#if .}}ok{{else}}ko{{/if}}"##).ok().unwrap();
        let eval_ctxt: EvalContext = Default::default();
        let mut buf = String::new();

        eval(&tmpl, &json, &mut buf, &eval_ctxt).unwrap();

        assert_eq!(buf, "ok");
    }
    {
        let json = data(r##"1"##);
        let tmpl = parse(r##"{{#if .}}ok{{else}}ko{{/if}}"##).ok().unwrap();
        let eval_ctxt: EvalContext = Default::default();
        let mut buf = String::new();

        eval(&tmpl, &json, &mut buf, &eval_ctxt).unwrap();

        assert_eq!(buf, "ok");
    }
    {
        let json = data(r##"{"p": true}"##);
        let tmpl = parse(r##"{{#if p}}ok{{else}}ko{{/if}}"##).ok().unwrap();
        let eval_ctxt: EvalContext = Default::default();
        let mut buf = String::new();

        eval(&tmpl, &json, &mut buf, &eval_ctxt).unwrap();

        assert_eq!(buf, "ok");
    }
    {
        let json = data(r##"{"p": {"q": true}}"##);
        let tmpl = parse(r##"{{#if p.q}}ok{{else}}ko{{/if}}"##).ok().unwrap();
        let eval_ctxt: EvalContext = Default::default();
        let mut buf = String::new();

        eval(&tmpl, &json, &mut buf, &eval_ctxt).unwrap();

        assert_eq!(buf, "ok");
    }
}

#[test]
fn if_false() {
    {
        let json = data(r##"false"##);
        let tmpl = parse(r##"{{#if .}}ok{{else}}ko{{/if}}"##).ok().unwrap();
        let eval_ctxt: EvalContext = Default::default();
        let mut buf = String::new();

        eval(&tmpl, &json, &mut buf, &eval_ctxt).unwrap();

        assert_eq!(buf, "ko");
    }
    {
        let json = data(r##"{}"##);
        let tmpl = parse(r##"{{#if k}}ok{{else}}ko{{/if}}"##).ok().unwrap();
        let eval_ctxt: EvalContext = Default::default();
        let mut buf = String::new();

        eval(&tmpl, &json, &mut buf, &eval_ctxt).unwrap();

        assert_eq!(buf, "ko");
    }
    {
        let json = data(r##""""##);
        let tmpl = parse(r##"{{#if .}}ok{{else}}ko{{/if}}"##).ok().unwrap();
        let eval_ctxt: EvalContext = Default::default();
        let mut buf = String::new();

        eval(&tmpl, &json, &mut buf, &eval_ctxt).unwrap();

        assert_eq!(buf, "ko");
    }
    {
        let json = data(r##"[]"##);
        let tmpl = parse(r##"{{#if .}}ok{{else}}ko{{/if}}"##).ok().unwrap();
        let eval_ctxt: EvalContext = Default::default();
        let mut buf = String::new();

        eval(&tmpl, &json, &mut buf, &eval_ctxt).unwrap();

        assert_eq!(buf, "ko");
    }
    {
        let json = data(r##"0"##);
        let tmpl = parse(r##"{{#if .}}ok{{else}}ko{{/if}}"##).ok().unwrap();
        let eval_ctxt: EvalContext = Default::default();
        let mut buf = String::new();

        eval(&tmpl, &json, &mut buf, &eval_ctxt).unwrap();

        assert_eq!(buf, "ko");
    }
    {
        let json = data(r##"{"p": false}"##);
        let tmpl = parse(r##"{{#if p}}ok{{else}}ko{{/if}}"##).ok().unwrap();
        let eval_ctxt: EvalContext = Default::default();
        let mut buf = String::new();

        eval(&tmpl, &json, &mut buf, &eval_ctxt).unwrap();

        assert_eq!(buf, "ko");
    }
    {
        let json = data(r##"{"p": {"q": false}}"##);
        let tmpl = parse(r##"{{#if p.q}}ok{{else}}ko{{/if}}"##).ok().unwrap();
        let eval_ctxt: EvalContext = Default::default();
        let mut buf = String::new();

        eval(&tmpl, &json, &mut buf, &eval_ctxt).unwrap();

        assert_eq!(buf, "ko");
    }
}

#[test]
fn each_index() {
    let json = data(r##"["zero", "one", "two", "three"]"##);
    let tmpl = parse(r##"{{#each this}}{{@index}}:{{.}} {{/each}}"##).ok().unwrap();
    let eval_ctxt: EvalContext = Default::default();
    let mut buf = String::new();

    eval(&tmpl, &json, &mut buf, &eval_ctxt).unwrap();

    assert_eq!(buf, "0:zero 1:one 2:two 3:three ");
}

#[test]
fn each_first() {
    let json = data(r##"["zero", "one", "two", "three"]"##);
    let tmpl = parse(r##"{{#each this}}{{#if @first}}{{.}}{{/if}}{{/each}}"##).ok().unwrap();
    let eval_ctxt: EvalContext = Default::default();
    let mut buf = String::new();

    eval(&tmpl, &json, &mut buf, &eval_ctxt).unwrap();

    assert_eq!(buf, "zero");
}

#[test]
fn each_last() {
    let json = data(r##"["zero", "one", "two", "three"]"##);
    let tmpl = parse(r##"{{#each this}}{{#if @last}}{{.}}{{/if}}{{/each}}"##).ok().unwrap();
    let eval_ctxt: EvalContext = Default::default();
    let mut buf = String::new();

    eval(&tmpl, &json, &mut buf, &eval_ctxt).unwrap();

    assert_eq!(buf, "three");
}

#[test]
fn each_keys() {
    let json = data(r##"[{"one": 1}, {"two": 2}, {"three": 3}]"##);
    let tmpl = parse(r##"{{#this}}{{#each this}}{{@key}}:{{.}} {{/each}}{{/this}}"##).ok().unwrap();
    let eval_ctxt: EvalContext = Default::default();
    let mut buf = String::new();

    eval(&tmpl, &json, &mut buf, &eval_ctxt).unwrap();

    assert_eq!(buf, "one:1 two:2 three:3 ");
}

#[test]
fn lookup() {
    let json = data(r##"{"t": {"j": "../u"}, "u": "u content"}"##);
    let tmpl = parse(r##"{{#t}}{{lookup j}}{{/t}}"##).ok().unwrap();
    let eval_ctxt: EvalContext = Default::default();
    let mut buf = String::new();

    eval(&tmpl, &json, &mut buf, &eval_ctxt).unwrap();

    assert_eq!(buf, "u content");
}

#[test]
fn lookup_with_context() {
    let json = data(r##"{"t": {"j": "u.v"}, "u": {"v": "v content"}}"##);
    let tmpl = parse(r##"{{#t}}path is {{j}} : {{lookup @root j}}{{/t}}"##).ok().unwrap();
    let eval_ctxt: EvalContext = Default::default();
    let mut buf = String::new();

    eval(&tmpl, &json, &mut buf, &eval_ctxt).unwrap();

    assert_eq!(buf, "path is u.v : v content");
}

#[test]
fn with() {
    let json = data(r##"{"t": {"j": "result"}}"##);
    let tmpl = parse(r##"{{#with t}}{{j}}{{/with}}"##).ok().unwrap();
    let eval_ctxt: EvalContext = Default::default();
    let mut buf = String::new();

    eval(&tmpl, &json, &mut buf, &eval_ctxt).unwrap();

    assert_eq!(buf, "result");
}

