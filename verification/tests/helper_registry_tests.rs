use rumblebars::eval::{apply_action, apply_actions};
use rumblebars::scope::Scope;
use rumblebars::{eval, parse, EvalContext, HBData, HBEntry, Helper, HelperAction};

enum Custom {
    Shout,
    Pick(usize),
    When,
    Enter,
    Broken,
    Wrap,
    Silent,
}

impl Helper for Custom {
    fn call(
        &self,
        params: &Vec<Option<HBData>>,
        options: &Vec<(String, Option<HBData>)>,
    ) -> Vec<HelperAction> {
        vec![match self {
            Custom::Shout => match params.get(0) {
                Some(Some(HBData::String(s))) => {
                    let mut text = s.to_uppercase();
                    for (name, value) in options.iter() {
                        if name == "suffix" {
                            if let Some(HBData::String(suffix)) = value {
                                text.push_str(suffix);
                            }
                        }
                    }
                    HelperAction::Text(text)
                }
                _ => HelperAction::Text(String::new()),
            },
            Custom::Pick(i) => match params.get(*i) {
                Some(Some(v)) => HelperAction::Value(v.copy()),
                _ => HelperAction::Inverse,
            },
            Custom::When => match params.get(0) {
                Some(Some(v)) if v.truthy() => HelperAction::Block(None),
                _ => HelperAction::Inverse,
            },
            Custom::Enter => match params.get(0) {
                Some(Some(v)) => HelperAction::Block(Some(v.copy())),
                _ => HelperAction::Inverse,
            },
            Custom::Broken => HelperAction::Fail("no luck".to_string()),
            Custom::Wrap => {
                let mut actions = vec![HelperAction::Text("<".to_string())];
                for p in params.iter() {
                    match p {
                        Some(v) => actions.push(HelperAction::Block(Some(v.copy()))),
                        None => actions.push(HelperAction::Inverse),
                    }
                    actions.push(HelperAction::Text("|".to_string()));
                }
                actions.push(HelperAction::Text(">".to_string()));
                return actions;
            }
            Custom::Silent => return vec![],
        }]
    }
}

fn context() -> EvalContext<Custom> {
    let mut ctx: EvalContext<Custom> = EvalContext::new();
    ctx.register_helper("shout".to_string(), Custom::Shout);
    ctx.register_helper("second".to_string(), Custom::Pick(1));
    ctx.register_helper("when".to_string(), Custom::When);
    ctx.register_helper("enter".to_string(), Custom::Enter);
    ctx.register_helper("broken".to_string(), Custom::Broken);
    ctx.register_helper("wrap".to_string(), Custom::Wrap);
    ctx.register_helper("silent".to_string(), Custom::Silent);
    ctx
}

fn object(members: Vec<(&str, HBData)>) -> HBData {
    HBData::Object(members.into_iter().map(|(k, v)| (k.to_string(), v)).collect())
}

fn run(template: &str, data: &HBData) -> Result<String, (String, String)> {
    let tmpl = parse(template).ok().unwrap();
    let mut buf = String::new();
    match eval(&tmpl, data, &mut buf, &context()) {
        Ok(()) => Ok(buf),
        Err(e) => Err((e.helper, e.message)),
    }
}

#[test]
fn helper_text_is_written_as_it_stands() {
    let data = object(vec![("n", HBData::String("a<b".to_string()))]);
    assert_eq!(run("{{shout n suffix=\"!\"}}", &data), Ok("A<B!".to_string()));
}

#[test]
fn helper_value_is_escaped_like_a_path() {
    let data = object(vec![("n", HBData::String("a<b".to_string()))]);
    assert_eq!(run("{{second 1 n}}{{{second 1 n}}}", &data), Ok("a&lt;ba<b".to_string()));
}

#[test]
fn helper_chooses_the_block() {
    let data = object(vec![("y", HBData::Boolean(true)), ("v", object(vec![("k", HBData::U64(7))]))]);
    assert_eq!(run("{{#when y}}a{{else}}b{{/when}}{{#when n}}c{{else}}d{{/when}}", &data), Ok("ad".to_string()));
    assert_eq!(run("{{#enter v}}{{k}}{{/enter}}{{#enter w}}x{{else}}none{{/enter}}", &data), Ok("7none".to_string()));
}

#[test]
fn helper_failure_carries_its_name() {
    assert_eq!(
        run("a{{broken}}b", &HBData::Null),
        Err(("broken".to_string(), "no luck".to_string()))
    );
}

#[test]
fn registered_helper_hides_a_builtin() {
    let tmpl = parse("{{#if x}}a{{else}}b{{/if}}").ok().unwrap();
    let mut ctx: EvalContext<Custom> = EvalContext::new();
    ctx.register_helper("if".to_string(), Custom::Broken);
    let mut buf = String::new();
    assert!(eval(&tmpl, &HBData::Null, &mut buf, &ctx).is_err());
}

#[test]
fn actions_are_applied_to_the_expression() {
    let tmpl = parse("{{#t v}}in {{k}}{{else}}out{{/t}}").ok().unwrap();
    let x = match *tmpl.entries[0] {
        HBEntry::Eval(ref x) => x,
        _ => panic!("no expression"),
    };
    let data = object(vec![("k", HBData::String("root".to_string()))]);
    let scope = Scope::root(&data);
    let ctx: EvalContext = Default::default();
    let name = "t".to_string();
    let apply = |action: HelperAction| -> Result<String, String> {
        let mut buf = String::new();
        match apply_action(action, &name, x, &scope, &ctx, &mut buf, 4) {
            Ok(()) => Ok(buf),
            Err(e) => Err(format!("{}: {}", e.helper, e.message)),
        }
    };
    assert_eq!(apply(HelperAction::Text("<t>".to_string())), Ok("<t>".to_string()));
    assert_eq!(apply(HelperAction::Value(HBData::String("<v>".to_string()))), Ok("&lt;v&gt;".to_string()));
    assert_eq!(apply(HelperAction::Block(None)), Ok("in root".to_string()));
    assert_eq!(
        apply(HelperAction::Block(Some(object(vec![("k", HBData::String("own".to_string()))])))),
        Ok("in own".to_string())
    );
    assert_eq!(apply(HelperAction::Inverse), Ok("out".to_string()));
    assert_eq!(apply(HelperAction::Fail("bad".to_string())), Err("t: bad".to_string()));
}

#[test]
fn helper_renders_a_block_several_times_with_text_around() {
    let data = object(vec![
        ("a", object(vec![("k", HBData::U64(1))])),
        ("b", object(vec![("k", HBData::U64(2))])),
    ]);
    assert_eq!(run("{{#wrap a missing b}}{{k}}{{else}}-{{/wrap}}", &data), Ok("<1|-|2|>".to_string()));
    assert_eq!(run("x{{#silent a}}{{k}}{{/silent}}y", &data), Ok("xy".to_string()));
}

#[test]
fn actions_stop_at_the_first_failure() {
    let tmpl = parse("{{#t}}in{{else}}out{{/t}}").ok().unwrap();
    let x = match *tmpl.entries[0] {
        HBEntry::Eval(ref x) => x,
        _ => panic!("no expression"),
    };
    let data = HBData::Null;
    let scope = Scope::root(&data);
    let ctx: EvalContext = Default::default();
    let name = "t".to_string();
    let mut buf = "=".to_string();
    let actions = vec![
        HelperAction::Text("a".to_string()),
        HelperAction::Block(None),
        HelperAction::Fail("first".to_string()),
        HelperAction::Text("never".to_string()),
        HelperAction::Fail("second".to_string()),
    ];
    let r = apply_actions(actions, &name, x, &scope, &ctx, &mut buf, 4);
    assert_eq!(r.err().map(|e| (e.helper, e.message)), Some(("t".to_string(), "first".to_string())));
    assert_eq!(buf, "=ain");
    let mut buf = String::new();
    let actions = vec![HelperAction::Inverse, HelperAction::Text("!".to_string()), HelperAction::Inverse];
    assert!(apply_actions(actions, &name, x, &scope, &ctx, &mut buf, 4).is_ok());
    assert_eq!(buf, "out!out");
}
