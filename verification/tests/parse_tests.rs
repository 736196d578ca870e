use rumblebars::{parse, parse_hb_expression, HBEntry, HBExpression, HBValHolder, Template};
use std::default::Default;

#[test]
fn hb_simple() {
    assert!(match parse_hb_expression("{{i}}") {
        Ok(_) => true,
        Err(_) => false,
    })
}

#[test]
fn hb_simple_base() {
    match parse_hb_expression("{{i}}") {
        Ok((_, ok, _)) => assert_eq!(ok.base, vec!["i"]),
        Err(_) => panic!("no expression"),
    }
}

#[test]
fn hb_simple_base_path() {
    match parse_hb_expression("{{i.j}}") {
        Ok((_, ok, _)) => assert_eq!(ok.base, vec!["i", "j"]),
        Err(_) => panic!("no expression"),
    }
}

#[test]
fn hb_simple_base_esc_path() {
    match parse_hb_expression("{{[i]}}") {
        Ok((_, ok, _)) => assert_eq!(ok.base, vec!["i"]),
        Err(_) => panic!("no expression"),
    }
}

#[test]
fn hb_simple_this_path() {
    match parse_hb_expression("{{.}}") {
        Ok((_, ok, _)) => assert_eq!(ok.base, vec!["."]),
        Err(_) => panic!("no expression"),
    }
}

#[test]
fn hb_this_path() {
    match parse_hb_expression("{{./p}}") {
        Ok((_, ok, _)) => assert_eq!(ok.base, vec![".", "p"]),
        Err(_) => panic!("no expression"),
    }
}

#[allow(unused_variables)]
#[test]
fn hb_string_param() {
    match parse_hb_expression(r##"{{p "string"}}"##) {
        Ok((_, HBExpression { ref base, ref params, ref options, ref render_options, ref block, ref else_block }, _)) => {
            assert_eq!(base, &vec!["p"]);
            assert_eq!(
                match params.get(0).unwrap() {
                    &HBValHolder::String(ref s) => s.clone(),
                    _ => "".to_string(),
                },
                "string".to_string()
            );
        }
        Err(_) => panic!("no expression"),
    }
}

#[allow(unused_variables)]
#[test]
fn hb_prop_path_param() {
    match parse_hb_expression(r##"{{p some.path}}"##) {
        Ok((_, HBExpression { ref base, ref params, ref options, ref render_options, ref block, ref else_block }, _)) => {
            assert_eq!(base, &vec!["p"]);
            assert_eq!(
                match params.get(0).unwrap() {
                    &HBValHolder::Path(ref p) => p.clone(),
                    _ => vec![],
                },
                vec!["some", "path"]
            );
        }
        Err(_) => panic!("no expression"),
    }
}

#[allow(unused_variables)]
#[test]
fn hb_2_params() {
    match parse_hb_expression(r##"{{p some path}}"##) {
        Ok((_, HBExpression { ref base, ref params, ref options, ref render_options, ref block, ref else_block }, _)) => {
            assert_eq!(base, &vec!["p"]);
            assert_eq!(
                match params.get(0).unwrap() {
                    &HBValHolder::Path(ref p) => p.clone(),
                    _ => vec![],
                },
                vec!["some"]
            );
            assert_eq!(
                match params.get(1).unwrap() {
                    &HBValHolder::Path(ref p) => p.clone(),
                    _ => vec![],
                },
                vec!["path"]
            );
        }
        Err(_) => panic!("no expression"),
    }
}

#[allow(unused_variables)]
#[test]
fn hb_3_params() {
    match parse_hb_expression(r##"{{p some.path "with_string" yep}}"##) {
        Ok((_, HBExpression { ref base, ref params, ref options, ref render_options, ref block, ref else_block }, _)) => {
            assert_eq!(base, &vec!["p"]);
            assert_eq!(
                match params.get(0).unwrap() {
                    &HBValHolder::Path(ref p) => p.clone(),
                    _ => vec![],
                },
                vec!["some", "path"]
            );
            assert_eq!(
                match params.get(1).unwrap() {
                    &HBValHolder::String(ref s) => s.clone(),
                    _ => "".to_string(),
                },
                "with_string".to_string()
            );
            assert_eq!(
                match params.get(2).unwrap() {
                    &HBValHolder::Path(ref p) => p.clone(),
                    _ => vec![],
                },
                vec!["yep"]
            );
        }
        Err(_) => panic!("no expression"),
    }
}

#[allow(unused_variables)]
#[test]
fn hb_full_feat_param() {
    match parse_hb_expression(r##"{{t "… param1" well.[that my baby].[1] ~}}"##) {
        Ok((_, HBExpression { ref base, ref params, ref options, ref render_options, ref block, ref else_block }, _)) => {
            assert_eq!(base, &vec!["t"]);
            assert_eq!(
                match params.get(0).unwrap() {
                    &HBValHolder::String(ref s) => s.clone(),
                    _ => "".to_string(),
                },
                "… param1".to_string()
            );
            assert_eq!(
                match params.get(1).unwrap() {
                    &HBValHolder::Path(ref p) => p.clone(),
                    _ => vec![],
                },
                vec!["well", "that my baby", "1"]
            );
            assert!(render_options.no_trailing_whitespace);
        }
        Err(_) => panic!("no expression"),
    }
}

#[allow(unused_variables)]
#[test]
fn hb_option() {
    match parse_hb_expression(r##"{{t opt=u ~}}"##) {
        Ok((_, HBExpression { ref base, ref params, ref options, ref render_options, ref block, ref else_block }, _)) => {
            assert_eq!(base, &vec!["t"]);
            assert_eq!(
                ("opt".to_string(), vec!["u".to_string()]),
                match options.get(0).unwrap() {
                    &(ref o, HBValHolder::Path(ref p)) => (o.clone(), p.clone()),
                    _ => ("".to_string(), vec![]),
                }
            );
            assert!(render_options.no_trailing_whitespace);
        }
        Err(_) => panic!("no expression"),
    }
}

#[allow(unused_variables)]
#[test]
fn hb_mutli_options() {
    match parse_hb_expression(r##"{{t opt=u opt2="v" ~}}"##) {
        Ok((_, HBExpression { ref base, ref params, ref options, ref render_options, ref block, ref else_block }, _)) => {
            assert_eq!(base, &vec!["t"]);
            assert_eq!(
                ("opt".to_string(), vec!["u".to_string()]),
                match options.get(0).unwrap() {
                    &(ref o, HBValHolder::Path(ref p)) => (o.clone(), p.clone()),
                    _ => ("".to_string(), vec![]),
                }
            );
            assert_eq!(
                ("opt2".to_string(), "v".to_string()),
                match options.get(1).unwrap() {
                    &(ref o, HBValHolder::String(ref s)) => (o.clone(), s.clone()),
                    _ => ("".to_string(), "".to_string()),
                }
            );
            assert!(render_options.no_trailing_whitespace);
        }
        Err(_) => panic!("no expression"),
    }
}

#[allow(unused_variables)]
#[test]
fn hb_param_options() {
    match parse_hb_expression(r##"{{t o.[t}+=] opt="v" ~}}"##) {
        Ok((_, HBExpression { ref base, ref params, ref options, ref render_options, ref block, ref else_block }, _)) => {
            assert_eq!(base, &vec!["t"]);
            assert_eq!(
                vec!["o", "t}+="],
                match params.get(0).unwrap() {
                    &HBValHolder::Path(ref p) => p.clone(),
                    _ => vec![],
                }
            );
            assert_eq!(
                ("opt".to_string(), "v".to_string()),
                match options.get(0).unwrap() {
                    &(ref o, HBValHolder::String(ref s)) => (o.clone(), s.clone()),
                    _ => ("".to_string(), "".to_string()),
                }
            );
            assert!(render_options.no_trailing_whitespace);
        }
        Err(_) => panic!("no expression"),
    }
}

#[test]
fn from_str() {
    let template = "t {{u}} v".parse::<Template>();
    assert!(template.is_ok())
}

#[test]
fn parse_raw() {
    let p = parse("tada").unwrap_or(Default::default());
    assert_eq!(
        "tada",
        match p.entries.get(0) {
            Some(&ref boxed_entry) => match **boxed_entry {
                HBEntry::Raw(ref s) => &s[..],
                _ => "",
            },
            _ => "",
        }
    );
}

#[test]
fn parse_exp() {
    let p = parse("{{tada}}").unwrap_or(Default::default());
    assert_eq!(
        "tada",
        match p.entries.get(0) {
            Some(&ref boxed_entry) => match **boxed_entry {
                HBEntry::Eval(HBExpression { ref base, .. }) => &base.iter().next().unwrap()[..],
                _ => "",
            },
            _ => "",
        }
    );
}

#[allow(unused_variables)]
#[test]
fn parse_else_block() {
    let p = parse("{{#tada}}i{{else}}o{{/tada}}").unwrap_or(Default::default());
    assert_eq!(
        true,
        match p.entries.get(0) {
            Some(&ref boxed_entry) => match **boxed_entry {
                HBEntry::Eval(HBExpression { ref base, ref params, ref options, ref render_options, ref block, ref else_block }) =>
                    match (block, else_block) {
                        (&Some(_), &Some(_)) => true,
                        _ => false,
                    },
                _ => false,
            },
            _ => false,
        }
    );
}

#[test]
fn parse_exp_entangled() {
    let p = parse("tidi {{tada}} todo {{tudu}} bar").unwrap_or(Default::default());
    assert_eq!(
        "tidi ",
        match p.entries.get(0) {
            Some(&ref boxed_entry) => match **boxed_entry {
                HBEntry::Raw(ref s) => &s[..],
                _ => "",
            },
            _ => "",
        }
    );
    assert_eq!(
        "tada",
        match p.entries.get(1) {
            Some(&ref boxed_entry) => match **boxed_entry {
                HBEntry::Eval(HBExpression { ref base, .. }) => &base.iter().next().unwrap()[..],
                _ => "",
            },
            _ => "",
        }
    );
    assert_eq!(
        " todo ",
        match p.entries.get(2) {
            Some(&ref boxed_entry) => match **boxed_entry {
                HBEntry::Raw(ref s) => &s[..],
                _ => "",
            },
            _ => "",
        }
    );
    assert_eq!(
        "tudu",
        match p.entries.get(3) {
            Some(&ref boxed_entry) => match **boxed_entry {
                HBEntry::Eval(HBExpression { ref base, .. }) => &base.iter().next().unwrap()[..],
                _ => "",
            },
            _ => "",
        }
    );
    assert_eq!(
        " bar",
        match p.entries.get(4) {
            Some(&ref boxed_entry) => match **boxed_entry {
                HBEntry::Raw(ref s) => &s[..],
                _ => "",
            },
            _ => "",
        }
    );
}
