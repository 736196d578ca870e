use rumblebars::parse::{assemble, check_end_trim_fits};
use rumblebars::{parse, parse_hb_expression, HBData, HBEntry, HBValHolder, ParseError, Template};

fn show(t: &Template) -> String {
    show_entries(&t.entries)
}

fn show_entries(entries: &Vec<Box<HBEntry>>) -> String {
    let mut out = String::new();
    for e in entries.iter() {
        match **e {
            HBEntry::Raw(ref s) => out.push_str(&format!("[{}]", s.replace("\n", "\\n").replace("\r", "\\r"))),
            HBEntry::Eval(ref x) => {
                out.push_str(&format!("<{}", x.path()));
                if let Some(ref b) = x.block {
                    out.push_str(&format!(" {{{}}}", show_entries(b)));
                }
                if let Some(ref b) = x.else_block {
                    out.push_str(&format!(" else {{{}}}", show_entries(b)));
                }
                out.push('>');
            }
            HBEntry::Partial(ref x) => {
                out.push_str(&format!("<>{}", x.path()));
                if let Some(ref s) = x.render_options.indent {
                    out.push_str(&format!(" indent={:?}", s));
                }
                out.push('>');
            }
        }
    }
    out
}

fn tree(source: &str) -> String {
    show(&parse(source).ok().unwrap())
}

fn failure(source: &str) -> (ParseError, Option<String>) {
    match parse(source) {
        Ok(_) => panic!("parsed"),
        Err(f) => f,
    }
}

fn coalesced(entries: &Vec<Box<HBEntry>>) -> bool {
    let mut last_raw = false;
    for e in entries.iter() {
        match **e {
            HBEntry::Raw(_) => {
                if last_raw {
                    return false;
                }
                last_raw = true;
            }
            HBEntry::Eval(ref x) | HBEntry::Partial(ref x) => {
                last_raw = false;
                for b in [&x.block, &x.else_block] {
                    if let Some(ref es) = b {
                        if !coalesced(es) {
                            return false;
                        }
                    }
                }
            }
        }
    }
    true
}

#[test]
fn raw_text_is_joined() {
    assert_eq!(tree("foo bar \\{ a { b"), "[foo bar { a { b]");
    assert_eq!(tree("a {{b}} c"), "[a ]<b>[ c]");
    for source in ["a b c", "a {{!x}} b {{! y }} c", "{{#a}} x {{#b}}y z{{/b}} {{else}} w {{/a}} end", "a\n{{!c}}\n\n{{!d}}\nb"] {
        assert!(coalesced(&parse(source).ok().unwrap().entries));
    }
}

#[test]
fn blocks_nest() {
    assert_eq!(tree("{{#a}}x{{#b}}y{{/b}}{{else}}z{{/a}}"), "<a {[x]<b {[y]}>} else {[z]}>");
    assert_eq!(tree("{{#a}}{{/a}}"), "<a {}>");
    assert_eq!(tree("{{^a}}x{{/a}}"), "<a {[x]}>");
    assert_eq!(tree("{{#a.b}}x{{/a.b}}"), "<a.b {[x]}>");
    assert_eq!(tree("{{#a}}x"), "<a>");
}

#[test]
fn closing_tag_must_match() {
    assert_eq!(
        failure("{{#hello}}{{/end}}"),
        (ParseError::UnmatchedBlock, Some("‘end’ does not match ‘hello’".to_string()))
    );
    assert_eq!(
        failure("{{#a.b}}x{{/a}}"),
        (ParseError::UnmatchedBlock, Some("‘a’ does not match ‘a.b’".to_string()))
    );
    assert!(parse("{{#hello}}{{/hello}}").is_ok());
}

#[test]
fn closing_tag_needs_an_open_block() {
    assert_eq!(
        failure("{{/a}}"),
        (ParseError::UnexpectedBlockClose, Some("‘a’ does not close any block".to_string()))
    );
    assert_eq!(failure("{{else}}{{/a}}").0, ParseError::UnexpectedBlockClose);
    assert_eq!(failure("x{{#a}}{{/a}}{{/a}}").0, ParseError::UnexpectedBlockClose);
    assert_eq!(failure("{{#a}}{{/a}} x {{#b}}{{else}}{{/b}}{{/c}}").0, ParseError::UnexpectedBlockClose);
}

#[test]
fn text_that_is_no_expression_is_invalid() {
    assert_eq!(failure("ab {{cd"), (ParseError::InvalidExpression, Some("{{cd".to_string())));
    assert_eq!(failure("a {{b|c}} d"), (ParseError::InvalidExpression, Some(" {{b|c}} ".to_string())));
    assert_eq!(failure("{{a b=}}").0, ParseError::InvalidExpression);
    match parse_hb_expression("{{a~b}}") {
        Err(f) => assert_eq!(f, (ParseError::InvalidExpression, Some("{{a~b}}".to_string()))),
        Ok(_) => panic!("parsed"),
    }
}

#[test]
fn plain_expressions_keep_their_whitespace() {
    assert_eq!(tree("a\n  {{b}}  \nc"), "[a\\n  ]<b>[  \\nc]");
    assert_eq!(tree("a {{~b}} c"), "[a]<b>[ c]");
    assert_eq!(tree("a {{b~}} c"), "[a ]<b>[c]");
    assert_eq!(tree("a {{~b~}} {{c}}"), "[a]<b><c>");
    assert_eq!(tree("a {{b}} {{~c}}"), "[a ]<b><c>");
}

#[test]
fn standalone_lines_are_removed() {
    assert_eq!(tree("a\n{{#b}}\nc\n{{/b}}\nd"), "[a\\n]<b {[c\\n]}>[d]");
    assert_eq!(tree("a\n  {{#b}}  \nc\n\t{{else}}\t\ne\n {{/b}} \nd"), "[a\\n]<b {[c\\n]} else {[e\\n]}>[d]");
    assert_eq!(tree("a\n  {{! note }}  \nb"), "[a\\nb]");
    assert_eq!(tree("a\r\n{{! note }}\r\nb"), "[a\\r\\nb]");
    assert_eq!(tree("{{! first }}\nb"), "[b]");
    assert_eq!(tree("  {{! first }}\nb"), "[b]");
    assert_eq!(tree("{{#a}}\nyes\n{{/a}}\n"), "<a {[yes\\n]}>");
    assert_eq!(tree("a\n{{! last }}"), "[a\\n]");
    assert_eq!(tree("a\n  {{! last }}  \n"), "[a\\n]");
}

#[test]
fn lines_with_more_than_an_expression_stay() {
    assert_eq!(tree("a {{#b}} c {{/b}} d"), "[a ]<b {[ c ]}>[ d]");
    assert_eq!(tree("a\nx {{! note }}\nb"), "[a\\nx \\nb]");
    assert_eq!(tree("a\n{{! note }} x\nb"), "[a\\n x\\nb]");
    assert_eq!(tree("a {{~#b}} c {{~/b~}} d"), "[a]<b {[ c]}>[d]");
}

#[test]
fn standalone_partial_keeps_its_indentation() {
    assert_eq!(tree("a\n  {{> p}}\nb"), "[a\\n  ]<>p indent=\"  \">[b]");
    assert_eq!(tree("  {{> p}}"), "[  ]<>p indent=\"  \">");
    assert_eq!(tree("a\n  {{> p}}"), "[a\\n  ]<>p indent=\"  \">");
    assert_eq!(tree("a {{> p}} b"), "[a ]<>p indent=\" \">[ b]");
    assert_eq!(tree("{{> p}}"), "<>p>");
}

#[test]
fn literal_parameters_are_told_from_paths() {
    let params = |source: &str| -> Vec<String> {
        match parse_hb_expression(source) {
            Ok((_, x, _)) => x
                .params
                .iter()
                .map(|p| match p {
                    HBValHolder::String(s) => format!("string {}", s),
                    HBValHolder::Path(p) => format!("path {}", p.join(".")),
                    HBValHolder::Literal(HBData::Null, s) => format!("null {}", s),
                    HBValHolder::Literal(HBData::Boolean(b), s) => format!("bool {} {}", b, s),
                    HBValHolder::Literal(HBData::I64(n), s) => format!("i64 {} {}", n, s),
                    HBValHolder::Literal(HBData::U64(n), s) => format!("u64 {} {}", n, s),
                    HBValHolder::Literal(HBData::F64(_, t), s) => format!("real {} {}", t, s),
                    HBValHolder::Literal(_, s) => format!("other {}", s),
                })
                .collect(),
            Err(_) => panic!("no expression"),
        }
    };
    assert_eq!(params("{{t true}}"), vec!["bool true true"]);
    assert_eq!(params("{{t null}}"), vec!["null null"]);
    assert_eq!(params("{{t 12}}"), vec!["u64 12 12"]);
    assert_eq!(params("{{t -12}}"), vec!["i64 -12 -12"]);
    assert_eq!(params("{{t 1e2}}"), vec!["path 1e2"]);
    assert_eq!(params("{{t -2E-3}}"), vec!["path -2E-3"]);
    assert_eq!(params("{{t else}}"), vec!["path else"]);
    assert_eq!(params("{{t nil}}"), vec!["path nil"]);
    assert_eq!(params("{{t 1.5}}"), vec!["path 1.5"]);
    assert_eq!(params("{{t 1 2}}"), vec!["u64 1 1", "u64 2 2"]);
    assert_eq!(params("{{t true a.b \"s\" null x=1}}"), vec!["bool true true", "path a.b", "string s", "null null"]);
    assert_eq!(params("{{t \"1\"}}"), vec!["string 1"]);
}

#[test]
fn expression_parts() {
    match parse_hb_expression(" \n\t {{~t a x=b.c y=\"s\"}}\n") {
        Ok((lead, x, trail)) => {
            assert_eq!(lead, Some(" \n\t ".to_string()));
            assert_eq!(trail, Some("\n".to_string()));
            assert_eq!(x.path(), "t");
            assert_eq!(x.render_options.indent, None);
            assert!(x.render_options.escape);
            assert!(!x.render_options.inverse);
            assert!(x.render_options.no_leading_whitespace);
            assert!(!x.render_options.no_trailing_whitespace);
            assert_eq!(x.options.len(), 2);
            assert_eq!(x.options[0].0, "x");
            assert!(matches!(x.options[0].1, HBValHolder::Path(ref p) if p.join("/") == "b/c"));
            assert_eq!(x.options[1].0, "y");
            assert!(matches!(x.options[1].1, HBValHolder::String(ref s) if s == "s"));
            assert!(x.block.is_none() && x.else_block.is_none());
        }
        Err(_) => panic!("no expression"),
    }
    match parse_hb_expression("{{a.b.c}}") {
        Ok((lead, x, trail)) => {
            assert_eq!((lead, trail), (None, None));
            assert_eq!(x.path(), "a.b.c");
            assert_eq!(x.render_options.indent, None);
        }
        Err(_) => panic!("no expression"),
    }
    match parse_hb_expression("{{!c}}") {
        Ok((_, x, _)) => assert_eq!(x.path(), ""),
        Err(_) => panic!("no expression"),
    }
}

#[test]
fn flags_follow_the_flavour() {
    let t = parse("{{a}}{{{b}}}{{&c}}{{^d}}{{/d}}{{#e}}{{/e}}").ok().unwrap();
    let flags: Vec<(bool, bool)> = t
        .entries
        .iter()
        .map(|e| match **e {
            HBEntry::Eval(ref x) => (x.render_options.escape, x.render_options.inverse),
            _ => panic!("no expression"),
        })
        .collect();
    assert_eq!(flags, vec![(true, false), (false, false), (false, false), (true, true), (true, false)]);
}

#[test]
fn end_of_the_template_is_trimmed() {
    assert_eq!(tree("a\n  {{! last }}"), "[a\\n]");
    assert_eq!(tree("a\n  {{#b}}x{{/b}}  "), "[a\\n  ]<b {[x]}>[  ]");
    assert_eq!(tree("a\n  {{#b}}x\n {{/b}}  "), "[a\\n  ]<b {[x\\n]}>");
    assert_eq!(tree("a\n  {{> p}}  "), "[a\\n  ]<>p indent=\"  \">");
    assert_eq!(tree("a\n  {{> p}}  \n"), "[a\\n  ]<>p indent=\"  \">");
    assert_eq!(tree("a  {{> p}}  "), "[a  ]<>p indent=\"  \">[  ]");
}

#[test]
fn entries_need_a_valid_base() {
    assert_eq!(failure("a {{~}} b"), (ParseError::InvalidExpression, Some(" {{~}} ".to_string())));
    assert_eq!(failure("{{#}}x{{/}}").0, ParseError::InvalidExpression);
    assert_eq!(failure("{{a/../b}}").0, ParseError::InvalidExpression);
    assert_eq!(failure("{{a.@b}}").0, ParseError::InvalidExpression);
    assert_eq!(failure("{{> [] }}").0, ParseError::InvalidExpression);
    assert_eq!(failure("{{./..}}").0, ParseError::InvalidExpression);
    assert_eq!(tree("{{../../a}}{{@a.b}}{{.}}{{./a}}{{..}}"), "<......a><@a.b><.><..a><..>");
    assert_eq!(tree("{{!}}{{#a}}{{^}}{{/a}}"), "<a {} else {}>");
}

#[test]
fn any_source_is_compiled_or_refused() {
    let alphabet: Vec<char> = "{}{}{}#/^>!&~. \n\r\t\\\"[]=@ae1-".chars().collect();
    let mut seed: u64 = 0x2545F4914F6CDD1D;
    let mut compiled = 0;
    let mut refused = 0;
    for round in 0..3000 {
        let mut source = String::new();
        let len = 1 + (round % 24);
        for _ in 0..len {
            seed = seed.wrapping_mul(6364136223846793005).wrapping_add(1442695040888963407);
            source.push(alphabet[((seed >> 33) as usize) % alphabet.len()]);
        }
        match parse(&source) {
            Ok(t) => {
                compiled += 1;
                assert!(coalesced(&t.entries));
                assert!(t.eval_to_string(&HBData::Null).is_some());
            }
            Err((kind, _)) => {
                refused += 1;
                assert!(kind != ParseError::UnkownError);
            }
        }
    }
    assert!(compiled > 0 && refused > 0);
}

#[test]
fn lone_carriage_return_is_kept() {
    assert_eq!(tree("a\r{{b}}\rc"), "[a\\r]<b>[\\rc]");
    assert_eq!(tree("a \r {{! c }} \r b"), "[a \\r  \\r b]");
    assert_eq!(tree("{{#a}}\r{{/a}}\r"), "<a {[\\r]}>[\\r]");
}

#[test]
fn expressions_need_a_base() {
    let kind = |source: &str| -> Option<ParseError> {
        match parse_hb_expression(source) {
            Ok((_, x, _)) => {
                assert!(x.base.len() >= 1 || x.path() == "");
                None
            }
            Err((kind, text)) => {
                assert_eq!(text, Some(source.to_string()));
                Some(kind)
            }
        }
    };
    for source in ["{{#}}", "{{ }}", "{{}}", "{{~}}", " {{/}} ", "{{>}}", "{{{}}}", "{{&}}", "{{^ a}}x", "{{"] {
        let expected = if source == "{{^ a}}x" { None } else { Some(ParseError::InvalidExpression) };
        if source == "{{^ a}}x" {
            assert_eq!(parse_hb_expression("{{^ a}}").map(|p| p.1.path()).ok(), Some("a".to_string()));
        } else {
            assert_eq!(kind(source), expected, "{}", source);
        }
    }
    for source in ["{{!}}", "{{! note }}", "{{~! note ~}}", "{{^}}", "{{^ ~}}", " {{~^}}\n"] {
        match parse_hb_expression(source) {
            Ok((_, x, _)) => assert!(x.base.is_empty(), "{}", source),
            Err(_) => panic!("refused {}", source),
        }
    }
    assert_eq!(parse_hb_expression("{{else}}").map(|p| p.1.path()).ok(), Some("else".to_string()));
}

#[test]
fn blocks_carry_the_base_of_a_closing_tag() {
    fn blocked(entries: &Vec<Box<HBEntry>>, found: &mut Vec<String>) {
        for e in entries.iter() {
            if let HBEntry::Eval(ref x) = **e {
                if x.block.is_some() {
                    found.push(x.path());
                }
                for b in [&x.block, &x.else_block] {
                    if let Some(ref es) = b {
                        blocked(es, found);
                    }
                }
            }
        }
    }
    let source = "{{#a}}{{#b.c}}x{{/b.c}}{{d}}{{else}}{{^e}}{{/e}}{{/a}}{{#f}}";
    let mut found = Vec::new();
    blocked(&parse(source).ok().unwrap().entries, &mut found);
    assert_eq!(found, vec!["a", "b.c", "e"]);
}

#[test]
fn expressions_need_a_valid_base() {
    for source in ["{{a/../b}}", "{{a.@b}}", "{{/a/..}}", "{{> p.@q }}", "{{#./..}}"] {
        match parse_hb_expression(source) {
            Ok(_) => panic!("parsed {}", source),
            Err(f) => assert_eq!(f, (ParseError::InvalidExpression, Some(source.to_string()))),
        }
    }
    for (source, path) in [("{{../../a}}", "......a"), ("{{@root.a}}", "@root.a"), ("{{./a}}", "..a"), ("{{/a.b}}", "a.b")] {
        assert_eq!(parse_hb_expression(source).map(|p| p.1.path()).ok(), Some(path.to_string()));
    }
}

#[test]
fn lines_behind_a_standalone_tag_are_kept() {
    assert_eq!(tree("a\n{{!c}}\n\nb"), "[a\\n\\nb]");
    assert_eq!(tree("a\n  {{! c }}  \n\n  \n b"), "[a\\n\\n  \\n b]");
    assert_eq!(tree("a\n{{#x}}\n\nb\n{{/x}}\n\nc"), "[a\\n]<x {[\\nb\\n]}>[\\nc]");
    assert_eq!(tree("{{#x}}\n\n{{else}}\n\t\n{{/x}}\n\n"), "<x {[\\n]} else {[\t\\n]}>[\\n]");
    assert_eq!(tree("a\n{{> p}}\n\n\nb"), "[a\\n]<>p indent=\"\">[\\n\\nb]");
    assert_eq!(tree("a\n{{!c}}\n{{!d}}\n\n{{!e}}\nb"), "[a\\n\\nb]");
    assert_eq!(tree("a\n{{!c}}\n:\nb"), "[a\\n:\\nb]");
    assert_eq!(tree("a\n{{!c}}:\n"), "[a\\n:\\n]");
}

#[test]
fn indentation_is_the_blanks_before_a_partial() {
    let indent = |source: &str| -> Option<String> {
        match parse_hb_expression(source) {
            Ok((_, x, _)) => x.render_options.indent,
            Err(_) => panic!("no expression"),
        }
    };
    assert_eq!(indent(" \n\t {{> p}}"), Some("\t ".to_string()));
    assert_eq!(indent("  {{~> p}}\n"), Some("  ".to_string()));
    assert_eq!(indent("\n{{> p}}"), Some("".to_string()));
    assert_eq!(indent("{{> p}}"), None);
    assert_eq!(indent("  {{p}}"), None);
    assert_eq!(indent("  {{#p}}"), None);
    assert!(rumblebars::expr_parser::check_indent_fits(" \n\t ", "\t "));
    assert!(!rumblebars::expr_parser::check_indent_fits(" \n\t ", " "));
    assert!(!rumblebars::expr_parser::check_indent_fits(" \n\t ", "\n\t "));
    assert!(rumblebars::expr_parser::check_indent_fits("", ""));
}

#[test]
fn trimmed_end_is_held_to_the_source() {
    assert!(check_end_trim_fits("a\n  {{! c }}  \n", "a\n{{! c }}"));
    assert!(check_end_trim_fits("a\n  {{> p}}  \n", "a\n  {{> p}}"));
    assert!(check_end_trim_fits("abc", "abc"));
    assert!(!check_end_trim_fits("a\n  {{! c }}:\n", "a\n{{! c }}"));
    assert!(!check_end_trim_fits("a b {{! c }}", "ab{{! c }}x"));
    assert!(!check_end_trim_fits("a\n{{! c }}", "a\n  {{! c }}"));
    assert_eq!(show(&assemble("a\n  {{! last }}").ok().unwrap()), "[a\\n  ]");
    assert_eq!(show(&assemble("{{#x}}y{{/x}}").ok().unwrap()), "<x {[y]}>");
    assert_eq!(assemble("{{#x}}y{{/z}}").err().map(|f| f.0), Some(ParseError::UnmatchedBlock));
}
