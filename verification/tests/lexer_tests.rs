use rumblebars::expr_lexer::lex_expression;
use rumblebars::lexer::lex_template;
use rumblebars::{HBToken, Token};

fn tokens(source: &str) -> Result<Vec<String>, usize> {
    let chars: Vec<char> = source.chars().collect();
    lex_template(&chars).map(|ts| {
        ts.into_iter()
            .map(|t| match t {
                Token::TokRaw(s) => format!("raw:{}", s),
                Token::TokSimpleExp(s) => format!("simple:{}", s),
                Token::TokNoEscapeExp(s) => format!("noescape:{}", s),
                Token::TokCommentExp(s) => format!("comment:{}", s),
                Token::TokPartialExp(s) => format!("partial:{}", s),
                Token::TokBlockExp(s, false) => format!("block:{}", s),
                Token::TokBlockExp(s, true) => format!("inverse:{}", s),
                Token::TokBlockElseCond(s) => format!("else:{}", s),
                Token::TokBlockEndExp(s) => format!("end:{}", s),
            })
            .collect()
    })
}

fn inner(source: &str) -> Result<Vec<String>, usize> {
    let chars: Vec<char> = source.chars().collect();
    lex_expression(&chars).map(|ts| {
        ts.into_iter()
            .map(|t| match t {
                HBToken::TokPathEntry(s) => format!("path:{}", s),
                HBToken::TokNoWhiteSpaceBefore => "~before".to_string(),
                HBToken::TokNoWhiteSpaceAfter => "~after".to_string(),
                HBToken::TokStringParam(s) => format!("string:{}", s),
                HBToken::TokParamStart => "start".to_string(),
                HBToken::TokParamSep => "sep".to_string(),
                HBToken::TokOption(s) => format!("option:{}", s),
                HBToken::TokLeadingWhiteSpace(s) => format!("lead:{}", s),
                HBToken::TokTrailingWhiteSpace(s) => format!("trail:{}", s),
            })
            .collect()
    })
}

fn strs(v: &[&str]) -> Result<Vec<String>, usize> {
    Ok(v.iter().map(|s| s.to_string()).collect())
}

#[test]
fn raw_text_stops_at_whitespace() {
    assert_eq!(tokens("tada"), strs(&["raw:tada"]));
    assert_eq!(tokens("foo bar"), strs(&["raw:foo", "raw: bar"]));
    assert_eq!(tokens(""), strs(&[]));
    assert_eq!(tokens("a{b}c"), strs(&["raw:a{b}c"]));
}

#[test]
fn expressions_carry_their_whitespace() {
    assert_eq!(
        tokens("tidi {{tada}} todo"),
        strs(&["raw:tidi", "simple: {{tada}} ", "raw:todo"])
    );
    assert_eq!(tokens("a\n  {{#b}}\t\r\nc"), strs(&["raw:a", "block:\n  {{#b}}\t\r\n", "raw:c"]));
}

#[test]
fn flavours_are_told_apart() {
    assert_eq!(tokens("{{a}}"), strs(&["simple:{{a}}"]));
    assert_eq!(tokens("{{{a}}}"), strs(&["noescape:{{{a}}}"]));
    assert_eq!(tokens("{{&a}}"), strs(&["noescape:{{&a}}"]));
    assert_eq!(tokens("{{!a}}"), strs(&["comment:{{!a}}"]));
    assert_eq!(tokens("{{>a}}"), strs(&["partial:{{>a}}"]));
    assert_eq!(tokens("{{#a}}"), strs(&["block:{{#a}}"]));
    assert_eq!(tokens("{{^a}}"), strs(&["inverse:{{^a}}"]));
    assert_eq!(tokens("{{/a}}"), strs(&["end:{{/a}}"]));
    assert_eq!(tokens("{{else}}"), strs(&["else:{{else}}"]));
    assert_eq!(tokens("{{ else }}"), strs(&["else:{{ else }}"]));
    assert_eq!(tokens("{{^}}"), strs(&["else:{{^}}"]));
    assert_eq!(tokens("{{elsewhere}}"), strs(&["simple:{{elsewhere}}"]));
}

#[test]
fn tilde_is_a_sigil_behind_the_braces() {
    assert_eq!(tokens("{{~a~}}"), strs(&["simple:{{~a~}}"]));
    assert_eq!(tokens("{{~#a}}"), strs(&["block:{{~#a}}"]));
    assert_eq!(tokens("{{~!a}}"), strs(&["comment:{{~!a}}"]));
    assert_eq!(tokens("{{~^~}}"), strs(&["else:{{~^~}}"]));
    assert_eq!(tokens("{{~ else ~}}"), strs(&["else:{{~ else ~}}"]));
    assert_eq!(tokens("{{~}}"), strs(&["simple:{{~}}"]));
}

#[test]
fn triple_braces_need_three_to_close() {
    assert_eq!(tokens("{{{a}}"), strs(&["simple:{{{a}}"]));
    assert_eq!(tokens("{{a}}}"), strs(&["simple:{{a}}", "raw:}"]));
    assert_eq!(tokens("{{a}b}}"), strs(&["simple:{{a}b}}"]));
}

#[test]
fn backslash_escapes() {
    assert_eq!(tokens("\\{{a}}"), strs(&["raw:{", "raw:{a}}"]));
    assert_eq!(tokens("\\\\{{a}}"), strs(&["raw:\\", "simple:{{a}}"]));
    assert_eq!(tokens("a\\b"), strs(&["raw:a", "raw:\\b"]));
    assert_eq!(tokens("\\\\b"), strs(&["raw:\\\\b"]));
    assert_eq!(tokens("\\"), strs(&["raw:\\"]));
    assert_eq!(tokens("\\\n"), strs(&["raw:\\", "raw:\n"]));
}

#[test]
fn lone_brace_is_raw_text() {
    assert_eq!(tokens("a { b"), strs(&["raw:a", "raw: ", "raw:{", "raw: b"]));
    assert_eq!(tokens("{"), strs(&["raw:{"]));
}

#[test]
fn unclosed_expression_is_refused() {
    assert_eq!(tokens("ab {{cd"), Err(3));
    assert_eq!(tokens("{{}}"), Err(0));
    assert_eq!(tokens("{{a}} {{"), Err(6));
}

#[test]
fn expression_paths() {
    assert_eq!(inner("{{a.b/c}}"), strs(&["path:a", "path:b", "path:c"]));
    assert_eq!(inner("{{this}}"), strs(&["path:."]));
    assert_eq!(inner("{{thisx}}"), strs(&["path:thisx"]));
    assert_eq!(inner("{{../a}}"), strs(&["path:..", "path:a"]));
    assert_eq!(inner("{{@index}}"), strs(&["path:@index"]));
    assert_eq!(inner("{{a.[b c].[]}}"), strs(&["path:a", "path:b c"]));
    assert_eq!(inner("{{\"s\"}}"), strs(&["string:s"]));
}

#[test]
fn expression_whitespace_and_sigils() {
    assert_eq!(
        inner(" \r\n\t{{~a~}}\n "),
        strs(&["lead: \r\n\t", "~before", "path:a", "~after", "trail:\n "])
    );
    assert_eq!(inner("{{{~a}}}"), strs(&["~before", "path:a"]));
    assert_eq!(inner("{{~#a}}"), strs(&["~before", "path:a"]));
    assert_eq!(inner("{{#  a  }}"), strs(&["path:a", "start"]));
    assert_eq!(inner("{{> p }}"), strs(&["path:p", "start"]));
}

#[test]
fn expression_parameters_and_options() {
    assert_eq!(
        inner("{{t a \"b c\" d.e x=y z=\"w\" ~}}"),
        strs(&[
            "path:t", "start", "path:a", "sep", "string:b c", "sep", "path:d", "path:e", "sep",
            "option:x", "path:y", "sep", "option:z", "string:w", "~after"
        ])
    );
    assert_eq!(inner("{{t \"a\\\"b\"}}"), strs(&["path:t", "start", "string:a\\\"b"]));
    assert_eq!(inner("{{t \"\"}}"), strs(&["path:t", "start"]));
    assert_eq!(inner("{{t this=1}}"), strs(&["path:t", "start", "option:this", "path:1"]));
}

#[test]
fn comments_are_skipped() {
    assert_eq!(inner("{{! any } text ~}} "), strs(&["~after", "trail: "]));
    assert_eq!(inner("{{~!x}}"), strs(&["~before"]));
    assert_eq!(inner("{{!}}"), strs(&[]));
}

#[test]
fn expression_that_fits_no_rule_is_refused() {
    assert_eq!(inner("{{a b=}}"), Err(6));
    assert_eq!(inner("{{a~b}}"), Err(4));
    assert_eq!(inner("{{a}}\r"), Err(5));
    assert_eq!(inner("{{a|b}}"), Err(3));
    assert_eq!(inner("{x"), Err(0));
    assert_eq!(inner("x"), Err(0));
}

#[test]
fn tokens_carry_the_whole_source() {
    for source in [
        "tidi {{tada}} todo {{tudu}} bar",
        "a\n  {{#b}}  \n c { d {{else}} {{{e}}} {{/b}}\n\n{{! f }}\n{{> g }} }",
        "  \n\t ",
        "{{a}}{{b}}}{{c}}",
    ] {
        let chars: Vec<char> = source.chars().collect();
        let joined: String = lex_template(&chars)
            .ok()
            .unwrap()
            .into_iter()
            .map(|t| match t {
                Token::TokRaw(s)
                | Token::TokSimpleExp(s)
                | Token::TokNoEscapeExp(s)
                | Token::TokCommentExp(s)
                | Token::TokPartialExp(s)
                | Token::TokBlockExp(s, _)
                | Token::TokBlockElseCond(s)
                | Token::TokBlockEndExp(s) => s,
            })
            .collect();
        assert_eq!(joined, source);
    }
}

#[test]
fn lone_carriage_return_stays_raw_text() {
    assert_eq!(
        tokens("a \r {{b}} \r c"),
        strs(&["raw:a", "raw: \r ", "simple:{{b}} ", "raw:\r c"])
    );
    assert_eq!(tokens("\r{{b}}\r"), strs(&["raw:\r", "simple:{{b}}", "raw:\r"]));
    assert_eq!(tokens("\r\n{{#b}}\r\n\r"), strs(&["block:\r\n{{#b}}\r\n", "raw:\r"]));
    assert_eq!(tokens(" \r\n\r {{b}}"), strs(&["raw: \r\n\r ", "simple:{{b}}"]));
}
