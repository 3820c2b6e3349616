use proxy_rule::{
    parse_proxy_rule, parse_rule, parse_rule_value, parse_template_string, parse_uri, CustomError, ParseFailure,
    OpValue, Rule, TemplatePart, TemplateString, Uri,
};

fn uri(scheme: &str, host: &str, path: &str, query: &str) -> Uri {
    Uri {
        scheme: scheme.into(),
        host: host.into(),
        path: path.into(),
        query: query.into(),
    }
}

fn raw(s: &str) -> TemplatePart {
    TemplatePart::RawString(s.into())
}

#[test]
fn uri_with_all_parts() {
    assert_eq!(parse_uri("http://example.com/path?q=1"), uri("http", "example.com", "/path", "?q=1"));
}

#[test]
fn uri_with_path_only() {
    assert_eq!(parse_uri("/just/a/path"), uri("", "", "/just/a/path", ""));
}

#[test]
fn uri_empty_and_host_only() {
    assert_eq!(parse_uri(""), uri("", "", "", ""));
    assert_eq!(parse_uri("a.com"), uri("", "a.com", "", ""));
    assert_eq!(parse_uri("a.com?x"), uri("", "a.com?x", "", ""));
}

#[test]
fn uri_scheme_must_be_followed_by_separator() {
    assert_eq!(parse_uri("http:/x"), uri("", "http:", "/x", ""));
    assert_eq!(parse_uri("h-t://x"), uri("", "h-t:", "//x", ""));
}

#[test]
fn uri_query_stops_at_white_space() {
    assert_eq!(parse_uri("/p?a=1 rest"), uri("", "", "/p", "?a=1"));
}

#[test]
fn proxy_rule_with_rules() {
    let p = parse_proxy_rule("http://a.com http://b.com header://{X-Foo} timeout://(30)").unwrap();
    assert_eq!(p.source, uri("http", "a.com", "", ""));
    assert_eq!(p.target, uri("http", "b.com", "", ""));
    assert_eq!(
        p.rules,
        vec![
            Rule { name: "header".into(), value: OpValue::Value("X-Foo".into()) },
            Rule { name: "timeout".into(), value: OpValue::Inline("30".into()) },
        ]
    );
}

#[test]
fn proxy_rule_without_rules() {
    let p = parse_proxy_rule("a b").unwrap();
    assert_eq!(p.rules, vec![]);
    assert_eq!(p.source, uri("", "a", "", ""));
    assert_eq!(p.target, uri("", "b", "", ""));
    assert_eq!(parse_proxy_rule("  a \t b  \n").unwrap().rules, vec![]);
}

#[test]
fn proxy_rule_keeps_duplicates_in_order() {
    let p = parse_proxy_rule("a b x://1 x://2").unwrap();
    assert_eq!(
        p.rules,
        vec![
            Rule { name: "x".into(), value: OpValue::Raw("1".into()) },
            Rule { name: "x".into(), value: OpValue::Raw("2".into()) },
        ]
    );
}

#[test]
fn proxy_rule_needs_two_uris() {
    assert_eq!(parse_proxy_rule("only").unwrap_err().kind, CustomError::MalformedUri);
    assert_eq!(parse_proxy_rule("   ").unwrap_err().kind, CustomError::MalformedUri);
}

#[test]
fn proxy_rule_fails_on_a_bad_rule() {
    assert_eq!(parse_proxy_rule("a b ok://1 nosep").unwrap_err().kind, CustomError::MalformedRuleToken);
    assert_eq!(parse_proxy_rule("a b header://{X-Foo").unwrap_err().kind, CustomError::MalformedValueDelimiter);
}

#[test]
fn rule_with_template() {
    assert_eq!(
        parse_rule("auth://`Bearer ${token}`"),
        Ok(Rule {
            name: "auth".into(),
            value: OpValue::TemplateString(TemplateString {
                parts: vec![raw("Bearer "), TemplatePart::Value("token".into())]
            }),
        })
    );
}

#[test]
fn rule_name_must_be_alphanumeric() {
    assert_eq!(parse_rule("://x").unwrap_err().kind, CustomError::MalformedRuleToken);
    assert_eq!(parse_rule("a-b://x").unwrap_err().kind, CustomError::MalformedRuleToken);
    assert_eq!(parse_rule("abc").unwrap_err().kind, CustomError::MalformedRuleToken);
    assert_eq!(
        parse_rule("héllo9://v"),
        Ok(Rule { name: "héllo9".into(), value: OpValue::Raw("v".into()) })
    );
}

#[test]
fn unclosed_brace_is_refused() {
    assert_eq!(parse_rule("header://{X-Foo").unwrap_err().kind, CustomError::MalformedValueDelimiter);
    assert_eq!(parse_rule_value("{X-Foo").unwrap_err().kind, CustomError::MalformedValueDelimiter);
    assert_eq!(parse_rule_value("(30").unwrap_err().kind, CustomError::MalformedValueDelimiter);
    assert_eq!(parse_rule_value("`abc").unwrap_err().kind, CustomError::MalformedValueDelimiter);
    assert_eq!(parse_rule_value("{a}b}").unwrap_err().kind, CustomError::MalformedValueDelimiter);
    assert_eq!(parse_rule_value("(a b)").unwrap_err().kind, CustomError::MalformedValueDelimiter);
}

#[test]
fn value_kinds() {
    assert_eq!(parse_rule_value("(30)"), Ok(OpValue::Inline("30".into())));
    assert_eq!(parse_rule_value("{X}"), Ok(OpValue::Value("X".into())));
    assert_eq!(parse_rule_value("{}"), Ok(OpValue::Value("".into())));
    assert_eq!(parse_rule_value("plain}"), Ok(OpValue::Raw("plain}".into())));
    assert_eq!(parse_rule_value(""), Ok(OpValue::Raw("".into())));
    assert_eq!(
        parse_rule_value("`a`"),
        Ok(OpValue::TemplateString(TemplateString { parts: vec![raw("a")] }))
    );
}

#[test]
fn value_parse_is_repeatable() {
    for t in ["(1)", "{k}", "`x${y}`", "raw", "{bad"] {
        assert_eq!(parse_rule_value(t), parse_rule_value(t));
    }
}

#[test]
fn template_pieces() {
    assert_eq!(
        parse_template_string("a${b}c${}"),
        Ok(TemplateString {
            parts: vec![raw("a"), TemplatePart::Value("b".into()), raw("c"), TemplatePart::Value("".into())]
        })
    );
    assert_eq!(
        parse_template_string("(x${y})"),
        Ok(TemplateString { parts: vec![raw("x"), TemplatePart::Value("y".into())] })
    );
    assert_eq!(parse_template_string(""), Ok(TemplateString { parts: vec![] }));
}

#[test]
fn template_escapes() {
    assert_eq!(
        parse_template_string("\\$\\{ab"),
        Ok(TemplateString { parts: vec![raw("$"), raw("{"), raw("ab")] })
    );
    assert_eq!(
        parse_template_string("\\\\x"),
        Ok(TemplateString { parts: vec![raw("\\\\x")] })
    );
}

#[test]
fn template_round_trip_without_interpolation() {
    let t = parse_template_string("(\\a\\bcd e)").unwrap();
    let joined: String = t
        .parts
        .iter()
        .map(|p| match p {
            TemplatePart::RawString(s) => s.clone(),
            TemplatePart::Value(_) => panic!("no interpolation expected"),
        })
        .collect();
    assert_eq!(joined, "abcd e");
}

#[test]
fn template_errors() {
    assert_eq!(parse_template_string("(abc").unwrap_err().kind, CustomError::UnbalancedTemplateParenthesis);
    assert_eq!(parse_template_string("(").unwrap_err().kind, CustomError::UnbalancedTemplateParenthesis);
    assert_eq!(parse_template_string("${x}\\").unwrap_err().kind, CustomError::UnterminatedTemplateEscape);
    assert_eq!(parse_template_string("a${x").unwrap_err().kind, CustomError::UnterminatedInterpolation);
    assert_eq!(parse_rule_value("`a${x`").unwrap_err().kind, CustomError::UnterminatedInterpolation);
}

#[test]
fn failure_names_the_token() {
    assert_eq!(
        parse_proxy_rule("a b ok://1 header://{X-Foo"),
        Err(ParseFailure { kind: CustomError::MalformedValueDelimiter, token: "{X-Foo".into() })
    );
    assert_eq!(
        parse_proxy_rule("a b nosep"),
        Err(ParseFailure { kind: CustomError::MalformedRuleToken, token: "nosep".into() })
    );
    assert_eq!(
        parse_proxy_rule("only"),
        Err(ParseFailure { kind: CustomError::MalformedUri, token: "only".into() })
    );
    assert_eq!(
        parse_rule_value("`(a`"),
        Err(ParseFailure { kind: CustomError::UnbalancedTemplateParenthesis, token: "(a".into() })
    );
}

#[test]
fn trailing_backslash_is_refused() {
    assert_eq!(
        parse_template_string("ab\\").unwrap_err().kind,
        CustomError::UnterminatedTemplateEscape
    );
    assert_eq!(
        parse_template_string("\\\\").unwrap_err().kind,
        CustomError::UnterminatedTemplateEscape
    );
    assert_eq!(
        parse_template_string("(x${y}a\\)").unwrap_err().kind,
        CustomError::UnterminatedTemplateEscape
    );
    assert_eq!(parse_rule_value("`a\\`").unwrap_err().kind, CustomError::UnterminatedTemplateEscape);
    assert_eq!(
        parse_rule("t://`a\\b\\`").unwrap_err().kind,
        CustomError::UnterminatedTemplateEscape
    );
    assert_eq!(
        parse_rule("t://`a\\\\`").unwrap_err().kind,
        CustomError::UnterminatedTemplateEscape
    );
}

#[test]
fn escaped_backtick_inside_template_value() {
    assert_eq!(
        parse_rule_value("`\\`x`"),
        Ok(OpValue::TemplateString(TemplateString { parts: vec![raw("`"), raw("x")] }))
    );
    assert_eq!(
        parse_rule_value("`a\\`b`"),
        Ok(OpValue::TemplateString(TemplateString { parts: vec![raw("a\\`b")] }))
    );
    assert_eq!(parse_rule_value("`a`b`").unwrap_err().kind, CustomError::MalformedValueDelimiter);
    assert_eq!(
        parse_rule_value("``"),
        Ok(OpValue::TemplateString(TemplateString { parts: vec![] }))
    );
}
