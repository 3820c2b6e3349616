use proxy_rule::markdown_values::{into_parts, parse_markdown, Markdown, MarkdownInline};
use proxy_rule::{CustomError, ParseFailure};

#[test]
fn test_markdown() {
    let input = r#"
# oijsdf
**bold text**
```rust
fn main() {
    println!("Hello, world!");
}
```
**bold**
```js
console.log(1234)
```
`inline code`
"#;
    assert_eq!(
        parse_markdown(input),
        Ok(vec![
            Markdown::Line(vec![]),
            Markdown::Line(vec![MarkdownInline::Plaintext("# oijsdf".into())]),
            Markdown::Line(vec![MarkdownInline::Plaintext("**bold text**".into())]),
            Markdown::Codeblock(
                "rust".into(),
                "fn main() {\n    println!(\"Hello, world!\");\n}\n".into()
            ),
            Markdown::Line(vec![]),
            Markdown::Line(vec![MarkdownInline::Plaintext("**bold**".into())]),
            Markdown::Codeblock("js".into(), "console.log(1234)\n".into()),
            Markdown::Line(vec![]),
            Markdown::Line(vec![MarkdownInline::Plaintext("`inline code`".into())])
        ])
    );

    assert_eq!(
        into_parts(parse_markdown(input).unwrap()),
        (
            "\n# oijsdf\n**bold text**\n\n**bold**\n\n`inline code`\n".into(),
            vec![
                ("rust".into(), "fn main() {\n    println!(\"Hello, world!\");\n}\n".into()),
                ("js".into(), "console.log(1234)\n".into())
            ]
        )
    );
}

#[test]
fn go_block_goes_to_code_pairs_only() {
    let input = "intro\n```go\nfmt.Println(1)\n```\n";
    let md = parse_markdown(input).unwrap();
    assert!(md.contains(&Markdown::Codeblock("go".into(), "fmt.Println(1)\n".into())));
    let (text, codes) = into_parts(md);
    assert_eq!(codes, vec![("go".to_string(), "fmt.Println(1)\n".to_string())]);
    assert!(!text.contains("fmt.Println"));
    assert_eq!(text, "intro\n\n");
}

#[test]
fn fence_without_language_is_unknown() {
    let md = parse_markdown("```\nbody\n```").unwrap();
    assert_eq!(md, vec![Markdown::Codeblock("__UNKNOWN__".into(), "body\n".into())]);
}

#[test]
fn body_may_hold_single_backticks() {
    let md = parse_markdown("```sh\necho `date`\n```").unwrap();
    assert_eq!(md, vec![Markdown::Codeblock("sh".into(), "echo `date`\n".into())]);
}

#[test]
fn unclosed_fence_is_refused() {
    assert_eq!(parse_markdown("```go\nfmt.Println(1)\n").unwrap_err().kind, CustomError::UnterminatedCodeFence);
    assert_eq!(parse_markdown("```go").unwrap_err().kind, CustomError::UnterminatedCodeFence);
}

#[test]
fn empty_document_is_refused() {
    assert_eq!(parse_markdown("").unwrap_err().kind, CustomError::EmptyDocument);
}

#[test]
fn last_line_needs_no_newline() {
    assert_eq!(
        parse_markdown("a\nb").unwrap(),
        vec![
            Markdown::Line(vec![MarkdownInline::Plaintext("a".into())]),
            Markdown::Line(vec![MarkdownInline::Plaintext("b".into())]),
        ]
    );
}

#[test]
fn line_stops_before_a_fence() {
    assert_eq!(
        parse_markdown("text```x\ny\n```").unwrap(),
        vec![
            Markdown::Line(vec![MarkdownInline::Plaintext("text".into())]),
            Markdown::Codeblock("x".into(), "y\n".into()),
        ]
    );
}

#[test]
fn into_parts_of_nothing() {
    assert_eq!(into_parts(vec![]), (String::new(), vec![]));
}

#[test]
fn unclosed_fence_names_its_rest() {
    assert_eq!(
        parse_markdown("a\n```go\nx\n"),
        Err(ParseFailure { kind: CustomError::UnterminatedCodeFence, token: "```go\nx\n".into() })
    );
}
