use hyprtxt::{parse_source, render, scan, Context, Expectation, Node, TokenKind, Value};

fn expand(source: &str, context: &Context) -> String {
    let node = parse_source(source).expect("source should parse");
    render(&node, context).expect("tree should render")
}

#[test]
fn it_works() {
    let result = 2 + 2;
    assert_eq!(result, 4);
}

#[test]
fn lib_it_works() {
    let result = 2 + 2;
    assert_eq!(result, 4);
}

#[test]
fn readme_example() {
    let source = r#"
        html {
            lang="en"
            head {
                title { $: "this is a test" }
                meta* { dum="brane" }
            }
            body {
                div {
                    class="class"
                    id="id"
                    type="idk"

                    p { $: "paragraph" }
                    $: "stuff"
                    $: "moar stuff"
                }
            }
        }
    "#;
    let x = expand(source, &Context::new());
    assert_eq!(
        x,
        "<html lang=\"en\"><head><title>this is a test</title><meta dum=\"brane\"></head><body><div class=\"class\" id=\"id\" type=\"idk\"><p>paragraph</p>stuffmoar stuff</div></body></html>".to_string()
    )
}

#[test]
fn scanner_classifies_tokens() {
    let tokens = scan("p { .=\"card\" }");
    let kinds: Vec<TokenKind> = tokens.iter().map(|t| t.kind.clone()).collect();
    assert_eq!(
        kinds,
        vec![
            TokenKind::Identifier("p".to_string()),
            TokenKind::OpenBrace,
            TokenKind::Dot,
            TokenKind::Equals,
            TokenKind::StringLiteral("card".to_string()),
            TokenKind::CloseBrace,
            TokenKind::EndOfInput,
        ]
    );
    assert_eq!(tokens[0].position, 0);
    assert_eq!(tokens[1].position, 2);
    assert_eq!(tokens[4].position, 6);
    assert_eq!(tokens[6].position, 14);
}

#[test]
fn scanner_is_total_on_unterminated_strings() {
    let tokens = scan("p: \"never closed");
    assert_eq!(
        tokens[2].kind,
        TokenKind::StringLiteral("never closed".to_string())
    );
    assert_eq!(tokens[3].kind, TokenKind::EndOfInput);
}

#[test]
fn commas_separate_and_mean_nothing() {
    let plain = expand("div { a=\"1\" b=\"2\" }", &Context::new());
    let commas = expand("div { a=\"1\", b=\"2\", }", &Context::new());
    assert_eq!(plain, commas);
    assert_eq!(plain, "<div a=\"1\" b=\"2\"/>");
}

#[test]
fn binding_resolves_from_context() {
    let mut context = Context::new();
    context.insert("user", "ada");
    let html = expand("p { $: user }", &context);
    assert_eq!(html, "<p>ada</p>");
}

#[test]
fn binding_attribute_value_resolves() {
    let mut context = Context::new();
    context.insert("cls", "wide");
    let html = expand("div { class=cls $: \"x\" }", &context);
    assert_eq!(html, "<div class=\"wide\">x</div>");
}

#[test]
fn later_binding_overrides_earlier() {
    let mut context = Context::new();
    context.insert("x", "first");
    context.insert("x", "second");
    assert_eq!(context.get("x").map(|s| s.as_str()), Some("second"));
    assert_eq!(context.get("missing"), None);
}

#[test]
fn hyprtxt_expands_in_one_call() {
    let mut context = Context::new();
    context.insert("slot", "<p>body</p>");
    let html = hyprtxt::hyprtxt("main { $: slot }", &context).expect("should expand");
    assert_eq!(html, "<main><p>body</p></main>");
}

#[test]
fn hyprtxt_reports_syntax_errors() {
    let r = hyprtxt::hyprtxt("main {", &Context::new());
    assert!(matches!(r, Err(hyprtxt::TemplateError::Syntax(_))));
}

#[test]
fn hyprtxt_reports_unbound_names() {
    let r = hyprtxt::hyprtxt("main { $: slot }", &Context::new());
    match r {
        Err(hyprtxt::TemplateError::Unbound(e)) => assert_eq!(e.name, "slot"),
        other => panic!("expected an unbound name, got {:?}", other.is_ok()),
    }
}

#[test]
fn parse_builds_the_expected_tree() {
    let node = parse_source("p { class=\"x\" $: hello }").expect("should parse");
    match node {
        Node::Element { tag, void, attributes, children } => {
            assert_eq!(tag, "p");
            assert!(!void);
            assert_eq!(attributes.len(), 1);
            assert_eq!(attributes[0].name, "class");
            assert_eq!(attributes[0].value, Value::Literal("x".to_string()));
            assert_eq!(children.len(), 1);
            assert_eq!(children[0], Node::Content(Value::Binding("hello".to_string())));
        },
        Node::Content(_) => panic!("expected an element"),
    }
}

#[test]
fn unrecognized_characters_fold_into_identifiers() {
    let tokens = scan("my-tag @x");
    assert_eq!(tokens[0].kind, TokenKind::Identifier("my-tag".to_string()));
    assert_eq!(tokens[1].kind, TokenKind::Identifier("@x".to_string()));
}

#[test]
fn context_lookup_is_case_sensitive() {
    let mut context = Context::new();
    context.insert("Name", "ada");
    assert_eq!(context.get("name"), None);
    assert_eq!(context.get("Name").map(|s| s.as_str()), Some("ada"));
}

#[test]
fn trailing_tokens_are_rejected() {
    let e = parse_source("p { } q").unwrap_err();
    assert_eq!(e.expected, Expectation::EndOfInput);
    assert_eq!(e.found, TokenKind::Identifier("q".to_string()));
}

#[test]
fn missing_tag_is_rejected() {
    let e = parse_source("{ }").unwrap_err();
    assert_eq!(e.expected, Expectation::Element);
    assert_eq!(e.position, 0);
}

#[test]
fn empty_source_is_rejected() {
    let e = parse_source("").unwrap_err();
    assert_eq!(e.expected, Expectation::Element);
    assert_eq!(e.found, TokenKind::EndOfInput);
}

#[test]
fn void_element_can_stand_alone() {
    let html = expand("br* { }", &Context::new());
    assert_eq!(html, "<br>");
}

#[test]
fn single_content_shorthand_takes_a_binding() {
    let mut context = Context::new();
    context.insert("name", "Ada");
    let html = expand("title: name", &context);
    assert_eq!(html, "<title>Ada</title>");
}
