use hyprtxt::{parse_source, render, Context, Expectation, Node, Value};

fn expand(source: &str, context: &Context) -> String {
    let node = parse_source(source).expect("source should parse");
    render(&node, context).expect("tree should render")
}

#[test]
fn literal_round_trips_regardless_of_context() {
    let node = Node::Content(Value::Literal("plain <text> & more".to_string()));
    let mut context = Context::new();
    context.insert("plain", "unrelated");
    assert_eq!(render(&node, &Context::new()).unwrap(), "plain <text> & more");
    assert_eq!(render(&node, &context).unwrap(), "plain <text> & more");
}

#[test]
fn attribute_order_is_preserved() {
    let html = expand("tag { a=\"1\" b=\"2\" a=\"3\" }", &Context::new());
    assert_eq!(html, "<tag a=\"1\" b=\"2\" a=\"3\"/>");
}

#[test]
fn void_and_container_renderings_differ() {
    assert_eq!(
        expand("meta* { charset=\"UTF-8\" }", &Context::new()),
        "<meta charset=\"UTF-8\">"
    );
    assert_eq!(expand("p { }", &Context::new()), "<p/>");
    assert_eq!(expand("p { $: \"x\" }", &Context::new()), "<p>x</p>");
}

#[test]
fn class_and_id_shorthands_are_equivalent() {
    let short = expand("div { .=\"card\" #=\"main\" }", &Context::new());
    let long = expand("div { class=\"card\" id=\"main\" }", &Context::new());
    assert_eq!(short, long);
    assert_eq!(short, "<div class=\"card\" id=\"main\"/>");
}

#[test]
fn single_content_shorthand_is_equivalent() {
    let short = expand("title: \"Hi\"", &Context::new());
    let long = expand("title { $: \"Hi\" }", &Context::new());
    assert_eq!(short, long);
    assert_eq!(short, "<title>Hi</title>");
}

#[test]
fn children_concatenate_in_source_order() {
    let html = expand("div { p: \"a\" p: \"b\" }", &Context::new());
    assert_eq!(html, "<div><p>a</p><p>b</p></div>");
}

#[test]
fn unbound_binding_fails_with_its_name() {
    let node = Node::Content(Value::Binding("x".to_string()));
    let mut context = Context::new();
    context.insert("y", "there");
    let e = render(&node, &context).unwrap_err();
    assert_eq!(e.name, "x");
}

#[test]
fn renders_are_deterministic_across_equal_contexts() {
    let node = parse_source("div { class=cls p: \"a\" $: msg }").unwrap();
    let mut c1 = Context::new();
    c1.insert("cls", "wide");
    c1.insert("msg", "hello");
    let mut c2 = Context::new();
    c2.insert("cls", "wide");
    c2.insert("msg", "hello");
    let first = render(&node, &c1).unwrap();
    let second = render(&node, &c2).unwrap();
    assert_eq!(first, second);
    let again = render(&node, &c1).unwrap();
    assert_eq!(first, again);
}

#[test]
fn unclosed_block_is_a_syntax_error() {
    let e = parse_source("div { p: \"a\"").unwrap_err();
    assert_eq!(e.expected, Expectation::Item);
}

#[test]
fn bare_dollar_is_a_syntax_error() {
    let e = parse_source("div { $ \"x\" }").unwrap_err();
    assert_eq!(e.expected, Expectation::Item);
}

#[test]
fn void_block_rejects_children() {
    let e = parse_source("meta* { p: \"x\" }").unwrap_err();
    assert_eq!(e.expected, Expectation::AttributeItem);
    let e = parse_source("meta* { $: \"x\" }").unwrap_err();
    assert_eq!(e.expected, Expectation::AttributeItem);
}

#[test]
fn element_tail_must_follow_a_tag() {
    let e = parse_source("p = \"x\"").unwrap_err();
    assert_eq!(e.expected, Expectation::ElementTail);
}

#[test]
fn void_star_needs_a_block() {
    let e = parse_source("meta* charset").unwrap_err();
    assert_eq!(e.expected, Expectation::OpenBrace);
}

#[test]
fn attribute_needs_a_value() {
    let e = parse_source("p { class={ }").unwrap_err();
    assert_eq!(e.expected, Expectation::Value);
}
