use hyprtxt::css::{calc_coprimes, gcd, Declaration, Selector};
use hyprtxt::{AddAttribute, AddContent, BuildElement, Element, ToHTML};

#[test]
fn bare_element_self_closes() {
    let e = Element::new("p");
    assert_eq!(e.render(), "<p/>");
}

#[test]
fn built_element_renders_attributes_and_content() {
    let e = Element::new("p");
    let e = BuildElement::add_key_val(e, "class", "wide");
    let e = BuildElement::add_content(e, "hello");
    assert_eq!(e.render(), "<p class=\"wide\">hello</p>");
}

#[test]
fn add_value_appends_a_bare_attribute() {
    let e = Element::new("input");
    let e = BuildElement::add_value(e, "disabled");
    assert_eq!(e.render(), "<input disabled/>");
}

#[test]
fn repeated_attributes_accumulate() {
    let e = Element::new("p");
    let e = AddAttribute::add_attribute(e, "a", "1");
    let e = AddAttribute::add_attribute(e, "b", "2");
    let e = AddAttribute::add_attribute(e, "a", "3");
    assert_eq!(e.render(), "<p a=\"1\" b=\"2\" a=\"3\"/>");
}

#[test]
fn content_nests_rendered_elements() {
    let inner = Element::new("em");
    let inner = BuildElement::add_content(inner, "deep");
    let outer = Element::new("div");
    let outer = AddContent::append_content(outer, inner);
    let outer = AddContent::append_content(outer, " tail".to_string());
    assert_eq!(outer.render(), "<div><em>deep</em> tail</div>");
}

#[test]
fn declaration_serializes() {
    let d = Declaration { property: "color".to_string(), value: "red".to_string() };
    assert_eq!(d.to_string(), "color:red;");
}

#[test]
fn selector_serializes_its_declarations() {
    let s = Selector {
        selector: ".card".to_string(),
        declarations: vec![
            Declaration { property: "color".to_string(), value: "red".to_string() },
            Declaration { property: "margin".to_string(), value: "0".to_string() },
        ],
    };
    assert_eq!(s.to_string(), ".card{color:red;margin:0;}");
}

#[test]
fn gcd_follows_euclid() {
    assert_eq!(gcd(12, 18), 6);
    assert_eq!(gcd(7, 13), 1);
    assert_eq!(gcd(0, 5), 5);
    assert_eq!(gcd(5, 0), 5);
}

#[test]
fn coprime_pairs_enumerate_in_row_major_order() {
    let pairs: Vec<(usize, usize)> = calc_coprimes(3).iter().map(|r| (r.0, r.1)).collect();
    assert_eq!(
        pairs,
        vec![(1, 1), (1, 2), (1, 3), (2, 1), (2, 3), (3, 1), (3, 2)]
    );
}
