use hyprtxt::{page_template, plan_asset, AssetCategory, Endpoint, SiteBuilder, StaticSite};

#[test]
fn endpoint_splits_a_segment_path() {
    let e = Endpoint::new(&["blog", "post-1"]);
    assert_eq!(e.dir("./public"), "./public/blog");
    assert_eq!(e.name(), "post-1.html");
    assert_eq!(e.path("./public"), "./public/blog/post-1.html");
}

#[test]
fn endpoint_with_one_segment_has_no_directory() {
    let e = Endpoint::new(&["index"]);
    assert_eq!(e.dir("public"), "public/");
    assert_eq!(e.path("public"), "public//index.html");
}

#[test]
fn endpoint_from_route_splits_on_slashes() {
    let e = Endpoint::from_route("blog/2023/post-1");
    assert_eq!(e.dir("./public"), "./public/blog/2023");
    assert_eq!(e.name(), "post-1.html");
    assert_eq!(e.path("./public"), "./public/blog/2023/post-1.html");
}

#[test]
fn site_builder_keeps_pages_and_endpoints_apart() {
    let mut site = SiteBuilder::new();
    site.add_page(Endpoint::from_route("index"), "<html/>".to_string());
    site.add_endpoint(Endpoint::from_route("parts/nav"), "<nav/>".to_string());
    site.add_page(Endpoint::from_route("about"), "<p/>".to_string());
    assert_eq!(site.pages().len(), 2);
    assert_eq!(site.endpoints().len(), 1);
    assert_eq!(site.pages()[0].1, "<html/>");
    assert_eq!(site.endpoints()[0].0.path("p"), "p/parts/nav.html");
}

#[test]
fn page_template_wraps_the_slot() {
    let html = page_template("<p>body</p>".to_string());
    assert_eq!(
        html,
        "<html lang=\"en\"><head><meta charset=\"UTF-8\"/><meta name=\"viewport\" content=\"width=device-width\"/><title>Will this work???</title><script src=\"https://unpkg.com/htmx.org@1.9.2\" integrity=\"sha384-L6OqL9pRWyyFU3+/bjdSri+iIphTN/bvYyM37tICVyOJkWZLpP2vGn6VUEXgzg6h\" crossorigin=\"anonymous\"/></head><p>body</p></html>"
    );
}

#[test]
fn scripts_are_planned_with_a_script_tag() {
    let plan = plan_asset("app.js").expect("js is a known category");
    assert_eq!(plan.category, AssetCategory::Script);
    assert_eq!(plan.destination_dir, "./public/assets/js");
    assert_eq!(plan.destination, "./public/assets/js/app.js");
    assert_eq!(
        plan.reference_tag.as_deref(),
        Some("<script src=\"assets/js/app.js\"/>")
    );
}

#[test]
fn stylesheets_are_planned_with_a_link_tag() {
    let plan = plan_asset("style.css").expect("css is a known category");
    assert_eq!(plan.category, AssetCategory::Stylesheet);
    assert_eq!(plan.destination, "./public/assets/css/style.css");
    assert_eq!(
        plan.reference_tag.as_deref(),
        Some("<link rel=\"stylesheet\" type=\"text/css\" href=\"assets/css/style.css\">")
    );
}

#[test]
fn other_categories_get_no_tag() {
    let pdf = plan_asset("paper.pdf").expect("pdf is a known category");
    assert_eq!(pdf.category, AssetCategory::Document);
    assert_eq!(pdf.destination, "./public/assets/docs/paper.pdf");
    assert!(pdf.reference_tag.is_none());
    let svg = plan_asset("logo.svg").unwrap();
    assert_eq!(svg.category, AssetCategory::VectorImage);
    let jpg = plan_asset("photo.album.jpeg").unwrap();
    assert_eq!(jpg.category, AssetCategory::RasterImage);
    assert_eq!(jpg.destination, "./public/assets/img/photo.album.jpeg");
    let wav = plan_asset("clip.wav").unwrap();
    assert_eq!(wav.category, AssetCategory::Audio);
}

#[test]
fn unknown_extensions_are_skipped() {
    assert!(plan_asset("notes.txt").is_none());
    assert!(plan_asset("no_extension").is_none());
    assert!(plan_asset("trailing.").is_none());
}
