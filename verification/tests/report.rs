use gust_core::report::{default_schema_version, escape, escape_json_script, pixel_gust_svg, truncate, SCHEMA_VERSION};

#[test]
fn pixel_wordmark_is_inline_svg() {
    let svg = pixel_gust_svg();
    assert!(svg.starts_with("<svg"));
    assert!(svg.contains("aria-label=\"Gust\""));
    assert!(svg.contains("#3dd6c6"));
}

#[test]
fn pixel_wordmark_is_one_closed_element() {
    let svg = pixel_gust_svg();
    assert!(svg.ends_with("</svg>"));
    assert_eq!(svg.matches("<svg").count(), 1);
    assert!(svg.contains("<rect"));
    assert!(svg.starts_with(
        "<svg xmlns=\"http://www.w3.org/2000/svg\" viewBox=\"0 0 104 26\" role=\"img\" aria-label=\"Gust\">\
         <rect x=\"4\" y=\"1\" width=\"3\" height=\"3\" fill=\"#1a4f4a\"/>\
         <rect x=\"3\" y=\"0\" width=\"3\" height=\"3\" fill=\"#c8f6ef\"/>"
    ));
}

#[test]
fn escape_replaces_markup_characters() {
    assert_eq!(escape("a&b<c>d\"e"), "a&amp;b&lt;c&gt;d&quot;e");
    assert_eq!(escape("plain"), "plain");
    assert_eq!(escape("&lt;"), "&amp;lt;");
    let e = escape("<script>alert(\"x\")</script>");
    assert!(!e.contains('<') && !e.contains('>') && !e.contains('"'));
}

#[test]
fn escape_json_script_blocks_script_breakout() {
    assert_eq!(escape_json_script("{\"a\":\"</script>\"}"), "{\"a\":\"\\u003c/script>\"}");
    assert!(!escape_json_script("<<<").contains('<'));
    assert_eq!(escape_json_script("no angle"), "no angle");
}

#[test]
fn truncate_keeps_short_text_and_marks_cuts() {
    assert_eq!(truncate("checkout", 14), "checkout");
    assert_eq!(truncate("exactly-ten!", 12), "exactly-ten!");
    assert_eq!(truncate("a-very-long-step-name", 8), "a-very-…");
    assert_eq!(truncate("abc", 0), "…");
    assert_eq!(truncate("ééééé", 3), "éé…");
}

#[test]
fn schema_version_default_is_current() {
    assert_eq!(default_schema_version(), SCHEMA_VERSION);
    assert_eq!(SCHEMA_VERSION, 1);
}
