use htmlmd::rewrite::rewrite_single_url;
use htmlmd::ConversionOptions;

#[test]
fn strips_utm_params() {
    let options = ConversionOptions::default();
    let out = rewrite_single_url("https://example.com/page?utm_source=email&utm_campaign=x", None, &options);
    assert_eq!(out, "https://example.com/page");
}

#[test]
fn resolves_relative_url() {
    let options = ConversionOptions::default();
    let out = rewrite_single_url("../img.png", Some("https://example.com/blog/"), &options);
    assert_eq!(out, "https://example.com/img.png");
}

#[test]
fn blocks_javascript_url() {
    let options = ConversionOptions::default();
    let out = rewrite_single_url("javascript:alert(1)", None, &options);
    assert!(out.is_empty());
}
