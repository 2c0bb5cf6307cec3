use htmlmd::jobs::relative_below_base;
use htmlmd::options::{BulletMarker, ConversionOptions, CustomElementPolicy, CustomRule, ResponsiveImagePolicy};
use htmlmd::pipeline::convert;
use htmlmd::postprocess::post_process;
use htmlmd::rewrite::{choose_largest_srcset, density_key_exec, rewrite_srcset, size_key};

#[test]
fn density_keys_read_float_forms() {
    assert_eq!(density_key_exec("1e1"), 10000);
    assert_eq!(density_key_exec("2.5E-1"), 250);
    assert_eq!(density_key_exec("1e-4"), 0);
    assert_eq!(density_key_exec(".5"), 500);
    assert_eq!(density_key_exec("5."), 5000);
    assert_eq!(density_key_exec("1e400"), u32::MAX);
    assert_eq!(density_key_exec("inf"), u32::MAX);
    assert_eq!(density_key_exec("INFINITY"), u32::MAX);
    assert_eq!(density_key_exec("-inf"), 0);
    assert_eq!(density_key_exec("-2"), 0);
    assert_eq!(density_key_exec("nan"), 0);
    assert_eq!(density_key_exec("1e"), 0);
    assert_eq!(density_key_exec("."), 0);
    assert_eq!(size_key("a.jpg 1e1x"), 10000);
    assert_eq!(size_key("a.jpg infx"), u32::MAX);
}

#[test]
fn largest_srcset_counts_exponent_densities() {
    let keys = vec![size_key("a.jpg 1e1x"), size_key("b.jpg 2x")];
    assert_eq!(choose_largest_srcset(&keys), 0);
}

#[test]
fn preserved_srcset_is_left_as_it_is() {
    let mut o = ConversionOptions::default();
    o.cleanup.responsive_image_policy = ResponsiveImagePolicy::PreserveSrcset;
    assert_eq!(rewrite_srcset("a.jpg 1x, b.jpg 2x", None, &o, &vec![1000, 2000]), "a.jpg 1x, b.jpg 2x");
    o.cleanup.responsive_image_policy = ResponsiveImagePolicy::FirstSrcset;
    assert_eq!(rewrite_srcset("a.jpg 1x, b.jpg 2x", None, &o, &vec![1000, 2000]), "a.jpg");
}

#[test]
fn ensured_final_newline_is_single() {
    let o = ConversionOptions::default();
    assert_eq!(post_process("a\n\n\n", &o), "a\n");
    assert_eq!(post_process("a", &o), "a\n");
    assert_eq!(post_process("", &o), "\n");
}

#[test]
fn plus_bullets_render_with_plus() {
    let mut o = ConversionOptions::default();
    o.render.bullet_marker = BulletMarker::Plus;
    let r = convert("<ul><li>one</li><li>two</li></ul>", &o).unwrap();
    assert!(r.markdown.contains("+ "), "{:?}", r.markdown);
    assert!(!r.markdown.contains("- "), "{:?}", r.markdown);
}

#[test]
fn mirrored_paths_are_taken_below_the_base() {
    assert_eq!(relative_below_base("docs/a/b.html", "docs"), "a/b.html");
    assert_eq!(relative_below_base("./docs/a.html", "./docs/"), "a.html");
    assert_eq!(relative_below_base("docs//a/./b.html", "docs"), "a/b.html");
    assert_eq!(relative_below_base("other/a.html", "docs"), "other/a.html");
    assert_eq!(relative_below_base("a.html", "."), "a.html");
    assert_eq!(relative_below_base("/x/y/z.html", "/x"), "y/z.html");
}

#[test]
fn requested_metadata_comes_from_the_head() {
    let mut o = ConversionOptions::default();
    o.cleanup.metadata.title = true;
    o.cleanup.metadata.description = true;
    o.cleanup.metadata.canonical_url = true;
    let html = "<html><head><title>T</title><meta name=\"description\" content=\"  about  \"><link rel=\"canonical\" href=\"https://e.com/a\"></head><body><p>x</p></body></html>";
    let r = convert(html, &o).unwrap();
    assert_eq!(r.title.as_deref(), Some("T"));
    assert_eq!(r.description.as_deref(), Some("about"));
    assert_eq!(r.canonical_url.as_deref(), Some("https://e.com/a"));
    let r = convert("<p>x</p>", &o).unwrap();
    assert_eq!(r.description, None);
    assert_eq!(r.canonical_url, None);
}

#[test]
fn heading_offset_shifts_and_clamps() {
    let mut o = ConversionOptions::default();
    o.semantic.heading_offset = 1;
    let r = convert("<h1>A</h1><h6>B</h6>", &o).unwrap();
    assert!(r.markdown.contains("## A"), "{:?}", r.markdown);
    assert!(r.markdown.contains("###### B"), "{:?}", r.markdown);
}

#[test]
fn hidden_and_dropped_content_is_gone() {
    let o = ConversionOptions::default();
    let r = convert("<p>shown</p><p hidden>secret</p><div style=\"display:none\">gone</div>", &o).unwrap();
    assert!(r.markdown.contains("shown"));
    assert!(!r.markdown.contains("secret"));
    assert!(!r.markdown.contains("gone"));
}

#[test]
fn over_deep_content_is_pruned_with_a_warning() {
    let o = ConversionOptions::default();
    let deep = format!("{}deep{}", "<div>".repeat(400), "</div>".repeat(400));
    let r = convert(&deep, &o).unwrap();
    assert!(!r.markdown.contains("deep"));
    assert!(r.diagnostics.iter().any(|d| d.message.contains("max-dom-depth")));
    let shallow = format!("{}deep{}", "<div>".repeat(10), "</div>".repeat(10));
    let s = convert(&shallow, &o).unwrap();
    assert!(s.markdown.contains("deep"));
    assert!(s.diagnostics.is_empty());
}

#[test]
fn invalid_custom_rule_selectors_warn_with_their_rule() {
    let mut o = ConversionOptions::default();
    o.extension.custom_rules = vec![
        CustomRule { selectors: vec!["p".to_string()], priority: 5, ..CustomRule::default() },
        CustomRule { selectors: vec!["[[".to_string()], priority: 1, ..CustomRule::default() },
    ];
    let r = convert("<p>x</p><div>y</div>", &o).unwrap();
    let w: Vec<_> = r.diagnostics.iter().filter(|d| d.message.starts_with("invalid custom rule selector [[: ")).collect();
    assert_eq!(w.len(), 1);
    assert_eq!(w[0].rule.as_deref(), Some("1"));
}

#[test]
fn custom_elements_are_unwrapped_or_dropped() {
    let mut o = ConversionOptions::default();
    o.cleanup.custom_element_policy = CustomElementPolicy::Drop;
    let r = convert("<my-card>inside</my-card><p>outside</p>", &o).unwrap();
    assert!(!r.markdown.contains("inside"));
    assert!(r.markdown.contains("outside"));
    o.cleanup.custom_element_policy = CustomElementPolicy::Unwrap;
    let r = convert("<my-card>inside</my-card><p>outside</p>", &o).unwrap();
    assert!(r.markdown.contains("inside"));
    assert!(!r.markdown.contains("my-card"));
}
