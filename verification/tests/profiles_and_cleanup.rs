use htmlmd::options::{
    CustomRule, CustomRuleAction, ImageMode, LinkStyle, MediaPolicy, ReferencePlacement,
    TitleHandling,
};
use htmlmd::pipeline::convert;
use htmlmd::ConversionOptions;

#[test]
fn media_drop() {
    let mut opts = ConversionOptions::default();
    opts.cleanup.media_policy = MediaPolicy::Drop;
    let html = "<p>text</p><video src='x.mp4'></video><audio src='y.mp3'></audio>";
    let md = convert(html, &opts).unwrap().markdown;
    assert!(md.contains("text"));
    assert!(!md.contains("video"));
    assert!(!md.contains("audio"));
}

#[test]
fn media_placeholder() {
    let mut opts = ConversionOptions::default();
    opts.cleanup.media_policy = MediaPolicy::Placeholder;
    let html = "<video src='x.mp4'></video>";
    let md = convert(html, &opts).unwrap().markdown;
    assert!(md.contains("(VIDEO: x.mp4)"), "{md}");
}

#[test]
fn custom_rules_drop_and_template() {
    let mut opts = ConversionOptions::extended();
    opts.extension.custom_rules = vec![
        CustomRule {
            selectors: vec![".ad".to_string()],
            action: CustomRuleAction::Drop,
            template: None,
            priority: 0,
        },
        CustomRule {
            selectors: vec!["span.badge".to_string()],
            action: CustomRuleAction::MarkdownTemplate,
            template: Some("**{text}**".to_string()),
            priority: 0,
        },
        CustomRule {
            selectors: vec!["pre.tilde".to_string()],
            action: CustomRuleAction::FencedBlock,
            template: Some("txt".to_string()),
            priority: 0,
        },
    ];
    let html = "<p>Hello <span class='badge'>NEW</span> <span class='ad'>Ad</span></p><pre class='tilde'>some code</pre>";
    let md = convert(html, &opts).unwrap().markdown;
    assert!(!md.contains("Ad"), "{md}");
    assert!(md.contains("**NEW**"), "{md}");
    assert!(md.contains("```txt"), "{md}");
    assert!(md.contains("some code"), "{md}");
}

#[test]
fn custom_rules_support_full_selectors_and_priority() {
    let mut opts = ConversionOptions::extended();
    opts.extension.custom_rules = vec![
        CustomRule {
            selectors: vec![".callout".to_string()],
            action: CustomRuleAction::MarkdownTemplate,
            template: Some("> {text}".to_string()),
            priority: 1,
        },
        CustomRule {
            selectors: vec!["[data-term]".to_string()],
            action: CustomRuleAction::MarkdownTemplate,
            template: Some("*{attr:data-term}*: {text}".to_string()),
            priority: 0,
        },
        CustomRule {
            selectors: vec![".callout".to_string()],
            action: CustomRuleAction::MarkdownTemplate,
            template: Some("LOSER {text}".to_string()),
            priority: 0,
        },
    ];
    let html = "<div class='callout'>heads up</div>\
                <p><span data-term='API'>application interface</span></p>";
    let md = convert(html, &opts).unwrap().markdown;
    assert!(md.contains("> heads up"), "{md}");
    assert!(!md.contains("LOSER"), "{md}");
    assert!(md.contains("*API*: application interface"), "{md}");
}

#[test]
fn custom_rules_link_and_image() {
    let mut opts = ConversionOptions::extended();
    opts.extension.custom_rules = vec![
        CustomRule {
            selectors: vec!["a.custom-link".to_string()],
            action: CustomRuleAction::Link,
            template: None,
            priority: 0,
        },
        CustomRule {
            selectors: vec!["img.custom-img".to_string()],
            action: CustomRuleAction::Image,
            template: None,
            priority: 0,
        },
    ];
    let html = "<a class='custom-link' href='https://example.com'>Example</a><img class='custom-img' src='pic.png' alt='Pic'>";
    let md = convert(html, &opts).unwrap().markdown;
    assert!(md.contains("[Example](https://example.com/)"), "{md}");
    assert!(md.contains("![Pic](pic.png)"), "{md}");
}

#[test]
fn obsidian_profile_wikilinks_and_frontmatter() {
    let mut opts = ConversionOptions::obsidian();
    opts.cleanup.metadata.title = true;
    opts.cleanup.metadata.description = true;
    opts.cleanup.metadata.canonical_url = true;
    let html = r#"<!DOCTYPE html>
<html><head><title>My Note</title>
<meta name="description" content="A note about things">
<link rel="canonical" href="https://example.com/note">
</head><body>
<p>See <a class="wikilink" href="Another page">another note</a>.</p>
</body></html>"#;
    let md = convert(html, &opts).unwrap().markdown;
    assert!(md.contains("---"), "{md}");
    assert!(md.contains("title: \"My Note\""), "{md}");
    assert!(md.contains("description: \"A note about things\""), "{md}");
    assert!(md.contains("canonical_url: \"https://example.com/note\""), "{md}");
    assert!(md.contains("[[Another page|another note]]"), "{md}");
}

#[test]
fn pandoc_profile_preserves_raw_html() {
    let md = convert("<p>Press <kbd>Ctrl</kbd>.</p>", &ConversionOptions::pandoc())
        .unwrap()
        .markdown;
    assert!(md.contains("<kbd>Ctrl</kbd>"), "{md}");
}

#[test]
fn mdx_safe_profile_escapes_jsx() {
    let md = convert(
        "<p>Press <kbd>Ctrl</kbd> and use {config.value}.</p>",
        &ConversionOptions::mdx_safe(),
    )
    .unwrap()
    .markdown;
    assert!(!md.contains("<kbd>"), "{md}");
    assert!(md.contains("Ctrl"), "{md}");
    assert!(md.contains(r"\{config.value\}"), "{md}");
}

#[test]
fn plain_text_profile_strips_markdown() {
    let html = "<h1>Title</h1><p>A <em>simple</em> <a href='https://example.com'>link</a> and <img src='x.png' alt='diagram'>.</p><ul><li>one</li><li>two</li></ul>";
    let md = convert(html, &ConversionOptions::plain_text()).unwrap().markdown;
    assert!(!md.contains('#'), "{md}");
    assert!(!md.contains('*'), "{md}");
    assert!(!md.contains('['), "{md}");
    assert!(!md.contains('!'), "{md}");
    assert!(md.contains("Title"));
    assert!(md.contains("simple"));
    assert!(md.contains("link"));
    assert!(md.contains("diagram"));
    assert!(md.contains("one"));
    assert!(md.contains("two"));
}

#[test]
fn reference_links_adjacent() {
    let mut opts = ConversionOptions::default();
    opts.render.link_style = LinkStyle::Reference;
    opts.render.reference_placement = ReferencePlacement::Adjacent;
    opts.render.title_attribute = TitleHandling::Inline;
    let html = "<p><a href='https://a.com'>A</a> and <a href='https://b.com' title='B site'>B</a></p>";
    let md = convert(html, &opts).unwrap().markdown;
    assert!(md.contains("[A][ref1]"), "{md}");
    assert!(md.contains("[ref1]: https://a.com"), "{md}");
    assert!(md.contains("[B][ref2]"), "{md}");
    assert!(md.contains("[ref2]: https://b.com/ \"B site\""), "{md}");
}

#[test]
fn reference_links_section_end() {
    let mut opts = ConversionOptions::default();
    opts.render.link_style = LinkStyle::Reference;
    opts.render.reference_placement = ReferencePlacement::SectionEnd;
    opts.render.title_attribute = TitleHandling::Inline;
    let html = "<p><a href='https://a.com'>A</a></p><h2>Next</h2><p><a href='https://b.com'>B</a></p>";
    let md = convert(html, &opts).unwrap().markdown;
    assert!(md.contains("[A][ref1]"), "{md}");
    assert!(md.contains("[B][ref2]"), "{md}");
    assert!(md.contains("[ref1]: https://a.com"), "{md}");
    assert!(md.contains("[ref2]: https://b.com"), "{md}");
    let pos_def1 = md.find("[ref1]: https://a.com").unwrap();
    let pos_heading = md.find("## Next").unwrap();
    assert!(pos_def1 < pos_heading);
}

#[test]
fn reference_images() {
    let mut opts = ConversionOptions::default();
    opts.cleanup.image_mode = ImageMode::Reference;
    opts.render.title_attribute = TitleHandling::Inline;
    let html = "<p><img src='a.png' alt='A'><img src='b.png' alt='B' title='pic'></p>";
    let md = convert(html, &opts).unwrap().markdown;
    assert!(md.contains("![A][img1]"), "{md}");
    assert!(md.contains("![B][img2]"), "{md}");
    assert!(md.contains("[img1]: a.png"), "{md}");
    assert!(md.contains("[img2]: b.png \"pic\""), "{md}");
}

#[test]
fn gfm_task_lists() {
    let html = "<ul><li><input type=\"checkbox\" checked> done</li>\
                <li><input type=\"checkbox\"> todo</li></ul>";
    let md = convert(html, &ConversionOptions::gfm()).unwrap().markdown;
    assert!(md.contains("[x] done"), "{md}");
    assert!(md.contains("[ ] todo"), "{md}");
}

#[test]
fn task_lists_disabled() {
    let mut opts = ConversionOptions::gfm();
    opts.semantic.task_lists = false;
    let html = "<ul><li><input type=\"checkbox\" checked> done</li></ul>";
    let md = convert(html, &opts).unwrap().markdown;
    assert!(!md.contains("[x]"), "{md}");
    assert!(md.contains("done"), "{md}");
}

#[test]
fn heading_offset_shifts_levels() {
    let mut opts = ConversionOptions::default();
    opts.semantic.heading_offset = 1;
    let md = convert("<h1>Title</h1>", &opts).unwrap().markdown;
    assert!(md.contains("## Title"), "{md}");
}

#[test]
fn heading_offset_clamps_to_valid_range() {
    let mut opts = ConversionOptions::default();
    opts.semantic.heading_offset = 2;
    let md = convert("<h5>Five</h5><h6>Six</h6>", &opts).unwrap().markdown;
    assert!(md.contains("###### Five"), "{md}");
    assert!(md.contains("###### Six"), "{md}");
    opts.semantic.heading_offset = -3;
    let md = convert("<h2>Two</h2>", &opts).unwrap().markdown;
    assert!(md.contains("# Two"), "{md}");
    assert!(!md.contains("## Two"), "{md}");
}

#[test]
fn limit_max_output_bytes_errors_in_strict_mode() {
    let mut opts = ConversionOptions::default();
    opts.limits.max_output_bytes = 1;
    opts.strict = true;
    let err = convert("<h1>Hello world</h1>", &opts).unwrap_err();
    assert!(err.message().contains("output size"));
}

#[test]
fn limit_max_dom_depth_errors_in_strict_mode() {
    let mut opts = ConversionOptions::default();
    opts.limits.max_dom_depth = 1;
    opts.strict = true;
    let err = convert("<div><p><span>deep</span></p></div>", &opts).unwrap_err();
    assert!(err.message().contains("DOM depth"));
}

#[test]
fn limit_max_attribute_len_errors_in_strict_mode() {
    let mut opts = ConversionOptions::default();
    opts.limits.max_attribute_len = 2;
    opts.strict = true;
    let err = convert("<p data-x='verylongvalue'>text</p>", &opts).unwrap_err();
    assert!(err.message().contains("attribute length"));
}

fn profiles() -> Vec<(&'static str, ConversionOptions)> {
    vec![
        ("commonmark", ConversionOptions::commonmark()),
        ("gfm", ConversionOptions::gfm()),
        ("extended", ConversionOptions::extended()),
        ("pandoc", ConversionOptions::pandoc()),
        ("obsidian", ConversionOptions::obsidian()),
        ("mdx_safe", ConversionOptions::mdx_safe()),
        ("plain_text", ConversionOptions::plain_text()),
    ]
}

fn nasty_inputs() -> Vec<(&'static str, String)> {
    vec![
        ("empty", String::new()),
        ("lone_lt", "<".to_string()),
        ("angle_soup", "<<<>>>".to_string()),
        ("null_bytes", "\0\0\0".to_string()),
        ("null_in_markup", "a\0b<p>c\0</p>".to_string()),
        ("replacement_chars", "\u{FFFD}\u{FFFD}\u{FFFD}".to_string()),
        ("unterminated_comment", "<!--".to_string()),
        ("comment_swallows_doc", "<!-- <p>never closed".to_string()),
        ("unclosed_script", "<script>".to_string()),
        ("script_writes_html", "<script>document.write('<p>x</p>')</script>".to_string()),
        ("style_block", "<style>p { color: red }</style>".to_string()),
        ("unclosed_table", "<table><tr>".to_string()),
        ("orphan_cell", "<table><td>orphan cell".to_string()),
        (
            "pre_control_chars",
            format!("<pre>{}</pre>", "\u{1}\u{2}\u{7}\u{8}\u{B}\u{C}\u{E}\u{1B}\u{7F}"),
        ),
        (
            "rtl_and_zero_width",
            "<p>\u{202E}evil\u{202C} \u{200B}\u{200C}\u{200D}\u{FEFF}</p>".to_string(),
        ),
        ("cdata_close", "]]>".to_string()),
        ("cdata_open", "<![CDATA[ <p>hi</p> ]]>".to_string()),
        ("broken_hex_entity", "&#xZZ;".to_string()),
        ("surrogate_entity", "&#xD800;".to_string()),
        ("out_of_range_entity", "&#x110000;".to_string()),
        ("unterminated_entities", "&amp &lt &nosemi".to_string()),
        ("unknown_entity", "&bogusentity;".to_string()),
        ("ampersand_run", format!("<p>{}</p>", "&".repeat(64))),
        ("javascript_href", "<a href='javascript:alert(1)'>x</a>".to_string()),
        ("unterminated_attr", "<a href='".to_string()),
        ("unterminated_quoted_class", "<div class=\"unterminated".to_string()),
        ("angle_in_attr", "<p title='a<b>c'>attr with angle brackets</p>".to_string()),
        ("markdown_metachars", "<p>[link](url) *md* _in_ `html` | pipes | #hash</p>".to_string()),
        ("close_only_tags", "</div></p></body></html>".to_string()),
        ("doubled_documents", "<html><body><html><body>doubled documents".to_string()),
        ("svg_foreign_object", "<svg><foreignObject><p>fo</p></foreignObject></svg>".to_string()),
        ("mathml", "<math><mi>x</mi><mo>+</mo><mn>1</mn></math>".to_string()),
        ("bom_prefixed", "\u{FEFF}<p>BOM prefixed</p>".to_string()),
        (
            "emoji_and_combining",
            "<p>e\u{301}\u{301} \u{1F468}\u{200D}\u{1F469}\u{200D}\u{1F467} \u{1F1FA}\u{1F1F3}</p>".to_string(),
        ),
        ("double_doctype", "<!DOCTYPE html><!DOCTYPE html><p>double doctype</p>".to_string()),
        ("processing_instruction", "<?php echo 'x'; ?><p>after pi</p>".to_string()),
    ]
}

#[test]
fn garbage_sweep_all_profiles() {
    for (label, input) in nasty_inputs() {
        for (profile, options) in profiles() {
            let result = convert(&input, &options);
            assert!(
                result.is_ok(),
                "input {label:?} under profile {profile}: expected Ok, got {:?}",
                result.err()
            );
        }
    }
}

#[test]
fn deeply_nested_divs_default_limits_ok() {
    let input = format!("{}deep{}", "<div>".repeat(2_000), "</div>".repeat(2_000));
    for (profile, options) in profiles() {
        let result = convert(&input, &options);
        assert!(
            result.is_ok(),
            "2000-deep nested divs under profile {profile}: expected Ok, got {:?}",
            result.err()
        );
    }
}

#[test]
fn depth_limit_prunes_and_warns() {
    let input = format!("{}deep{}", "<div>".repeat(400), "</div>".repeat(400));
    let result = convert(&input, &ConversionOptions::default()).expect("convert");
    assert!(
        !result.markdown.contains("deep"),
        "content nested past max-dom-depth should be pruned, got {:?}",
        result.markdown
    );
    assert!(
        result.diagnostics.iter().any(|d| d.message.contains("max-dom-depth")),
        "pruning must emit a diagnostic"
    );
    let shallow = format!("{}deep{}", "<div>".repeat(10), "</div>".repeat(10));
    let result = convert(&shallow, &ConversionOptions::default()).expect("convert");
    assert!(result.markdown.contains("deep"));
    assert!(result.diagnostics.is_empty());
}

#[test]
fn megabyte_of_text_ok() {
    let input = "a".repeat(1 << 20);
    for (profile, options) in profiles() {
        let result = convert(&input, &options);
        assert!(
            result.is_ok(),
            "1MB text input under profile {profile}: expected Ok, got {:?}",
            result.err()
        );
    }
}
