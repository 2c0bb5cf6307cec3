use htmlmd::cleanup::{
    flatten_table_text, heading_offset_tag, image_metadata_alt, is_complex_table, lazy_image_src,
    media_placeholder_text, summary_text,
};
use htmlmd::cli::{config_format, config_not_found, CliError, ConfigFormat, OutputPolicyArg};
use htmlmd::dom::DomNode;
use htmlmd::elements::{code_fence_marker, emphasis_markdown, heading_markdown, inline_code_markdown};
use htmlmd::error::Error;
use htmlmd::jobs::{
    collision_error, decode_html, first_duplicate, glob_base, hash_bytes, is_batch, is_glob, is_html,
    job_action, job_path, mode_conflict, output_plan, progress_line, run_result, JobAction, JobOutcome,
    JobPath, OutputPlan,
};
use htmlmd::options::{ConversionOptions, CustomRule, FinalNewlinePolicy};
use htmlmd::postprocess::post_process;
use htmlmd::pipeline::convert;
use htmlmd::renderer::{combine_children, HandlerKind, Renderer};
use htmlmd::rewrite::{density_key_exec, size_key};
use htmlmd::rules::rules_by_priority;
use htmlmd::serialize::{AttrNamespace, Attribute};

fn attr(name: &str, value: &str) -> Attribute {
    Attribute { ns: AttrNamespace::NoNamespace, name: name.to_string(), value: value.to_string() }
}

fn text(t: &str) -> DomNode {
    DomNode::Text { text: t.to_string() }
}

fn element(tag: &str, children: Vec<DomNode>) -> DomNode {
    DomNode::Element { tag: tag.to_string(), attrs: vec![], children, html: String::new() }
}

fn row(cells: &[&str]) -> DomNode {
    element("tr", cells.iter().map(|c| element("td", vec![text(c)])).collect())
}

#[test]
fn heading_atx_trims_content() {
    assert_eq!(heading_markdown(2, "  Title ", false), "\n\n## Title\n\n");
}

#[test]
fn heading_setext_underlines_first_levels() {
    assert_eq!(heading_markdown(1, "Title", true), "\n\nTitle\n=====\n\n");
    assert_eq!(heading_markdown(2, "Sub", true), "\n\nSub\n---\n\n");
    assert_eq!(heading_markdown(3, "Deep", true), "\n\n### Deep\n\n");
}

#[test]
fn emphasis_keeps_surrounding_spaces_outside_markers() {
    assert_eq!(emphasis_markdown(" bold ", "**"), Some(" **bold** ".to_string()));
    assert_eq!(emphasis_markdown("   ", "*"), None);
}

#[test]
fn code_fence_outgrows_backtick_runs() {
    assert_eq!(code_fence_marker('`', "plain"), "```");
    assert_eq!(code_fence_marker('`', "a ```` b"), "`````");
    assert_eq!(code_fence_marker('~', "~~~"), "~~~~");
}

#[test]
fn inline_code_delimiter_avoids_content_backticks() {
    assert_eq!(inline_code_markdown("x", false), "`x`");
    assert_eq!(inline_code_markdown("a`b", false), "``a`b``");
    assert_eq!(inline_code_markdown("`tick", false), "`` `tick ``");
}

#[test]
fn heading_offset_shifts_and_clamps_tags() {
    assert_eq!(heading_offset_tag("h2", 1), Some("h3".to_string()));
    assert_eq!(heading_offset_tag("h3", -5), Some("h1".to_string()));
    assert_eq!(heading_offset_tag("h6", 2), None);
    assert_eq!(heading_offset_tag("h1", -3), None);
    assert_eq!(heading_offset_tag("div", 1), None);
}

#[test]
fn lazy_images_take_the_first_lazy_attribute() {
    let lazy = vec!["data-src".to_string(), "data-lazy".to_string()];
    let attrs = vec![attr("data-lazy", "b.png"), attr("data-src", "a.png")];
    assert_eq!(lazy_image_src(&attrs, &lazy), Some("a.png".to_string()));
    let with_src = vec![attr("src", "s.png"), attr("data-src", "a.png")];
    assert_eq!(lazy_image_src(&with_src, &lazy), None);
}

#[test]
fn image_dimensions_join_the_alt_text() {
    let attrs = vec![attr("alt", "Logo"), attr("width", "100"), attr("height", "200")];
    assert_eq!(image_metadata_alt(&attrs), Some("Logo (100x200)".to_string()));
    assert_eq!(image_metadata_alt(&vec![attr("width", "64")]), Some("(64x?)".to_string()));
    assert_eq!(image_metadata_alt(&vec![attr("alt", "x")]), None);
}

#[test]
fn media_placeholders_name_the_source() {
    assert_eq!(media_placeholder_text("video", &vec![attr("src", "movie.mp4")]), "(VIDEO: movie.mp4)");
    assert_eq!(media_placeholder_text("audio", &vec![]), "(AUDIO)");
}

#[test]
fn details_summary_text_is_trimmed() {
    let details = element("details", vec![text("body"), element("summary", vec![text("  More  ")])]);
    assert_eq!(summary_text(&details), "More");
}

#[test]
fn tables_with_ragged_rows_are_complex() {
    let ragged = element("table", vec![row(&["a", "b"]), row(&["c"])]);
    let even = element("table", vec![row(&["a", "b"]), row(&["c", "d"])]);
    assert!(is_complex_table(&ragged));
    assert!(!is_complex_table(&even));
}

#[test]
fn flattened_tables_join_cells_and_rows() {
    let t = element("table", vec![row(&["a", "b"]), row(&[" ", "c"])]);
    assert_eq!(flatten_table_text(&t), Some("\n\na | b\n\nc\n\n".to_string()));
    assert_eq!(flatten_table_text(&element("table", vec![])), None);
}

#[test]
fn srcset_keys_order_candidates() {
    assert_eq!(density_key_exec("1.5"), 1500);
    assert_eq!(density_key_exec("+2"), 2000);
    assert_eq!(density_key_exec("abc"), 0);
    assert_eq!(size_key("img.png 800w"), 800);
    assert_eq!(size_key("img.png 2x"), 2000);
    assert_eq!(size_key("img.png"), 0);
}

#[test]
fn custom_rules_claim_by_priority_then_declaration() {
    let rule = |p: i32| CustomRule { priority: p, ..CustomRule::default() };
    let rules = vec![rule(1), rule(5), rule(3), rule(5)];
    assert_eq!(rules_by_priority(&rules), vec![1, 3, 2, 0]);
}

#[test]
fn error_messages_name_their_kind() {
    assert_eq!(Error::Config("bad".to_string()).message(), "configuration error: bad");
    assert_eq!(Error::Selector("x".to_string()).message(), "selector error: x");
    assert_eq!(Error::Other("plain".to_string()).message(), "plain");
    let conv = CliError::Conversion(Error::LimitExceeded("too big".to_string()));
    assert_eq!(conv.message(), "conversion error: limit exceeded: too big");
    assert_eq!(conv.exit_code(), 1);
    assert_eq!(CliError::OutputRequired.message(), "output path required for multiple inputs");
    assert_eq!(CliError::OutputRequired.exit_code(), 2);
    assert_eq!(CliError::Config("c".to_string()).exit_code(), 2);
}

#[test]
fn job_paths_mirror_or_flatten() {
    assert_eq!(job_path(true, Some("site"), Some("page")), JobPath::Mirrored { base: "site".to_string() });
    assert_eq!(job_path(true, None, Some("page")), JobPath::Mirrored { base: ".".to_string() });
    assert_eq!(job_path(false, Some("site"), Some("page")), JobPath::Flat { file_name: "page.md".to_string() });
    assert_eq!(job_path(false, None, None), JobPath::Flat { file_name: "output.md".to_string() });
}

#[test]
fn job_actions_follow_flags_and_policy() {
    assert_eq!(job_action(false, false, false, OutputPolicyArg::Overwrite, false, false), JobAction::PrintToStdout);
    assert_eq!(job_action(false, false, true, OutputPolicyArg::Overwrite, false, false), JobAction::Nothing);
    assert_eq!(job_action(true, true, false, OutputPolicyArg::SkipExisting, true, false), JobAction::CompareExisting);
    assert_eq!(job_action(true, false, false, OutputPolicyArg::SkipExisting, true, false), JobAction::Skip);
    assert_eq!(job_action(true, false, false, OutputPolicyArg::FailIfExists, true, false), JobAction::FailExisting);
    assert_eq!(job_action(true, false, true, OutputPolicyArg::FailIfExists, false, false), JobAction::DryRun);
    assert_eq!(
        job_action(true, false, false, OutputPolicyArg::Overwrite, true, true),
        JobAction::Write { preserve_timestamps: true }
    );
}

#[test]
fn batches_write_one_file_per_job() {
    assert_eq!(output_plan(true, false, None), OutputPlan::AsGiven);
    assert_eq!(output_plan(false, false, None), OutputPlan::SingleFile);
    assert_eq!(output_plan(false, false, Some("out")), OutputPlan::PerJob { root: "out".to_string() });
    assert_eq!(output_plan(false, true, None), OutputPlan::PerJob { root: ".".to_string() });
    assert_eq!(output_plan(false, true, Some("out")), OutputPlan::PerJob { root: "out".to_string() });
}

#[test]
fn flat_batches_reject_colliding_names() {
    let names = vec!["a.md".to_string(), "b.md".to_string(), "a.md".to_string(), "b.md".to_string()];
    assert_eq!(first_duplicate(&names), Some(2));
    assert_eq!(first_duplicate(&vec!["a.md".to_string(), "b.md".to_string()]), None);
    match collision_error("a.md") {
        CliError::Config(m) => assert_eq!(m, "two inputs map to the output file a.md; use --mirror to keep their relative paths"),
        _ => panic!("expected a configuration error"),
    }
}

#[test]
fn globs_mirror_under_their_fixed_prefix() {
    assert_eq!(glob_base("pages/*.html"), "pages");
    assert_eq!(glob_base("site/docs/**/*.htm"), "site/docs");
    assert_eq!(glob_base("*.html"), ".");
    assert_eq!(glob_base("/tmp/x?.html"), "/tmp");
    assert_eq!(glob_base("/*.html"), "/");
}

#[test]
fn run_results_report_in_order() {
    let changed = JobOutcome::Done { has_errors: false, changed: Some(true) };
    match run_result(&vec![changed, JobOutcome::ConfigFailure], true) {
        Err(CliError::Config(m)) => assert_eq!(m, "--check failed: 1 output(s) changed"),
        _ => panic!("expected a check failure"),
    }
    match run_result(&vec![JobOutcome::ConfigFailure, JobOutcome::ConfigFailure, JobOutcome::OtherFailure], false) {
        Err(CliError::Config(m)) => assert_eq!(m, "2 config/output error(s) occurred"),
        _ => panic!("expected a configuration failure"),
    }
    let failed = JobOutcome::Done { has_errors: true, changed: None };
    match run_result(&vec![failed, JobOutcome::OtherFailure], false) {
        Err(CliError::Conversion(Error::Other(m))) => assert_eq!(m, "2 conversion(s) failed"),
        _ => panic!("expected a conversion failure"),
    }
    assert!(run_result(&vec![changed], false).is_ok());
}

#[test]
fn inputs_are_classified() {
    assert!(is_glob("docs/*.html"));
    assert!(is_glob("page?.htm"));
    assert!(!is_glob("docs/page.html"));
    assert!(is_html(Some("HTM")));
    assert!(is_html(Some("html")));
    assert!(!is_html(Some("md")));
    assert!(!is_html(None));
}

#[test]
fn hashes_are_sha256_hex() {
    assert_eq!(
        hash_bytes(b"abc"),
        "ba7816bf8f01cfea414140de5dae2223b00361a396177a9cb410ff61f20015ad"
    );
}

#[test]
fn inputs_decode_by_bom_or_label() {
    let utf16 = [0xff, 0xfe, b'h', 0, b'i', 0];
    assert_eq!(decode_html(&utf16, None, "a.html").unwrap(), "hi");
    assert_eq!(decode_html("caf\u{e9}".as_bytes(), None, "a.html").unwrap(), "caf\u{e9}");
    assert_eq!(decode_html(&[0xe9], Some("windows-1252"), "a.html").unwrap(), "\u{e9}");
    match decode_html(b"x", Some("no-such-encoding"), "a.html") {
        Err(CliError::Config(m)) => assert_eq!(m, "unknown encoding: no-such-encoding"),
        _ => panic!("expected an unknown encoding"),
    }
    match decode_html(&[b'a', 0xff], None, "bad.html") {
        Err(CliError::Config(m)) => assert_eq!(m, "could not decode bad.html as UTF-8 (invalid byte sequence)"),
        _ => panic!("expected a decoding failure"),
    }
}

#[test]
fn validation_reports_the_first_problem() {
    let mut o = ConversionOptions::default();
    o.cleanup.remove_selectors = vec!["p".to_string(), "[[".to_string()];
    match o.validate() {
        Err(Error::Config(m)) => assert!(m.starts_with("invalid selector in cleanup.remove-selectors ('[['): ")),
        _ => panic!("expected a selector error"),
    }
    let mut o = ConversionOptions::default();
    o.cleanup.base_url = Some("not a url".to_string());
    match o.validate() {
        Err(Error::Config(m)) => assert!(m.starts_with("invalid base-url 'not a url': ")),
        _ => panic!("expected a base URL error"),
    }
    let mut o = ConversionOptions::default();
    o.semantic.code_language_patterns = vec!["ok".to_string(), "(".to_string()];
    match o.validate() {
        Err(Error::Config(m)) => assert!(m.starts_with("invalid regex in code-language-patterns[1] ('('): ")),
        _ => panic!("expected a regex error"),
    }
    assert!(ConversionOptions::default().validate().is_ok());
}

#[test]
fn invalid_selectors_warn_unless_strict() {
    let mut o = ConversionOptions::default();
    o.cleanup.remove_selectors = vec!["[[".to_string()];
    let r = convert("<p>kept</p>", &o).unwrap();
    assert!(r.markdown.contains("kept"));
    assert!(!r.diagnostics.is_empty());
    o.strict = true;
    assert!(matches!(convert("<p>kept</p>", &o), Err(Error::Selector(_))));
    let mut k = ConversionOptions::default();
    k.cleanup.keep_only_selectors = vec!["[[".to_string()];
    k.strict = true;
    assert!(matches!(convert("<p>kept</p>", &k), Err(Error::Selector(_))));
}

#[test]
fn strict_input_limit_is_reported_first() {
    let mut o = ConversionOptions::default();
    o.strict = true;
    o.limits.max_input_bytes = 5;
    match convert("<p>hello</p>", &o) {
        Err(Error::LimitExceeded(m)) => assert_eq!(m, "input size 12 exceeds limit 5"),
        _ => panic!("expected the input limit"),
    }
}

#[test]
fn post_processing_trims_lines_and_settles_the_final_newline() {
    let mut o = ConversionOptions::default();
    assert_eq!(post_process("a  \nb\t\n\n", &o), "a\nb\n");
    assert_eq!(post_process("no newline", &o), "no newline\n");
    o.render.final_newline = FinalNewlinePolicy::Suppress;
    assert_eq!(post_process("a  \nb\t\n\n", &o), "a\nb");
    o.render.final_newline = FinalNewlinePolicy::Preserve;
    assert_eq!(post_process("x \n", &o), "x");
}

#[test]
fn handlers_are_tried_from_the_last_registered() {
    let obsidian = Renderer::new(&ConversionOptions::obsidian());
    assert_eq!(obsidian.handler_chain("a"), vec![HandlerKind::Anchor, HandlerKind::Wikilink]);
    assert_eq!(obsidian.find_handler("a", 0), Some(HandlerKind::Wikilink));
    assert_eq!(obsidian.find_handler("a", 1), Some(HandlerKind::Anchor));
    assert_eq!(obsidian.find_handler("a", 2), None);
    let plain = Renderer::new(&ConversionOptions::default());
    assert_eq!(plain.handler_chain("table"), vec![HandlerKind::Table, HandlerKind::TableMarker]);
    assert_eq!(plain.handler_chain("del"), Vec::<HandlerKind>::new());
    let gfm = Renderer::new(&ConversionOptions::gfm());
    assert_eq!(gfm.handler_chain("del"), vec![HandlerKind::Strike]);
}

#[test]
fn metadata_is_read_only_when_asked() {
    let html = "<html><head><title> Page </title><meta name=\"description\" content=\" About \"></head><body><p>x</p></body></html>";
    let plain = convert(html, &ConversionOptions::default()).unwrap();
    assert_eq!(plain.title, None);
    assert_eq!(plain.description, None);
    let mut o = ConversionOptions::default();
    o.cleanup.metadata.title = true;
    o.cleanup.metadata.description = true;
    let r = convert(html, &o).unwrap();
    assert_eq!(r.title, Some("Page".to_string()));
    assert_eq!(r.description, Some("About".to_string()));
}

#[test]
fn similar_inline_siblings_merge_into_the_first() {
    let children = vec![
        element("b", vec![text("a")]),
        element("strong", vec![text("b")]),
        element("i", vec![text("c")]),
        text(" tail"),
    ];
    let e = combine_children(&children);
    assert_eq!(e.len(), 3);
    assert_eq!((e[0].index, e[0].merged.clone()), (0, Some("ab".to_string())));
    assert_eq!((e[1].index, e[1].merged.clone()), (2, None));
    assert_eq!((e[2].index, e[2].merged.clone()), (3, None));
    let md = convert("<p><b>a</b><b>b</b> c</p>", &ConversionOptions::default()).unwrap().markdown;
    assert_eq!(md, "**ab** c\n");
}

#[test]
fn run_modes_and_progress_lines() {
    assert!(matches!(mode_conflict(true, true), Some(CliError::Config(m)) if m == "--dry-run and --check are mutually exclusive"));
    assert!(mode_conflict(true, false).is_none());
    assert_eq!(progress_line(false, false, Some("a.html"), true, true), Some("htmlmd: skipped a.html (output exists)".to_string()));
    assert_eq!(progress_line(false, false, Some("a.html"), false, true), Some("htmlmd: converted a.html".to_string()));
    assert_eq!(progress_line(false, false, Some("a.html"), false, false), None);
    assert_eq!(progress_line(true, false, Some("a.html"), true, true), None);
    assert_eq!(progress_line(false, true, Some("a.html"), true, true), None);
    assert_eq!(progress_line(false, false, None, true, true), None);
}

#[test]
fn batches_are_several_inputs_a_glob_or_a_directory() {
    let one = vec!["page.html".to_string()];
    assert!(!is_batch(&one, &vec![false]));
    assert!(is_batch(&one, &vec![true]));
    assert!(is_batch(&vec!["*.html".to_string()], &vec![false]));
    assert!(is_batch(&vec!["a.html".to_string(), "b.html".to_string()], &vec![false, false]));
}

#[test]
fn configuration_files_are_toml_or_json() {
    assert!(matches!(config_format("c.toml", Some("toml")), Ok(ConfigFormat::Toml)));
    assert!(matches!(config_format("c.json", Some("json")), Ok(ConfigFormat::Json)));
    match config_format("c.yaml", Some("yaml")) {
        Err(CliError::Config(m)) => assert_eq!(m, "unsupported config format: c.yaml. Use .toml or .json"),
        _ => panic!("expected an unsupported format"),
    }
    assert!(config_format("config", None).is_err());
    match config_not_found("x.toml") {
        CliError::Config(m) => assert_eq!(m, "configuration file not found: x.toml"),
        _ => panic!("expected a configuration error"),
    }
}

#[test]
fn strict_mode_checks_every_custom_rule_selector() {
    let mut o = ConversionOptions::default();
    o.extension.custom_rules = vec![
        CustomRule { selectors: vec!["p".to_string()], priority: 9, ..CustomRule::default() },
        CustomRule { selectors: vec!["[[".to_string()], priority: 1, ..CustomRule::default() },
    ];
    let r = convert("<p>gone</p><div>kept</div>", &o).unwrap();
    assert!(r.markdown.contains("kept"));
    assert!(!r.diagnostics.is_empty());
    o.strict = true;
    assert!(matches!(convert("<p>gone</p><div>kept</div>", &o), Err(Error::Selector(_))));
}
