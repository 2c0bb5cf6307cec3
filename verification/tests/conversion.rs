use htmlmd::pipeline::convert;
use htmlmd::ConversionOptions;

#[test]
fn basic_heading() {
    let md = convert("<h1>Hello World</h1>", &ConversionOptions::default()).unwrap();
    assert_eq!(md.markdown.trim(), "# Hello World");
}

#[test]
fn gfm_table() {
    let html = "<table><tr><th>A</th><th>B</th></tr><tr><td>1</td><td>2</td></tr></table>";
    let md = convert(html, &ConversionOptions::gfm()).unwrap();
    assert!(md.markdown.contains("| A | B |"));
    assert!(md.markdown.contains("| 1 | 2 |"));
}

#[test]
fn plain_text_keeps_literal_metacharacters() {
    let html = "<p>snake_case a*b x^2 C++ 2_10</p>";
    let md = convert(html, &ConversionOptions::plain_text()).unwrap();
    assert_eq!(md.markdown.trim(), "snake_case a*b x^2 C++ 2_10");
}

#[test]
fn plain_text_keeps_code_content() {
    let html = "<pre><code>let a = b * c;</code></pre><p>uses <code>x_y</code></p>";
    let md = convert(html, &ConversionOptions::plain_text()).unwrap();
    assert!(md.markdown.contains("let a = b * c;"), "{}", md.markdown);
    assert!(md.markdown.contains("uses x_y"), "{}", md.markdown);
}

#[test]
fn plain_text_strips_paired_markers() {
    let html = "<p><strong>bold</strong> and <em>em</em> and <mark>hi</mark></p>";
    let md = convert(html, &ConversionOptions::plain_text()).unwrap();
    assert_eq!(md.markdown.trim(), "bold and em and hi");
}

#[test]
fn obsidian_frontmatter_is_yaml_safe() {
    let html = "<html><head><title>Rust: a story #1</title></head>\
                <body><p>hi</p></body></html>";
    let mut options = ConversionOptions::obsidian();
    options.cleanup.metadata.title = true;
    let md = convert(html, &options).unwrap();
    assert!(
        md.markdown.starts_with("---\ntitle: \"Rust: a story #1\"\n---"),
        "{}",
        md.markdown
    );
}

#[test]
fn mdx_escapes_jsx_openers() {
    let html = "<p>use x = 1 and a &lt; b</p>";
    let md = convert(html, &ConversionOptions::mdx_safe()).unwrap();
    assert!(md.markdown.contains("a < b"), "{}", md.markdown);
}

#[test]
fn remove_script_tag() {
    let md = convert("<p>hello</p><script>alert(1)</script>", &ConversionOptions::default()).unwrap();
    assert!(!md.markdown.contains("script"));
    assert!(md.markdown.contains("hello"));
}

#[test]
fn paragraphs_lists_and_links() {
    let html = "<p>One <strong>two</strong> <em>three</em></p><ul><li>a</li><li>b</li></ul>\
                <ol start=\"3\"><li>x</li><li>y</li></ol><p><a href=\"https://e.com/x\" title=\"T\">link</a></p>";
    let md = convert(html, &ConversionOptions::default()).unwrap();
    println!("{}", md.markdown);
    assert!(md.markdown.contains("One **two** *three*"), "{}", md.markdown);
    assert!(md.markdown.contains("[link](https://e.com/x)"), "{}", md.markdown);
    assert!(md.markdown.contains("-   a\n-   b"), "{}", md.markdown);
    assert!(md.markdown.contains("3.  x"), "{}", md.markdown);
}

#[test]
fn code_blocks_and_quotes() {
    let html = "<pre><code class=\"language-rust\">fn main() {}\n</code></pre><blockquote><p>quoted</p></blockquote>\
                <p>inline <code>a`b</code></p><hr><img src=\"a b.png\" alt=\"pic\">";
    let md = convert(html, &ConversionOptions::default()).unwrap();
    println!("{}", md.markdown);
    assert!(md.markdown.contains("```rust\nfn main() {}\n```"), "{}", md.markdown);
    assert!(md.markdown.contains("> quoted"), "{}", md.markdown);
    assert!(md.markdown.contains("``a`b``"), "{}", md.markdown);
    assert!(md.markdown.contains("![pic](<a b.png>)"), "{}", md.markdown);
}
