//! Configuration options for HTML to Markdown conversion.
//!
//! `ConversionOptions` is the central configuration type. Every field has a
//! documented default; the profile constructors (`gfm`, `extended`, ...) and
//! `apply_profile_defaults` derive the settings a profile implies.

use vstd::prelude::*;
use indexmap::IndexMap;

verus! {

/// Output profile. Determines the default set of Markdown extensions and rules.
#[derive(Debug, Clone, Copy, PartialEq, Eq, Structural)]
pub enum OutputProfile {
    /// Conservative portable CommonMark.
    Commonmark,
    /// GitHub Flavored Markdown (tables, strikethrough, task lists, autolinks).
    Gfm,
    /// GFM plus footnotes, definition lists, alerts, code-block attributes, math.
    Extended,
    /// Pandoc-friendly extensions and attributes.
    Pandoc,
    /// Obsidian-style wikilinks, callouts, frontmatter.
    Obsidian,
    /// Escape or retain constructs that could be interpreted as JSX/MDX.
    MdxSafe,
    /// Readable plain text output.
    PlainText,
}

impl Default for OutputProfile {
    fn default() -> (r: Self)
        ensures
            r == OutputProfile::Commonmark,
    {
        OutputProfile::Commonmark
    }
}

/// Heading marker style.
#[derive(Debug, Clone, Copy, PartialEq, Eq, Structural)]
pub enum HeadingStyle {
    /// ATX style: `# Heading`.
    Atx,
    /// Setext style: underlined H1/H2.
    Setex,
    /// Keep the original HTML heading representation when no Markdown equivalent exists.
    Keep,
}

impl Default for HeadingStyle {
    fn default() -> (r: Self)
        ensures
            r == HeadingStyle::Atx,
    {
        HeadingStyle::Atx
    }
}

/// Bullet list marker.
#[derive(Debug, Clone, Copy, PartialEq, Eq, Structural)]
pub enum BulletMarker {
    /// `- item`
    Hyphen,
    /// `* item`
    Asterisk,
    /// `+ item`
    Plus,
}

impl Default for BulletMarker {
    fn default() -> (r: Self)
        ensures
            r == BulletMarker::Hyphen,
    {
        BulletMarker::Hyphen
    }
}

/// Ordered list numbering strategy.
#[derive(Debug, Clone, Copy, PartialEq, Eq, Structural)]
pub enum OrderedListMarker {
    /// `1. 2. 3.`
    Decimal,
    /// `01.`
    ZeroPadded,
    /// Roman numerals.
    Roman,
    /// `a.`/`A.`
    Alpha,
    /// `1)`
    OneDot,
}

impl Default for OrderedListMarker {
    fn default() -> (r: Self)
        ensures
            r == OrderedListMarker::Decimal,
    {
        OrderedListMarker::Decimal
    }
}

/// Inline emphasis marker.
#[derive(Debug, Clone, Copy, PartialEq, Eq, Structural)]
pub enum EmphasisMarker {
    /// `*emphasis*`
    Asterisk,
    /// `_emphasis_`
    Underscore,
}

impl Default for EmphasisMarker {
    fn default() -> (r: Self)
        ensures
            r == EmphasisMarker::Asterisk,
    {
        EmphasisMarker::Asterisk
    }
}

/// Strong emphasis marker.
#[derive(Debug, Clone, Copy, PartialEq, Eq, Structural)]
pub enum StrongMarker {
    /// `**strong**`
    Asterisk,
    /// `__strong__`
    Underscore,
}

impl Default for StrongMarker {
    fn default() -> (r: Self)
        ensures
            r == StrongMarker::Asterisk,
    {
        StrongMarker::Asterisk
    }
}

/// Code fence delimiter.
#[derive(Debug, Clone, Copy, PartialEq, Eq, Structural)]
pub enum CodeFence {
    /// Backtick fences.
    Backticks,
    /// Tilde fences.
    Tildes,
}

impl Default for CodeFence {
    fn default() -> (r: Self)
        ensures
            r == CodeFence::Backticks,
    {
        CodeFence::Backticks
    }
}

/// Hard line break representation.
#[derive(Debug, Clone, Copy, PartialEq, Eq, Structural)]
pub enum HardBreakStyle {
    /// Two trailing spaces.
    TwoSpaces,
    /// Backslash.
    Backslash,
}

impl Default for HardBreakStyle {
    fn default() -> (r: Self)
        ensures
            r == HardBreakStyle::TwoSpaces,
    {
        HardBreakStyle::TwoSpaces
    }
}

/// Horizontal rule style.
#[derive(Debug, Clone, Copy, PartialEq, Eq, Structural)]
pub enum HrStyle {
    /// `---`
    Dashes,
    /// `***`
    Asterisks,
    /// `___`
    Underscores,
}

impl Default for HrStyle {
    fn default() -> (r: Self)
        ensures
            r == HrStyle::Dashes,
    {
        HrStyle::Dashes
    }
}

/// Markdown escaping mode.
#[derive(Debug, Clone, Copy, PartialEq, Eq, Structural)]
pub enum EscapingMode {
    /// Escape only when required by the target profile.
    Minimal,
    /// Escape common ambiguous characters.
    Conservative,
    /// Escape aggressively for maximum safety.
    Strict,
}

impl Default for EscapingMode {
    fn default() -> (r: Self)
        ensures
            r == EscapingMode::Minimal,
    {
        EscapingMode::Minimal
    }
}

/// HTML character entity policy.
#[derive(Debug, Clone, Copy, PartialEq, Eq, Structural)]
pub enum EntityPolicy {
    /// Decode entities to Unicode.
    Decode,
    /// Preserve the original entity references.
    Preserve,
}

impl Default for EntityPolicy {
    fn default() -> (r: Self)
        ensures
            r == EntityPolicy::Decode,
    {
        EntityPolicy::Decode
    }
}

/// Unicode normalization policy.
#[derive(Debug, Clone, Copy, PartialEq, Eq, Structural)]
pub enum UnicodeNormalization {
    /// No normalization.
    Off,
    /// NFC.
    Nfc,
    /// NFKC.
    Nfkc,
}

impl Default for UnicodeNormalization {
    fn default() -> (r: Self)
        ensures
            r == UnicodeNormalization::Off,
    {
        UnicodeNormalization::Off
    }
}

/// Smart punctuation handling.
#[derive(Debug, Clone, Copy, PartialEq, Eq, Structural)]
pub enum SmartPunctuation {
    /// Keep as-is.
    Preserve,
    /// Normalize to curly quotes and em-dashes.
    Normalize,
    /// Convert to ASCII equivalents.
    Ascii,
}

impl Default for SmartPunctuation {
    fn default() -> (r: Self)
        ensures
            r == SmartPunctuation::Preserve,
    {
        SmartPunctuation::Preserve
    }
}

/// Trailing whitespace policy.
#[derive(Debug, Clone, Copy, PartialEq, Eq, Structural)]
pub enum WhitespacePolicy {
    /// Trim trailing whitespace.
    Trim,
    /// Preserve trailing whitespace.
    Preserve,
}

impl Default for WhitespacePolicy {
    fn default() -> (r: Self)
        ensures
            r == WhitespacePolicy::Trim,
    {
        WhitespacePolicy::Trim
    }
}

/// Final newline policy.
#[derive(Debug, Clone, Copy, PartialEq, Eq, Structural)]
pub enum FinalNewlinePolicy {
    /// Ensure a single trailing newline.
    Ensure,
    /// Preserve the original final newline state.
    Preserve,
    /// Suppress the final newline.
    Suppress,
}

impl Default for FinalNewlinePolicy {
    fn default() -> (r: Self)
        ensures
            r == FinalNewlinePolicy::Ensure,
    {
        FinalNewlinePolicy::Ensure
    }
}

/// Link/reference style.
#[derive(Debug, Clone, Copy, PartialEq, Eq, Structural)]
pub enum LinkStyle {
    /// `[text](url)`
    Inline,
    /// `[text][id]` with definitions at the configured placement.
    Reference,
    /// `[text][]`
    CollapsedReference,
    /// `[text]`
    ShortcutReference,
}

impl Default for LinkStyle {
    fn default() -> (r: Self)
        ensures
            r == LinkStyle::Inline,
    {
        LinkStyle::Inline
    }
}

/// Placement of reference link definitions.
#[derive(Debug, Clone, Copy, PartialEq, Eq, Structural)]
pub enum ReferencePlacement {
    /// At the end of the document.
    End,
    /// At the end of the nearest section.
    SectionEnd,
    /// Immediately after the link.
    Adjacent,
}

impl Default for ReferencePlacement {
    fn default() -> (r: Self)
        ensures
            r == ReferencePlacement::End,
    {
        ReferencePlacement::End
    }
}

/// How images are rendered.
#[derive(Debug, Clone, Copy, PartialEq, Eq, Structural)]
pub enum ImageMode {
    /// `![alt](url)`
    Inline,
    /// Reference-style images.
    Reference,
    /// Drop images entirely.
    Skip,
    /// Render only alt text.
    AltText,
}

impl Default for ImageMode {
    fn default() -> (r: Self)
        ensures
            r == ImageMode::Inline,
    {
        ImageMode::Inline
    }
}

/// How `title` attributes are handled.
#[derive(Debug, Clone, Copy, PartialEq, Eq, Structural)]
pub enum TitleHandling {
    /// Ignore titles.
    Ignore,
    /// Include titles inline.
    Inline,
    /// Move titles to reference definitions.
    Reference,
}

impl Default for TitleHandling {
    fn default() -> (r: Self)
        ensures
            r == TitleHandling::Ignore,
    {
        TitleHandling::Ignore
    }
}

/// URL escaping / sanitization mode.
#[derive(Debug, Clone, Copy, PartialEq, Eq, Structural)]
pub enum UrlEscaping {
    /// Escape only when necessary.
    Auto,
    /// Never escape URLs.
    Never,
    /// Always percent-encode.
    Always,
}

impl Default for UrlEscaping {
    fn default() -> (r: Self)
        ensures
            r == UrlEscaping::Auto,
    {
        UrlEscaping::Auto
    }
}

/// Email address handling.
#[derive(Debug, Clone, Copy, PartialEq, Eq, Structural)]
pub enum EmailHandling {
    /// Convert to `mailto:` links.
    Mailto,
    /// Render as plain text.
    Plain,
    /// Obfuscate.
    Obfuscate,
}

impl Default for EmailHandling {
    fn default() -> (r: Self)
        ensures
            r == EmailHandling::Mailto,
    {
        EmailHandling::Mailto
    }
}

/// What to do with unsupported raw HTML.
#[derive(Debug, Clone, Copy, PartialEq, Eq, Structural)]
pub enum RawHtmlPolicy {
    /// Drop unsupported HTML.
    Drop,
    /// Preserve raw HTML in the output.
    Preserve,
    /// Escape HTML to entities.
    Escape,
    /// Embed HTML faithfully when round-tripping matters.
    Faithful,
}

impl Default for RawHtmlPolicy {
    fn default() -> (r: Self)
        ensures
            r == RawHtmlPolicy::Drop,
    {
        RawHtmlPolicy::Drop
    }
}

/// HTML comment handling.
#[derive(Debug, Clone, Copy, PartialEq, Eq, Structural)]
pub enum CommentPolicy {
    /// Drop comments.
    Drop,
    /// Preserve raw `<!-- -->`.
    Preserve,
    /// Convert to Markdown comments.
    Markdown,
}

impl Default for CommentPolicy {
    fn default() -> (r: Self)
        ensures
            r == CommentPolicy::Drop,
    {
        CommentPolicy::Drop
    }
}

/// DOCTYPE / XML processing instruction handling.
#[derive(Debug, Clone, Copy, PartialEq, Eq, Structural)]
pub enum DoctypePolicy {
    /// Drop declarations.
    Drop,
    /// Preserve them.
    Preserve,
}

impl Default for DoctypePolicy {
    fn default() -> (r: Self)
        ensures
            r == DoctypePolicy::Drop,
    {
        DoctypePolicy::Drop
    }
}

/// Hidden content policy.
#[derive(Debug, Clone, Copy, PartialEq, Eq, Structural)]
pub enum HiddenContentPolicy {
    /// Include hidden content.
    Show,
    /// Remove content that is CSS hidden, aria-hidden, or has the hidden attribute.
    Hide,
}

impl Default for HiddenContentPolicy {
    fn default() -> (r: Self)
        ensures
            r == HiddenContentPolicy::Show,
    {
        HiddenContentPolicy::Show
    }
}

/// Responsive image selection policy.
#[derive(Debug, Clone, Copy, PartialEq, Eq, Structural)]
pub enum ResponsiveImagePolicy {
    /// Pick the first `srcset` candidate.
    FirstSrcset,
    /// Pick the largest descriptor.
    Largest,
    /// Leave the `srcset` attribute as-is.
    PreserveSrcset,
}

impl Default for ResponsiveImagePolicy {
    fn default() -> (r: Self)
        ensures
            r == ResponsiveImagePolicy::FirstSrcset,
    {
        ResponsiveImagePolicy::FirstSrcset
    }
}

/// Generic media handling.
#[derive(Debug, Clone, Copy, PartialEq, Eq, Structural)]
pub enum MediaPolicy {
    /// Convert to inline Markdown where possible.
    Inline,
    /// Convert to a plain link.
    Link,
    /// Replace with a placeholder.
    Placeholder,
    /// Drop the element.
    Drop,
}

impl Default for MediaPolicy {
    fn default() -> (r: Self)
        ensures
            r == MediaPolicy::Inline,
    {
        MediaPolicy::Inline
    }
}

/// Form handling.
#[derive(Debug, Clone, Copy, PartialEq, Eq, Structural)]
pub enum FormHandling {
    /// Drop the form.
    Drop,
    /// Render readable text labels and values.
    Readable,
    /// Render as checklist.
    Checklist,
}

impl Default for FormHandling {
    fn default() -> (r: Self)
        ensures
            r == FormHandling::Drop,
    {
        FormHandling::Drop
    }
}

/// `<details>` / `<summary>` handling.
#[derive(Debug, Clone, Copy, PartialEq, Eq, Structural)]
pub enum DetailsHandling {
    /// Expand details into body text.
    Expand,
    /// Keep only the summary line.
    SummaryOnly,
    /// Drop the entire element.
    Drop,
}

impl Default for DetailsHandling {
    fn default() -> (r: Self)
        ensures
            r == DetailsHandling::Expand,
    {
        DetailsHandling::Expand
    }
}

/// Policy for custom / unknown elements.
#[derive(Debug, Clone, Copy, PartialEq, Eq, Structural)]
pub enum CustomElementPolicy {
    /// Unwrap children.
    Unwrap,
    /// Drop the element.
    Drop,
    /// Preserve as raw HTML.
    PreserveHtml,
}

impl Default for CustomElementPolicy {
    fn default() -> (r: Self)
        ensures
            r == CustomElementPolicy::Unwrap,
    {
        CustomElementPolicy::Unwrap
    }
}

/// Table conversion strategy.
#[derive(Debug, Clone, Copy, PartialEq, Eq, Structural)]
pub enum TableHandling {
    /// GFM pipe tables.
    Gfm,
    /// Fall back to raw HTML.
    HtmlFallback,
    /// Flatten cells into paragraphs.
    Flatten,
    /// CSV-like text.
    CsvLike,
    /// Drop tables.
    Drop,
}

impl Default for TableHandling {
    fn default() -> (r: Self)
        ensures
            r == TableHandling::Gfm,
    {
        TableHandling::Gfm
    }
}

/// Strategy for rowspan / colspan.
#[derive(Debug, Clone, Copy, PartialEq, Eq, Structural)]
pub enum DifficultTableStrategy {
    /// Use raw HTML for complex tables.
    HtmlFallback,
    /// Replicate span cells.
    SpanCells,
    /// Flatten the table.
    Flatten,
}

impl Default for DifficultTableStrategy {
    fn default() -> (r: Self)
        ensures
            r == DifficultTableStrategy::HtmlFallback,
    {
        DifficultTableStrategy::HtmlFallback
    }
}

/// CSS-aware inline style conversion subset.
#[derive(Debug, Clone, Copy, PartialEq, Eq, Structural)]
pub enum InlineStyleSubset {
    /// Do not consider inline styles.
    Off,
    /// Convert a documented safe subset.
    Basic,
    /// Convert all recognized styles.
    All,
}

impl Default for InlineStyleSubset {
    fn default() -> (r: Self)
        ensures
            r == InlineStyleSubset::Off,
    {
        InlineStyleSubset::Off
    }
}

/// Semantic tag handling.
#[derive(Debug, Clone, Copy, PartialEq, Eq, Structural)]
pub enum SemanticTagPolicy {
    /// Convert to Markdown equivalents.
    Convert,
    /// Preserve as raw HTML.
    PreserveHtml,
    /// Drop the element.
    Drop,
}

impl Default for SemanticTagPolicy {
    fn default() -> (r: Self)
        ensures
            r == SemanticTagPolicy::Convert,
    {
        SemanticTagPolicy::Convert
    }
}

/// Math output mode.
#[derive(Debug, Clone, Copy, PartialEq, Eq, Structural)]
pub enum MathOutput {
    /// Preserve original HTML/math markup.
    PreserveHtml,
    /// `$...$`
    InlineDollar,
    /// `$$...$$`
    BlockDollar,
    /// Fenced math block.
    Fenced,
    /// Plain text.
    Plain,
}

impl Default for MathOutput {
    fn default() -> (r: Self)
        ensures
            r == MathOutput::PreserveHtml,
    {
        MathOutput::PreserveHtml
    }
}

/// Mermaid / diagram handling.
#[derive(Debug, Clone, Copy, PartialEq, Eq, Structural)]
pub enum MermaidPolicy {
    /// Output fenced code blocks with language identifier.
    Fenced,
    /// Preserve HTML.
    PreserveHtml,
    /// Drop.
    Drop,
}

impl Default for MermaidPolicy {
    fn default() -> (r: Self)
        ensures
            r == MermaidPolicy::Fenced,
    {
        MermaidPolicy::Fenced
    }
}

/// Embedded social/media widgets.
#[derive(Debug, Clone, Copy, PartialEq, Eq, Structural)]
pub enum EmbeddedMediaPolicy {
    /// Preserve the link if one exists.
    PreserveLink,
    /// Drop the widget.
    Drop,
    /// Render a placeholder.
    Placeholder,
}

impl Default for EmbeddedMediaPolicy {
    fn default() -> (r: Self)
        ensures
            r == EmbeddedMediaPolicy::PreserveLink,
    {
        EmbeddedMediaPolicy::PreserveLink
    }
}

/// Action for a custom tag rule.
#[derive(Debug, Clone, Copy, PartialEq, Eq, Structural)]
pub enum CustomRuleAction {
    /// Drop the element.
    Drop,
    /// Unwrap children.
    Unwrap,
    /// Render children as plain text.
    Text,
    /// Preserve raw HTML.
    Html,
    /// Render a Markdown template.
    MarkdownTemplate,
    /// Render as a fenced block.
    FencedBlock,
    /// Render as a link.
    Link,
    /// Render as an image.
    Image,
}

impl Default for CustomRuleAction {
    fn default() -> (r: Self)
        ensures
            r == CustomRuleAction::Drop,
    {
        CustomRuleAction::Drop
    }
}
/// Line wrapping policy.
#[derive(Debug, Clone, Copy, PartialEq, Eq, Structural)]
pub enum LineWrapping {
    /// No wrapping.
    Off,
    /// Hard wrap at a fixed column.
    Fixed(u32),
    /// Wrap at word boundaries near the column.
    Semantic(u32),
}

impl Default for LineWrapping {
    fn default() -> (r: Self)
        ensures
            r == LineWrapping::Off,
    {
        LineWrapping::Off
    }
}

// ---------------------------------------------------------------------------
// Per-tag behavior map
// ---------------------------------------------------------------------------

/// `indexmap::IndexMap`, an insertion-ordered map.
#[verifier::external_type_specification]
#[verifier::external_body]
#[verifier::reject_recursive_types(K)]
#[verifier::reject_recursive_types(V)]
#[verifier::reject_recursive_types(S)]
pub struct ExIndexMap<K, V, S>(IndexMap<K, V, S>);

/// The entries of a tag-behavior map, in insertion order, by view.
pub uninterp spec fn tag_behavior_entries(m: IndexMap<String, String>) -> Seq<(Seq<char>, Seq<char>)>;

/// `IndexMap::iter`: the entries of a tag-behavior map, in insertion order.
#[verifier::external_body]
pub fn tag_behavior_list(m: &IndexMap<String, String>) -> (r: Vec<(String, String)>)
    ensures
        r@.map_values(|e: (String, String)| (e.0@, e.1@)) == tag_behavior_entries(*m),
{
    m.iter().map(|(k, v)| (k.clone(), v.clone())).collect()
}

/// `IndexMap::new`: the empty map.
#[verifier::external_body]
fn empty_tag_behavior() -> (m: IndexMap<String, String>)
    ensures
        tag_behavior_entries(m) == Seq::<(Seq<char>, Seq<char>)>::empty(),
{
    IndexMap::new()
}

// ---------------------------------------------------------------------------
// Option groups
// ---------------------------------------------------------------------------

/// The views of a list of strings.
pub open spec fn views(v: Vec<String>) -> Seq<Seq<char>> {
    v@.map_values(|s: String| s@)
}

/// The view of an optional string.
pub open spec fn opt_view(o: Option<String>) -> Option<Seq<char>> {
    match o {
        Some(s) => Some(s@),
        None => None,
    }
}

/// Metadata extraction options.
#[derive(Debug, Clone, Copy, PartialEq, Eq, Structural)]
pub struct MetadataOptions {
    pub title: bool,
    pub description: bool,
    pub canonical_url: bool,
    pub open_graph_title: bool,
    pub open_graph_description: bool,
    pub open_graph_image: bool,
    pub twitter_title: bool,
    pub twitter_description: bool,
}

pub open spec fn metadata_default() -> MetadataOptions {
    MetadataOptions {
        title: false,
        description: false,
        canonical_url: false,
        open_graph_title: false,
        open_graph_description: false,
        open_graph_image: false,
        twitter_title: false,
        twitter_description: false,
    }
}

impl Default for MetadataOptions {
    fn default() -> (r: Self)
        ensures
            r == metadata_default(),
    {
        MetadataOptions {
            title: false,
            description: false,
            canonical_url: false,
            open_graph_title: false,
            open_graph_description: false,
            open_graph_image: false,
            twitter_title: false,
            twitter_description: false,
        }
    }
}

/// A single URL rewrite rule.
#[derive(Debug, Clone)]
pub struct UrlRewriteRule {
    pub pattern: String,
    pub replacement: String,
}

impl Default for UrlRewriteRule {
    fn default() -> (r: Self)
        ensures
            r.pattern@.len() == 0,
            r.replacement@.len() == 0,
    {
        UrlRewriteRule { pattern: String::new(), replacement: String::new() }
    }
}

/// Safety and size limits. Zero means unlimited.
#[derive(Debug, Clone, Copy, PartialEq, Eq, Structural)]
pub struct Limits {
    /// Maximum input size in bytes.
    pub max_input_bytes: u64,
    /// Maximum output size in bytes.
    pub max_output_bytes: u64,
    /// Maximum DOM depth.
    pub max_dom_depth: u32,
    /// Maximum DOM node count.
    pub max_node_count: u64,
    /// Maximum length of a single attribute value.
    pub max_attribute_len: u64,
}

pub open spec fn limits_default() -> Limits {
    Limits {
        max_input_bytes: 0,
        max_output_bytes: 0,
        max_dom_depth: 256,
        max_node_count: 0,
        max_attribute_len: 0,
    }
}

impl Default for Limits {
    fn default() -> (r: Self)
        ensures
            r == limits_default(),
    {
        Limits {
            max_input_bytes: 0,
            max_output_bytes: 0,
            max_dom_depth: 256,
            max_node_count: 0,
            max_attribute_len: 0,
        }
    }
}

/// Math detection and output options.
#[derive(Debug, Clone)]
pub struct MathOptions {
    pub enabled: bool,
    pub output: MathOutput,
    pub mathjax_selectors: Vec<String>,
    pub katex_selectors: Vec<String>,
    pub mathml_selectors: Vec<String>,
    pub custom_selectors: Vec<String>,
}

/// The default math options: disabled, preserve HTML, no selectors.
pub open spec fn is_default_math(m: MathOptions) -> bool {
    &&& !m.enabled
    &&& m.output == MathOutput::PreserveHtml
    &&& m.mathjax_selectors@.len() == 0
    &&& m.katex_selectors@.len() == 0
    &&& m.mathml_selectors@.len() == 0
    &&& m.custom_selectors@.len() == 0
}

/// The math options the extended profiles enable: on, `$...$`, no selectors.
pub open spec fn is_extended_math(m: MathOptions) -> bool {
    &&& m.enabled
    &&& m.output == MathOutput::InlineDollar
    &&& m.mathjax_selectors@.len() == 0
    &&& m.katex_selectors@.len() == 0
    &&& m.mathml_selectors@.len() == 0
    &&& m.custom_selectors@.len() == 0
}

impl Default for MathOptions {
    fn default() -> (r: Self)
        ensures
            is_default_math(r),
    {
        MathOptions {
            enabled: false,
            output: MathOutput::PreserveHtml,
            mathjax_selectors: Vec::new(),
            katex_selectors: Vec::new(),
            mathml_selectors: Vec::new(),
            custom_selectors: Vec::new(),
        }
    }
}

/// Is `m` equal to the default math options?
pub fn math_is_default(m: &MathOptions) -> (b: bool)
    ensures
        b == is_default_math(*m),
{
    !m.enabled && m.output == MathOutput::PreserveHtml && m.mathjax_selectors.len() == 0
        && m.katex_selectors.len() == 0 && m.mathml_selectors.len() == 0
        && m.custom_selectors.len() == 0
}

/// A custom conversion rule.
#[derive(Debug, Clone)]
pub struct CustomRule {
    pub selectors: Vec<String>,
    pub action: CustomRuleAction,
    pub template: Option<String>,
    pub priority: i32,
}

impl Default for CustomRule {
    fn default() -> (r: Self)
        ensures
            r.selectors@.len() == 0,
            r.action == CustomRuleAction::Drop,
            r.template.is_none(),
            r.priority == 0,
    {
        CustomRule {
            selectors: Vec::new(),
            action: CustomRuleAction::Drop,
            template: None,
            priority: 0,
        }
    }
}

/// Markdown rendering options.
#[derive(Debug, Clone, Copy, PartialEq, Eq, Structural)]
pub struct RenderOptions {
    pub heading_style: HeadingStyle,
    pub bullet_marker: BulletMarker,
    pub ordered_list_marker: OrderedListMarker,
    pub emphasis_marker: EmphasisMarker,
    pub strong_marker: StrongMarker,
    pub code_fence: CodeFence,
    /// Minimum number of backticks/tildes in a code fence.
    pub code_fence_min_length: u8,
    pub line_wrapping: LineWrapping,
    pub hard_break_style: HardBreakStyle,
    pub hr_style: HrStyle,
    pub escaping_mode: EscapingMode,
    pub character_entities: EntityPolicy,
    pub unicode_normalization: UnicodeNormalization,
    pub smart_punctuation: SmartPunctuation,
    pub trailing_whitespace: WhitespacePolicy,
    pub final_newline: FinalNewlinePolicy,
    /// 0 = no compaction, 1 = collapse 2+ blank lines, 2 = collapse all extra blanks.
    pub blank_line_compaction: u8,
    pub link_style: LinkStyle,
    pub reference_placement: ReferencePlacement,
    pub image_mode: ImageMode,
    pub title_attribute: TitleHandling,
    pub url_escaping: UrlEscaping,
    pub autolink_detection: bool,
    pub email_handling: EmailHandling,
    pub raw_html_policy: RawHtmlPolicy,
    pub comment_policy: CommentPolicy,
    pub doctype_policy: DoctypePolicy,
}

pub open spec fn render_default() -> RenderOptions {
    RenderOptions {
        heading_style: HeadingStyle::Atx,
        bullet_marker: BulletMarker::Hyphen,
        ordered_list_marker: OrderedListMarker::Decimal,
        emphasis_marker: EmphasisMarker::Asterisk,
        strong_marker: StrongMarker::Asterisk,
        code_fence: CodeFence::Backticks,
        code_fence_min_length: 3,
        line_wrapping: LineWrapping::Off,
        hard_break_style: HardBreakStyle::TwoSpaces,
        hr_style: HrStyle::Dashes,
        escaping_mode: EscapingMode::Minimal,
        character_entities: EntityPolicy::Decode,
        unicode_normalization: UnicodeNormalization::Off,
        smart_punctuation: SmartPunctuation::Preserve,
        trailing_whitespace: WhitespacePolicy::Trim,
        final_newline: FinalNewlinePolicy::Ensure,
        blank_line_compaction: 1,
        link_style: LinkStyle::Inline,
        reference_placement: ReferencePlacement::End,
        image_mode: ImageMode::Inline,
        title_attribute: TitleHandling::Ignore,
        url_escaping: UrlEscaping::Auto,
        autolink_detection: true,
        email_handling: EmailHandling::Mailto,
        raw_html_policy: RawHtmlPolicy::Drop,
        comment_policy: CommentPolicy::Drop,
        doctype_policy: DoctypePolicy::Drop,
    }
}

impl Default for RenderOptions {
    fn default() -> (r: Self)
        ensures
            r == render_default(),
    {
        RenderOptions {
            heading_style: HeadingStyle::Atx,
            bullet_marker: BulletMarker::Hyphen,
            ordered_list_marker: OrderedListMarker::Decimal,
            emphasis_marker: EmphasisMarker::Asterisk,
            strong_marker: StrongMarker::Asterisk,
            code_fence: CodeFence::Backticks,
            code_fence_min_length: 3,
            line_wrapping: LineWrapping::Off,
            hard_break_style: HardBreakStyle::TwoSpaces,
            hr_style: HrStyle::Dashes,
            escaping_mode: EscapingMode::Minimal,
            character_entities: EntityPolicy::Decode,
            unicode_normalization: UnicodeNormalization::Off,
            smart_punctuation: SmartPunctuation::Preserve,
            trailing_whitespace: WhitespacePolicy::Trim,
            final_newline: FinalNewlinePolicy::Ensure,
            blank_line_compaction: 1,
            link_style: LinkStyle::Inline,
            reference_placement: ReferencePlacement::End,
            image_mode: ImageMode::Inline,
            title_attribute: TitleHandling::Ignore,
            url_escaping: UrlEscaping::Auto,
            autolink_detection: true,
            email_handling: EmailHandling::Mailto,
            raw_html_policy: RawHtmlPolicy::Drop,
            comment_policy: CommentPolicy::Drop,
            doctype_policy: DoctypePolicy::Drop,
        }
    }
}

/// HTML cleanup and content selection options.
#[derive(Debug)]
pub struct CleanupOptions {
    /// CSS selectors whose matched elements are removed.
    pub remove_selectors: Vec<String>,
    /// CSS selectors whose matched elements are unwrapped (children kept).
    pub unwrap_selectors: Vec<String>,
    /// If non-empty, only content inside these selectors is retained.
    pub keep_only_selectors: Vec<String>,
    /// Extract only this selector (alias for keep-only with fallback to body).
    pub extract_selector: Option<String>,
    /// Selector used for main-content extraction.
    pub main_content_selector: Option<String>,
    /// Tag names that are always removed (e.g. script, style).
    pub remove_tags: Vec<String>,
    /// Per-tag behavior overrides: tag selector -> action.
    pub per_tag_behavior: IndexMap<String, String>,
    pub hidden_content_policy: HiddenContentPolicy,
    pub metadata: MetadataOptions,
    /// Base URL for resolving relative links and images.
    pub base_url: Option<String>,
    pub url_rewrite_rules: Vec<UrlRewriteRule>,
    /// Remove common tracking parameters.
    pub remove_tracking_params: bool,
    /// Additional tracking parameter names to strip.
    pub tracking_params: Vec<String>,
    /// URL schemes explicitly allowed.
    pub allowed_url_schemes: Vec<String>,
    /// URL schemes explicitly blocked.
    pub blocked_url_schemes: Vec<String>,
    /// Attributes to consider for lazy-loaded images.
    pub lazy_image_attrs: Vec<String>,
    pub responsive_image_policy: ResponsiveImagePolicy,
    /// Preserve width/height attributes in image alt/title metadata.
    pub preserve_image_metadata: bool,
    pub image_mode: ImageMode,
    pub media_policy: MediaPolicy,
    pub form_handling: FormHandling,
    pub details_handling: DetailsHandling,
    pub custom_element_policy: CustomElementPolicy,
}

/// The tags removed by default.
pub open spec fn default_remove_tags() -> Seq<Seq<char>> {
    seq![
        "head"@,
        "script"@,
        "style"@,
        "noscript"@,
        "template"@,
        "iframe"@,
        "svg"@,
        "canvas"@,
    ]
}

/// The URL schemes blocked by default.
pub open spec fn default_blocked_schemes() -> Seq<Seq<char>> {
    seq!["javascript"@, "data"@, "file"@]
}

/// The lazy-image attributes consulted by default.
pub open spec fn default_lazy_attrs() -> Seq<Seq<char>> {
    seq!["data-src"@, "data-original"@]
}

/// The default cleanup options, except that `image_mode` is `image_mode`.
pub open spec fn is_default_cleanup(c: CleanupOptions, image_mode: ImageMode) -> bool {
    &&& c.remove_selectors@.len() == 0
    &&& c.unwrap_selectors@.len() == 0
    &&& c.keep_only_selectors@.len() == 0
    &&& c.extract_selector.is_none()
    &&& c.main_content_selector.is_none()
    &&& views(c.remove_tags) == default_remove_tags()
    &&& tag_behavior_entries(c.per_tag_behavior).len() == 0
    &&& c.hidden_content_policy == HiddenContentPolicy::Hide
    &&& c.metadata == metadata_default()
    &&& c.base_url.is_none()
    &&& c.url_rewrite_rules@.len() == 0
    &&& c.remove_tracking_params
    &&& c.tracking_params@.len() == 0
    &&& c.allowed_url_schemes@.len() == 0
    &&& views(c.blocked_url_schemes) == default_blocked_schemes()
    &&& views(c.lazy_image_attrs) == default_lazy_attrs()
    &&& c.responsive_image_policy == ResponsiveImagePolicy::FirstSrcset
    &&& !c.preserve_image_metadata
    &&& c.image_mode == image_mode
    &&& c.media_policy == MediaPolicy::Inline
    &&& c.form_handling == FormHandling::Drop
    &&& c.details_handling == DetailsHandling::Expand
    &&& c.custom_element_policy == CustomElementPolicy::Unwrap
}

impl Default for CleanupOptions {
    fn default() -> (r: Self)
        ensures
            is_default_cleanup(r, ImageMode::Inline),
    {
        let remove_tags = vec![
            "head".to_owned(),
            "script".to_owned(),
            "style".to_owned(),
            "noscript".to_owned(),
            "template".to_owned(),
            "iframe".to_owned(),
            "svg".to_owned(),
            "canvas".to_owned(),
        ];
        let blocked = vec!["javascript".to_owned(), "data".to_owned(), "file".to_owned()];
        let lazy = vec!["data-src".to_owned(), "data-original".to_owned()];
        assert(views(remove_tags) == default_remove_tags());
        assert(views(blocked) == default_blocked_schemes());
        assert(views(lazy) == default_lazy_attrs());
        CleanupOptions {
            remove_selectors: Vec::new(),
            unwrap_selectors: Vec::new(),
            keep_only_selectors: Vec::new(),
            extract_selector: None,
            main_content_selector: None,
            remove_tags,
            per_tag_behavior: empty_tag_behavior(),
            hidden_content_policy: HiddenContentPolicy::Hide,
            metadata: MetadataOptions::default(),
            base_url: None,
            url_rewrite_rules: Vec::new(),
            remove_tracking_params: true,
            tracking_params: Vec::new(),
            allowed_url_schemes: Vec::new(),
            blocked_url_schemes: blocked,
            lazy_image_attrs: lazy,
            responsive_image_policy: ResponsiveImagePolicy::FirstSrcset,
            preserve_image_metadata: false,
            image_mode: ImageMode::Inline,
            media_policy: MediaPolicy::Inline,
            form_handling: FormHandling::Drop,
            details_handling: DetailsHandling::Expand,
            custom_element_policy: CustomElementPolicy::Unwrap,
        }
    }
}

/// Semantic conversion options.
#[derive(Debug, Clone)]
pub struct SemanticOptions {
    pub heading_offset: i8,
    pub normalize_headings: bool,
    pub list_indent: u8,
    pub task_lists: bool,
    pub table_handling: TableHandling,
    pub difficult_table_strategy: DifficultTableStrategy,
    pub code_language_patterns: Vec<String>,
    /// Try to infer a code-block language from the source text when no
    /// `language-*` class is present.
    pub detect_languages: bool,
    pub inline_style_subset: InlineStyleSubset,
    pub semantic_tags: SemanticTagPolicy,
    pub definition_lists: bool,
    pub footnotes: bool,
    pub math: MathOptions,
    pub mermaid: MermaidPolicy,
    pub embedded_media: EmbeddedMediaPolicy,
}

/// The class patterns that name a code block's language by default.
pub open spec fn default_language_patterns() -> Seq<Seq<char>> {
    seq![r"language-(?P<lang>\S+)"@, r"lang-(?P<lang>\S+)"@, r"highlight-(?P<lang>\S+)"@]
}

/// The default semantic options, with the footnote, definition-list and math
/// settings of the extended profiles when `extended` holds.
pub open spec fn is_profile_semantic(s: SemanticOptions, extended: bool) -> bool {
    &&& s.heading_offset == 0
    &&& !s.normalize_headings
    &&& s.list_indent == 4
    &&& s.task_lists
    &&& s.table_handling == TableHandling::Gfm
    &&& s.difficult_table_strategy == DifficultTableStrategy::HtmlFallback
    &&& views(s.code_language_patterns) == default_language_patterns()
    &&& s.detect_languages
    &&& s.inline_style_subset == InlineStyleSubset::Basic
    &&& s.semantic_tags == SemanticTagPolicy::Convert
    &&& s.definition_lists == extended
    &&& s.footnotes == extended
    &&& (if extended { is_extended_math(s.math) } else { is_default_math(s.math) })
    &&& s.mermaid == MermaidPolicy::Fenced
    &&& s.embedded_media == EmbeddedMediaPolicy::PreserveLink
}

impl Default for SemanticOptions {
    fn default() -> (r: Self)
        ensures
            is_profile_semantic(r, false),
    {
        let patterns = vec![
            r"language-(?P<lang>\S+)".to_owned(),
            r"lang-(?P<lang>\S+)".to_owned(),
            r"highlight-(?P<lang>\S+)".to_owned(),
        ];
        assert(views(patterns) == default_language_patterns());
        SemanticOptions {
            heading_offset: 0,
            normalize_headings: false,
            list_indent: 4,
            task_lists: true,
            table_handling: TableHandling::Gfm,
            difficult_table_strategy: DifficultTableStrategy::HtmlFallback,
            code_language_patterns: patterns,
            detect_languages: true,
            inline_style_subset: InlineStyleSubset::Basic,
            semantic_tags: SemanticTagPolicy::Convert,
            definition_lists: false,
            footnotes: false,
            math: MathOptions::default(),
            mermaid: MermaidPolicy::Fenced,
            embedded_media: EmbeddedMediaPolicy::PreserveLink,
        }
    }
}

/// Extensibility options.
#[derive(Debug, Clone)]
pub struct ExtensionOptions {
    pub custom_rules: Vec<CustomRule>,
    pub rule_packs: Vec<String>,
}

impl Default for ExtensionOptions {
    fn default() -> (r: Self)
        ensures
            r.custom_rules@.len() == 0,
            r.rule_packs@.len() == 0,
    {
        ExtensionOptions { custom_rules: Vec::new(), rule_packs: Vec::new() }
    }
}

/// Central configuration structure.
#[derive(Debug)]
pub struct ConversionOptions {
    pub profile: OutputProfile,
    pub render: RenderOptions,
    pub cleanup: CleanupOptions,
    pub semantic: SemanticOptions,
    pub extension: ExtensionOptions,
    pub limits: Limits,
    /// Treat warnings as errors.
    pub strict: bool,
}

/// Profiles that include footnotes, definition lists and math.
pub open spec fn is_extended_family(p: OutputProfile) -> bool {
    p == OutputProfile::Extended || p == OutputProfile::Pandoc || p == OutputProfile::Obsidian
        || p == OutputProfile::MdxSafe
}

/// The rendering options a profile implies.
pub open spec fn profile_render(p: OutputProfile) -> RenderOptions {
    let d = render_default();
    match p {
        OutputProfile::Pandoc => RenderOptions {
            raw_html_policy: RawHtmlPolicy::Faithful,
            smart_punctuation: SmartPunctuation::Normalize,
            ..d
        },
        OutputProfile::Obsidian => RenderOptions { raw_html_policy: RawHtmlPolicy::Preserve, ..d },
        OutputProfile::MdxSafe => RenderOptions {
            raw_html_policy: RawHtmlPolicy::Escape,
            comment_policy: CommentPolicy::Drop,
            escaping_mode: EscapingMode::Strict,
            ..d
        },
        _ => d,
    }
}

/// The image mode a profile implies.
pub open spec fn profile_image_mode(p: OutputProfile) -> ImageMode {
    if p == OutputProfile::PlainText {
        ImageMode::AltText
    } else {
        ImageMode::Inline
    }
}

/// `o` holds exactly the settings of profile `p` and nothing else.
pub open spec fn is_profile_options(o: ConversionOptions, p: OutputProfile) -> bool {
    &&& o.profile == p
    &&& o.render == profile_render(p)
    &&& is_default_cleanup(o.cleanup, profile_image_mode(p))
    &&& is_profile_semantic(o.semantic, is_extended_family(p))
    &&& o.extension.custom_rules@.len() == 0
    &&& o.extension.rule_packs@.len() == 0
    &&& o.limits == limits_default()
    &&& !o.strict
}

impl Default for ConversionOptions {
    fn default() -> (r: Self)
        ensures
            is_profile_options(r, OutputProfile::Commonmark),
    {
        ConversionOptions {
            profile: OutputProfile::Commonmark,
            render: RenderOptions::default(),
            cleanup: CleanupOptions::default(),
            semantic: SemanticOptions::default(),
            extension: ExtensionOptions::default(),
            limits: Limits::default(),
            strict: false,
        }
    }
}

/// The math options of the extended profiles.
fn extended_math() -> (m: MathOptions)
    ensures
        is_extended_math(m),
{
    MathOptions { enabled: true, output: MathOutput::InlineDollar, ..MathOptions::default() }
}

impl ConversionOptions {
    /// Create options for the CommonMark profile (the defaults).
    pub fn commonmark() -> (r: Self)
        ensures
            is_profile_options(r, OutputProfile::Commonmark),
    {
        ConversionOptions::default()
    }

    /// Create options for the GFM profile.
    pub fn gfm() -> (r: Self)
        ensures
            is_profile_options(r, OutputProfile::Gfm),
    {
        ConversionOptions {
            profile: OutputProfile::Gfm,
            semantic: SemanticOptions {
                task_lists: true,
                table_handling: TableHandling::Gfm,
                ..SemanticOptions::default()
            },
            ..ConversionOptions::default()
        }
    }

    /// Create options for the Extended profile.
    pub fn extended() -> (r: Self)
        ensures
            is_profile_options(r, OutputProfile::Extended),
    {
        ConversionOptions {
            profile: OutputProfile::Extended,
            semantic: SemanticOptions {
                footnotes: true,
                definition_lists: true,
                math: extended_math(),
                ..SemanticOptions::default()
            },
            ..ConversionOptions::gfm()
        }
    }

    /// Create options for the Pandoc profile.
    pub fn pandoc() -> (r: Self)
        ensures
            is_profile_options(r, OutputProfile::Pandoc),
    {
        let mut opts = ConversionOptions::extended();
        opts.profile = OutputProfile::Pandoc;
        opts.render.raw_html_policy = RawHtmlPolicy::Faithful;
        opts.render.smart_punctuation = SmartPunctuation::Normalize;
        opts
    }

    /// Create options for the Obsidian profile.
    pub fn obsidian() -> (r: Self)
        ensures
            is_profile_options(r, OutputProfile::Obsidian),
    {
        let mut opts = ConversionOptions::extended();
        opts.profile = OutputProfile::Obsidian;
        opts.render.raw_html_policy = RawHtmlPolicy::Preserve;
        opts
    }

    /// Create options for the MDX-safe profile.
    pub fn mdx_safe() -> (r: Self)
        ensures
            is_profile_options(r, OutputProfile::MdxSafe),
    {
        let mut opts = ConversionOptions::extended();
        opts.profile = OutputProfile::MdxSafe;
        opts.render.raw_html_policy = RawHtmlPolicy::Escape;
        opts.render.comment_policy = CommentPolicy::Drop;
        opts.render.escaping_mode = EscapingMode::Strict;
        opts
    }

    /// Create options for the plain-text profile.
    pub fn plain_text() -> (r: Self)
        ensures
            is_profile_options(r, OutputProfile::PlainText),
    {
        let mut opts = ConversionOptions {
            profile: OutputProfile::PlainText,
            ..ConversionOptions::default()
        };
        opts.render.raw_html_policy = RawHtmlPolicy::Drop;
        opts.cleanup.image_mode = ImageMode::AltText;
        opts
    }

    /// Apply profile-specific defaults where an option is still at its
    /// generic default, so that selecting a profile like `extended` or
    /// `obsidian` also enables the matching features.
    pub fn apply_profile_defaults(&mut self)
        ensures
            *final(self) == spec_apply_profile_defaults(*old(self)),
    {
        let profile = self.profile;
        apply_semantic_defaults(profile, &mut self.semantic);
        apply_render_defaults(profile, &mut self.render);
        apply_cleanup_defaults(profile, &mut self.cleanup);
    }
}

fn apply_semantic_defaults(profile: OutputProfile, semantic: &mut SemanticOptions)
    ensures
        *final(semantic) == applied_semantic(profile, *old(semantic)),
{
    // The generic defaults: no footnotes, no definition lists, task lists on,
    // GFM tables (see `SemanticOptions::default`).
    match profile {
        OutputProfile::Extended
        | OutputProfile::Pandoc
        | OutputProfile::Obsidian
        | OutputProfile::MdxSafe => {
            if !semantic.footnotes {
                semantic.footnotes = true;
            }
            if !semantic.definition_lists {
                semantic.definition_lists = true;
            }
            if math_is_default(&semantic.math) {
                semantic.math.enabled = true;
                semantic.math.output = MathOutput::InlineDollar;
            }
        },
        OutputProfile::Gfm => {
            if semantic.task_lists {
                semantic.task_lists = true;
            }
            if semantic.table_handling == TableHandling::Gfm {
                semantic.table_handling = TableHandling::Gfm;
            }
        },
        _ => {},
    }
}

fn apply_render_defaults(profile: OutputProfile, render: &mut RenderOptions)
    ensures
        *final(render) == applied_render(profile, *old(render)),
{
    let render_defaults = RenderOptions::default();
    if profile == OutputProfile::Pandoc {
        if render.raw_html_policy == render_defaults.raw_html_policy {
            render.raw_html_policy = RawHtmlPolicy::Faithful;
        }
        if render.smart_punctuation == render_defaults.smart_punctuation {
            render.smart_punctuation = SmartPunctuation::Normalize;
        }
    }
    if profile == OutputProfile::Obsidian && render.raw_html_policy
        == render_defaults.raw_html_policy {
        render.raw_html_policy = RawHtmlPolicy::Preserve;
    }
    if profile == OutputProfile::MdxSafe {
        if render.raw_html_policy == render_defaults.raw_html_policy {
            render.raw_html_policy = RawHtmlPolicy::Escape;
        }
        if render.comment_policy == render_defaults.comment_policy {
            render.comment_policy = CommentPolicy::Drop;
        }
        if render.escaping_mode == render_defaults.escaping_mode {
            render.escaping_mode = EscapingMode::Strict;
        }
    }
    if profile == OutputProfile::PlainText {
        if render.raw_html_policy == render_defaults.raw_html_policy {
            render.raw_html_policy = RawHtmlPolicy::Drop;
        }
    }
}

fn apply_cleanup_defaults(profile: OutputProfile, cleanup: &mut CleanupOptions)
    ensures
        *final(cleanup) == applied_cleanup(profile, *old(cleanup)),
{
    if profile == OutputProfile::PlainText {
        if cleanup.image_mode == ImageMode::Inline {
            cleanup.image_mode = ImageMode::AltText;
        }
    }
}

/// The rendering options after the profile defaults of `p` are applied.
pub open spec fn applied_render(p: OutputProfile, r: RenderOptions) -> RenderOptions {
    let d = render_default();
    match p {
        OutputProfile::Pandoc => RenderOptions {
            raw_html_policy: if r.raw_html_policy == d.raw_html_policy {
                RawHtmlPolicy::Faithful
            } else {
                r.raw_html_policy
            },
            smart_punctuation: if r.smart_punctuation == d.smart_punctuation {
                SmartPunctuation::Normalize
            } else {
                r.smart_punctuation
            },
            ..r
        },
        OutputProfile::Obsidian => RenderOptions {
            raw_html_policy: if r.raw_html_policy == d.raw_html_policy {
                RawHtmlPolicy::Preserve
            } else {
                r.raw_html_policy
            },
            ..r
        },
        OutputProfile::MdxSafe => RenderOptions {
            raw_html_policy: if r.raw_html_policy == d.raw_html_policy {
                RawHtmlPolicy::Escape
            } else {
                r.raw_html_policy
            },
            comment_policy: if r.comment_policy == d.comment_policy {
                CommentPolicy::Drop
            } else {
                r.comment_policy
            },
            escaping_mode: if r.escaping_mode == d.escaping_mode {
                EscapingMode::Strict
            } else {
                r.escaping_mode
            },
            ..r
        },
        _ => r,
    }
}

/// The semantic options after the profile defaults of `p` are applied.
pub open spec fn applied_semantic(p: OutputProfile, s: SemanticOptions) -> SemanticOptions {
    if is_extended_family(p) {
        SemanticOptions {
            footnotes: true,
            definition_lists: true,
            math: if is_default_math(s.math) {
                MathOptions { enabled: true, output: MathOutput::InlineDollar, ..s.math }
            } else {
                s.math
            },
            ..s
        }
    } else {
        s
    }
}

/// The cleanup options after the profile defaults of `p` are applied.
pub open spec fn applied_cleanup(p: OutputProfile, c: CleanupOptions) -> CleanupOptions {
    if p == OutputProfile::PlainText && c.image_mode == ImageMode::Inline {
        CleanupOptions { image_mode: ImageMode::AltText, ..c }
    } else {
        c
    }
}

/// What `apply_profile_defaults` makes of `o`.
pub open spec fn spec_apply_profile_defaults(o: ConversionOptions) -> ConversionOptions {
    ConversionOptions {
        render: applied_render(o.profile, o.render),
        cleanup: applied_cleanup(o.profile, o.cleanup),
        semantic: applied_semantic(o.profile, o.semantic),
        ..o
    }
}

/// Applying the profile defaults a second time changes nothing.
pub proof fn law_apply_profile_defaults_idempotent(o: ConversionOptions)
    ensures
        spec_apply_profile_defaults(spec_apply_profile_defaults(o))
            == spec_apply_profile_defaults(o),
{
    let p = o.profile;
    assert(applied_render(p, applied_render(p, o.render)) == applied_render(p, o.render));
    assert(applied_semantic(p, applied_semantic(p, o.semantic)) == applied_semantic(p, o.semantic));
    assert(applied_cleanup(p, applied_cleanup(p, o.cleanup)) == applied_cleanup(p, o.cleanup));
}

/// Every profile constructor equals the default options with that profile
/// selected and its profile defaults applied: `ConversionOptions::gfm()` is
/// what `profile = "gfm"` in a configuration file yields, and likewise for
/// every other profile.
pub proof fn law_profile_defaults_match_constructors(o: ConversionOptions, p: OutputProfile)
    requires
        is_profile_options(o, OutputProfile::Commonmark),
    ensures
        is_profile_options(
            spec_apply_profile_defaults(ConversionOptions { profile: p, ..o }),
            p,
        ),
{
}

} // verus!
