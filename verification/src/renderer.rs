//! The Markdown renderer: it walks the document tree, lets the handler
//! registered for each element render it (falling back along the chain of
//! handlers of its tag), and glues the pieces together.

use vstd::prelude::*;
use crate::anchor::AnchorElementHandler;
use crate::blocks::{
    append_normalized_content, is_block_element, is_block_tag, trim_output_end,
    trim_output_end_spaces,
};
use crate::dom::{get_attr, DomNode};
use crate::escape::{compress_whitespace, escape_if_needed, escape_pre_text_if_needed, is_plain_text};
use crate::blocks::{escape_link_destination, process_title};
use crate::elements::{
    class_language,
    block_markdown, block_md, blockquote_markdown, blockquote_md, br_markdown, br_md,
    code_block_markdown, emphasis_markdown, emphasis_md, heading_markdown, heading_md, hr_markdown,
    hr_md, image_markdown, image_md, indented_code_markdown, inline_code_markdown, language_of_class,
    last_attr, last_attr_exec, list_markdown, list_md,
};
use crate::handlers::{
    alert_output, alert_type_of, definition_list_output, footnote_definition_output,
    footnote_reference, footnote_reference_label, inline_wrap, is_alert_title, is_backlink,
    is_wikilink_exec, math_output, math_script_type, special_inline_output, wikilink_output,
    DefinitionItem, element_has_class, has_class, mermaid_drop, mermaid_fenced, special_inline, table_marker_output,
    alert_block, alert_type, footnote_ref_label, is_wikilink, task_box, task_list_checkbox, wikilink_text, wrapped,
    HandlerOutcome,
};
use crate::list::{list_item_markdown, number_ol_items, numbered_list, ol_item, ol_start, ul_item, ListChild};
use crate::error::Result;
use crate::options::ConversionOptions;
use crate::postprocess::{post_process, post_processed};
use crate::result::ConversionResult;
use crate::native::{
    build_native_options, settings_for, NativeBackend, CodeBlockFence, CodeBlockStyle, RenderHeadingStyle, RenderLinkStyle, RenderSettings,
    TranslationMode,
};
use crate::options::{CustomRule, MathOutput, MermaidPolicy, OutputProfile, ReferencePlacement};
use crate::references::{flush_pending_definitions, heading_flush, reference_image, reference_link, ReferenceState};
use crate::rules::{marked_rule_index, marked_rule_output};
use crate::options::CustomRuleAction;
use crate::serialize::Attribute;
use crate::text::{
    char_vec, push_str, str_eq, trim_start_string, trim_string, TrimSet,
};

verus! {

/// The output of a handler, and whether it is Markdown (not HTML).
pub struct HandlerResult {
    pub content: String,
    pub markdown_translated: bool,
}

pub fn markdown(content: String) -> (r: HandlerResult)
    ensures
        r.content == content,
        r.markdown_translated,
{
    HandlerResult { content, markdown_translated: true }
}

/// The handlers an element can be rendered by.
#[derive(Debug, Clone, Copy, PartialEq, Eq, Structural)]
pub enum HandlerKind {
    Img,
    Anchor,
    List,
    ListItem,
    Blockquote,
    Code,
    Bold,
    Italic,
    Heading,
    Br,
    Hr,
    Table,
    TdTh,
    Tr,
    Tbody,
    Thead,
    Caption,
    P,
    Pre,
    HeadBody,
    Html,
    Span,
    Block,
    Skip,
    TaskList,
    TableMarker,
    MermaidDrop,
    MermaidFenced,
    Strike,
    Mark,
    Ins,
    SubScript,
    SupScript,
    CodeLike,
    Quote,
    Cite,
    Unwrap,
    Address,
    Kbd,
    FootnoteRef,
    FootnoteDef,
    DefinitionList,
    MathScript,
    MathMl,
    Alert,
    Wikilink,
    RefLink,
    RefImage,
    HeadingFlush,
    CustomRule,
}

/// The handler a tag has by default.
pub open spec fn default_kind(tag: Seq<char>) -> Option<HandlerKind> {
    if tag == "img"@ {
        Some(HandlerKind::Img)
    } else if tag == "a"@ {
        Some(HandlerKind::Anchor)
    } else if tag == "ol"@ || tag == "ul"@ {
        Some(HandlerKind::List)
    } else if tag == "li"@ {
        Some(HandlerKind::ListItem)
    } else if tag == "blockquote"@ {
        Some(HandlerKind::Blockquote)
    } else if tag == "code"@ {
        Some(HandlerKind::Code)
    } else if tag == "strong"@ || tag == "b"@ {
        Some(HandlerKind::Bold)
    } else if tag == "i"@ || tag == "em"@ {
        Some(HandlerKind::Italic)
    } else if tag == "h1"@ || tag == "h2"@ || tag == "h3"@ || tag == "h4"@ || tag == "h5"@ || tag == "h6"@ {
        Some(HandlerKind::Heading)
    } else if tag == "br"@ {
        Some(HandlerKind::Br)
    } else if tag == "hr"@ {
        Some(HandlerKind::Hr)
    } else if tag == "table"@ {
        Some(HandlerKind::Table)
    } else if tag == "td"@ || tag == "th"@ {
        Some(HandlerKind::TdTh)
    } else if tag == "tr"@ {
        Some(HandlerKind::Tr)
    } else if tag == "tbody"@ {
        Some(HandlerKind::Tbody)
    } else if tag == "thead"@ {
        Some(HandlerKind::Thead)
    } else if tag == "caption"@ {
        Some(HandlerKind::Caption)
    } else if tag == "p"@ {
        Some(HandlerKind::P)
    } else if tag == "pre"@ {
        Some(HandlerKind::Pre)
    } else if tag == "head"@ || tag == "body"@ {
        Some(HandlerKind::HeadBody)
    } else if tag == "html"@ {
        Some(HandlerKind::Html)
    } else if tag == "span"@ {
        Some(HandlerKind::Span)
    } else if is_block_tag(tag) {
        Some(HandlerKind::Block)
    } else {
        None
    }
}

/// `k` when `b` holds, else nothing.
pub open spec fn kind_if(b: bool, k: HandlerKind) -> Seq<HandlerKind> {
    if b {
        seq![k]
    } else {
        Seq::empty()
    }
}

/// The semantic-tag handler the extended profiles register for `tag`.
pub open spec fn semantic_kind(tag: Seq<char>, p: OutputProfile) -> Seq<HandlerKind> {
    if tag == "mark"@ {
        seq![HandlerKind::Mark]
    } else if tag == "ins"@ {
        seq![HandlerKind::Ins]
    } else if tag == "sub"@ {
        seq![HandlerKind::SubScript]
    } else if tag == "sup"@ {
        seq![HandlerKind::SupScript]
    } else if tag == "samp"@ || tag == "var"@ {
        seq![HandlerKind::CodeLike]
    } else if tag == "q"@ {
        seq![HandlerKind::Quote]
    } else if tag == "cite"@ {
        seq![HandlerKind::Cite]
    } else if tag == "abbr"@ || tag == "time"@ {
        seq![HandlerKind::Unwrap]
    } else if tag == "address"@ {
        seq![HandlerKind::Address]
    } else {
        kind_if(tag == "kbd"@ && p != OutputProfile::MdxSafe, HandlerKind::Kbd)
    }
}

/// The profiles that render the extended semantic tags.
pub open spec fn extended_profile(p: OutputProfile) -> bool {
    p == OutputProfile::Extended || p == OutputProfile::Pandoc || p == OutputProfile::Obsidian
        || p == OutputProfile::MdxSafe
}

/// The default handler of `tag`, then the skip, strike-through and semantic
/// handlers, after `prefix`.
pub open spec fn chain_head(r: Renderer, tag: Seq<char>) -> Seq<HandlerKind> {
    let p = r.profile;
    (match default_kind(tag) {
        Some(k) => seq![k],
        None => Seq::empty(),
    })
        + kind_if(crate::options::views(r.skip_tags).contains(tag), HandlerKind::Skip)
        + kind_if((extended_profile(p) || p == OutputProfile::Gfm) && (tag == "del"@ || tag == "s"@ || tag == "strike"@), HandlerKind::Strike)
        + (if extended_profile(p) { semantic_kind(tag, p) } else { Seq::empty() })
}

/// The option-driven handlers (task lists, footnotes, definition lists,
/// table markers, math, mermaid) added after `prefix`.
pub open spec fn chain_middle(r: Renderer, tag: Seq<char>, prefix: Seq<HandlerKind>) -> Seq<HandlerKind> {
    prefix
        + kind_if(r.task_lists && tag == "input"@, HandlerKind::TaskList)
        + kind_if(r.footnotes && tag == "sup"@, HandlerKind::FootnoteRef)
        + kind_if(r.footnotes && tag == "li"@, HandlerKind::FootnoteDef)
        + kind_if(r.definition_lists && tag == "dl"@, HandlerKind::DefinitionList)
        + kind_if(tag == "table"@, HandlerKind::TableMarker)
        + kind_if(r.math && tag == "script"@, HandlerKind::MathScript)
        + kind_if(r.math && tag == "math"@, HandlerKind::MathMl)
        + kind_if((tag == "pre"@ || tag == "div"@) && r.mermaid == MermaidPolicy::Drop, HandlerKind::MermaidDrop)
        + kind_if((tag == "pre"@ || tag == "div"@) && r.mermaid == MermaidPolicy::Fenced, HandlerKind::MermaidFenced)
}

/// The profile and reference handlers (alerts, wikilinks, reference links
/// and images, section flushes) and custom rules added after `prefix`.
pub open spec fn chain_tail(r: Renderer, tag: Seq<char>, prefix: Seq<HandlerKind>) -> Seq<HandlerKind> {
    let p = r.profile;
    let refs = r.ref_links || r.ref_images;
    let section = refs && r.placement == ReferencePlacement::SectionEnd;
    prefix
        + kind_if(
            (p == OutputProfile::Extended || p == OutputProfile::Pandoc || p == OutputProfile::Obsidian)
                && (tag == "div"@ || tag == "blockquote"@),
            HandlerKind::Alert,
        )
        + kind_if(p == OutputProfile::Obsidian && tag == "a"@, HandlerKind::Wikilink)
        + kind_if(refs && r.ref_links && r.placement != ReferencePlacement::End && tag == "a"@, HandlerKind::RefLink)
        + kind_if(refs && r.ref_images && tag == "img"@, HandlerKind::RefImage)
        + kind_if(section && (tag == "h1"@ || tag == "h2"@ || tag == "h3"@), HandlerKind::HeadingFlush)
        + kind_if(section && (tag == "h4"@ || tag == "h5"@ || tag == "h6"@), HandlerKind::HeadingFlush)
        + kind_if(r.custom_rules@.len() > 0 && tag == "htmlmdrule"@, HandlerKind::CustomRule)
}

/// The handlers registered for `tag`, in registration order (the last one
/// registered is tried first).
pub open spec fn chain_of(r: Renderer, tag: Seq<char>) -> Seq<HandlerKind> {
    chain_tail(r, tag, chain_middle(r, tag, chain_head(r, tag)))
}

/// The handler tried after `skipped` of them declined: the handlers are
/// tried from the last registered, at most seven deep.
pub open spec fn handler_at(r: Renderer, tag: Seq<char>, skipped: nat) -> Option<HandlerKind> {
    let chain = chain_of(r, tag);
    if skipped < chain.len() && skipped < 7 {
        Some(chain[chain.len() - 1 - skipped])
    } else {
        None
    }
}

/// The default handler of a tag.
pub fn default_handler(tag: &str) -> (r: Option<HandlerKind>)
    ensures
        r == default_kind(tag@),
{
    if str_eq(tag, "img") {
        Some(HandlerKind::Img)
    } else if str_eq(tag, "a") {
        Some(HandlerKind::Anchor)
    } else if str_eq(tag, "ol") || str_eq(tag, "ul") {
        Some(HandlerKind::List)
    } else if str_eq(tag, "li") {
        Some(HandlerKind::ListItem)
    } else if str_eq(tag, "blockquote") {
        Some(HandlerKind::Blockquote)
    } else if str_eq(tag, "code") {
        Some(HandlerKind::Code)
    } else if str_eq(tag, "strong") || str_eq(tag, "b") {
        Some(HandlerKind::Bold)
    } else if str_eq(tag, "i") || str_eq(tag, "em") {
        Some(HandlerKind::Italic)
    } else if str_eq(tag, "h1") || str_eq(tag, "h2") || str_eq(tag, "h3") || str_eq(tag, "h4")
        || str_eq(tag, "h5") || str_eq(tag, "h6") {
        Some(HandlerKind::Heading)
    } else if str_eq(tag, "br") {
        Some(HandlerKind::Br)
    } else if str_eq(tag, "hr") {
        Some(HandlerKind::Hr)
    } else if str_eq(tag, "table") {
        Some(HandlerKind::Table)
    } else if str_eq(tag, "td") || str_eq(tag, "th") {
        Some(HandlerKind::TdTh)
    } else if str_eq(tag, "tr") {
        Some(HandlerKind::Tr)
    } else if str_eq(tag, "tbody") {
        Some(HandlerKind::Tbody)
    } else if str_eq(tag, "thead") {
        Some(HandlerKind::Thead)
    } else if str_eq(tag, "caption") {
        Some(HandlerKind::Caption)
    } else if str_eq(tag, "p") {
        Some(HandlerKind::P)
    } else if str_eq(tag, "pre") {
        Some(HandlerKind::Pre)
    } else if str_eq(tag, "head") || str_eq(tag, "body") {
        Some(HandlerKind::HeadBody)
    } else if str_eq(tag, "html") {
        Some(HandlerKind::Html)
    } else if str_eq(tag, "span") {
        Some(HandlerKind::Span)
    } else if is_block_element(tag) {
        Some(HandlerKind::Block)
    } else {
        None
    }
}

/// The renderer: its settings, the extra handlers registered for this
/// conversion, and the state of the link handler.
pub struct Renderer {
    pub settings: RenderSettings,
    pub skip_tags: Vec<String>,
    pub task_lists: bool,
    pub mermaid: MermaidPolicy,
    pub anchor: AnchorElementHandler,
    pub profile: OutputProfile,
    pub footnotes: bool,
    pub definition_lists: bool,
    pub math: bool,
    pub math_output: MathOutput,
    pub ref_links: bool,
    pub ref_images: bool,
    pub placement: ReferencePlacement,
    pub custom_rules: Vec<CustomRule>,
    pub refs: ReferenceState,
}

/// An element written back as HTML, `c` standing for its rendered content:
/// a block element keeps its own HTML, an inline one wraps its content.
pub open spec fn serialized_as(node: DomNode, c: Seq<char>) -> Seq<char> {
    match node {
        DomNode::Element { tag, attrs, html, .. } => if is_block_tag(tag@) {
            crate::serialize::serialized_element(tag@, attrs@, Seq::empty(), html@)
        } else {
            crate::serialize::serialized_element(tag@, attrs@, c, Seq::empty())
        },
        _ => Seq::empty(),
    }
}

/// The parent's tag is one of two.
pub open spec fn parent_matches(ancestors: Seq<String>, a: Seq<char>, b: Seq<char>) -> bool {
    match parent_view(ancestors) {
        Some(p) => p == a || p == b,
        None => false,
    }
}

/// The number of children that are elements called `tag`.
pub open spec fn tagged_count(children: Seq<DomNode>, tag: Seq<char>) -> nat
    decreases children.len(),
{
    if children.len() == 0 {
        0
    } else {
        tagged_count(children.drop_last(), tag) + match children.last() {
            DomNode::Element { tag: t, .. } => if t@ == tag { 1nat } else { 0nat },
            _ => 0nat,
        }
    }
}

/// A `tr` element with at least one `th` or `td` child.
pub open spec fn row_with_cells(n: DomNode) -> bool {
    match n {
        DomNode::Element { tag, children, .. } => tag@ == "tr"@ && (tagged_count(children@, "th"@) > 0
            || tagged_count(children@, "td"@) > 0),
        _ => false,
    }
}

/// A node is a `thead` element.
pub open spec fn is_thead_node(n: DomNode) -> bool {
    n matches DomNode::Element { tag, .. } && tag@ == "thead"@
}

/// A node is an `li` element.
pub open spec fn is_li_node(n: DomNode) -> bool {
    match n {
        DomNode::Element { tag, .. } => tag@ == "li"@,
        _ => false,
    }
}

/// `text` is the numbered list of an `ol` node's children: each child
/// rendered (in some way), the `li` elements numbered from the `start`
/// attribute.
pub open spec fn numbered_children(node: DomNode, spacing: nat, text: Seq<char>) -> bool {
    match node {
        DomNode::Element { attrs, children, .. } => exists|items: Seq<ListChild>|
            #![trigger numbered_list(spacing, items, ol_start(crate::dom::attr_value(attrs@, "start"@)))]
            items.len() == children@.len()
                && (forall|i: int| 0 <= i < items.len() ==> (#[trigger] items[i]).is_li == is_li_node(children@[i]))
                && text == numbered_list(spacing, items, ol_start(crate::dom::attr_value(attrs@, "start"@))),
        _ => text.len() == 0,
    }
}

/// The level of a heading tag (`h1` to `h6`).
pub open spec fn heading_level_of(tag: Seq<char>) -> nat {
    if tag.len() >= 2 && '1' <= tag[1] && tag[1] <= '6' {
        (tag[1] as u32 - '0' as u32) as nat
    } else {
        1
    }
}

/// A translated result of handler `k` on `node` framed around the rendered
/// content `c`, for the handlers whose output is a fixed frame: a list (an
/// `ol` numbering its items), a list item, an image (from its attributes
/// alone), a heading, emphasis, a quote, a paragraph or other block, a line
/// break, a rule.
pub open spec fn rendered_from(k: HandlerKind, s: RenderSettings, node: DomNode, c: Seq<char>, res: HandlerResult) -> bool {
    match node {
        DomNode::Element { tag, attrs, children, .. } => match k {
            HandlerKind::List => {
                &&& (list_md(c, true) == Some(res.content@) || list_md(c, false) == Some(res.content@))
                &&& tag@ == "ol"@ && children@.len() < usize::MAX - 0x8000_0000
                    ==> numbered_children(node, s.ol_number_spacing as nat, c)
            },
            HandlerKind::ListItem => res.content@ == ol_item(c) || res.content@ == ul_item(s, c),
            HandlerKind::Strike | HandlerKind::Mark | HandlerKind::Ins | HandlerKind::SubScript
            | HandlerKind::SupScript | HandlerKind::CodeLike | HandlerKind::Cite => res.content@ == wrapped(
                c,
                inline_marker(k),
                inline_marker(k),
            ),
            HandlerKind::Quote | HandlerKind::Kbd | HandlerKind::Unwrap | HandlerKind::Address => res.content@
                == match special_inline(tag@, c) {
                Some(m) => m,
                None => c,
            },
            HandlerKind::TaskList => task_box(attrs@) == Some(res.content@),
            HandlerKind::FootnoteRef => match footnote_ref_label(children@) {
                Some(l) => res.content@ == "[^"@ + l + "]"@,
                None => false,
            },
            HandlerKind::Alert => match alert_type(attrs@) {
                Some(t) => res.content@ == alert_block(t, c),
                None => false,
            },
            HandlerKind::Wikilink => res.content@ == wikilink_text(
                match crate::dom::attr_value(attrs@, "href"@) {
                    Some(h) => h,
                    None => Seq::empty(),
                },
                c,
            ),
            HandlerKind::MermaidDrop => res.content@.len() == 0,
            HandlerKind::Img => match last_attr(attrs@, "href"@, "src"@) {
                Some(link) => res.content@ == image_md(
                    link,
                    last_attr(attrs@, "alt"@, "alt"@),
                    last_attr(attrs@, "title"@, "title"@),
                ),
                None => false,
            },
            HandlerKind::Heading => heading_md(heading_level_of(tag@), c, s.heading_style == RenderHeadingStyle::Setex)
                == res.content@,
            HandlerKind::Bold => emphasis_md(c, "**"@) == Some(res.content@),
            HandlerKind::Italic => emphasis_md(c, "*"@) == Some(res.content@),
            HandlerKind::Blockquote => blockquote_md(c) == res.content@,
            HandlerKind::P | HandlerKind::Pre | HandlerKind::Html | HandlerKind::Block => block_md(c) == res.content@,
            HandlerKind::Br => res.content@ == br_md(s.br_style),
            HandlerKind::Hr => res.content@ == hr_md(s.hr_style),
            _ => true,
        },
        _ => true,
    }
}

/// What a translated result of handler `k` on `node` is: the handler's frame
/// around some rendering of the element's content.
pub open spec fn rendered_by(k: HandlerKind, s: RenderSettings, node: DomNode, res: HandlerResult) -> bool {
    framed_kind(k) && node is Element && claims(k, s, node) ==> exists|c: Seq<char>| #[trigger] rendered_from(k, s, node, c, res)
}

/// Whether handler `k` renders `node` itself rather than passing it to the
/// next handler: the semantic-tag handlers pass elements with attributes on
/// in faithful mode, the task-list handler passes what is not a checkbox,
/// the mermaid handler what is not a diagram, the footnote, alert and
/// wikilink handlers what is not one.
pub open spec fn claims(k: HandlerKind, s: RenderSettings, node: DomNode) -> bool {
    match node {
        DomNode::Element { attrs, children, .. } => match k {
            HandlerKind::FootnoteRef => footnote_ref_label(children@) is Some,
            HandlerKind::Alert => alert_type(attrs@) is Some,
            HandlerKind::Wikilink => is_wikilink(attrs@),
            HandlerKind::Strike | HandlerKind::Mark | HandlerKind::Ins | HandlerKind::SubScript
            | HandlerKind::SupScript | HandlerKind::CodeLike | HandlerKind::Cite | HandlerKind::Quote
            | HandlerKind::Kbd | HandlerKind::Unwrap | HandlerKind::Address => !(s.translation_mode
                == TranslationMode::Faithful && attrs@.len() > 0),
            HandlerKind::TaskList => task_box(attrs@) is Some,
            HandlerKind::MermaidDrop => has_class(attrs@, "mermaid"@),
            _ => true,
        },
        _ => false,
    }
}

/// The handler `k` renders `node` (its result is `Some`) whatever the
/// content: the structural handlers always, an image with a source, the
/// semantic and profile handlers whenever they claim the element.
pub open spec fn handler_renders(k: HandlerKind, s: RenderSettings, node: DomNode) -> bool {
    match node {
        DomNode::Element { attrs, .. } => match k {
            HandlerKind::Img => last_attr(attrs@, "href"@, "src"@) is Some,
            HandlerKind::Anchor | HandlerKind::ListItem | HandlerKind::Blockquote | HandlerKind::Code
            | HandlerKind::Heading | HandlerKind::Br | HandlerKind::Hr | HandlerKind::TdTh | HandlerKind::Tr
            | HandlerKind::Tbody | HandlerKind::Thead | HandlerKind::Caption | HandlerKind::P
            | HandlerKind::Pre | HandlerKind::HeadBody | HandlerKind::Html | HandlerKind::Span
            | HandlerKind::Block | HandlerKind::RefLink => true,
            HandlerKind::Strike | HandlerKind::Mark | HandlerKind::Ins | HandlerKind::SubScript
            | HandlerKind::SupScript | HandlerKind::CodeLike | HandlerKind::Cite | HandlerKind::Quote
            | HandlerKind::Kbd | HandlerKind::Unwrap | HandlerKind::Address | HandlerKind::TaskList
            | HandlerKind::MermaidDrop | HandlerKind::FootnoteRef | HandlerKind::Alert
            | HandlerKind::Wikilink => claims(k, s, node),
            HandlerKind::DefinitionList | HandlerKind::MathMl => !(s.translation_mode == TranslationMode::Faithful
                && attrs@.len() > 0),
            _ => false,
        },
        _ => false,
    }
}

/// The kinds of the handlers for emphasis, headings, breaks, tables and
/// blocks.
pub open spec fn text_block_kind(k: HandlerKind) -> bool {
    ||| k == HandlerKind::Bold
    ||| k == HandlerKind::Italic
    ||| k == HandlerKind::Heading
    ||| k == HandlerKind::Br
    ||| k == HandlerKind::Hr
    ||| k == HandlerKind::Table
    ||| k == HandlerKind::TdTh
    ||| k == HandlerKind::Tr
    ||| k == HandlerKind::Tbody
    ||| k == HandlerKind::Thead
    ||| k == HandlerKind::Caption
    ||| k == HandlerKind::P
    ||| k == HandlerKind::Pre
    ||| k == HandlerKind::HeadBody
    ||| k == HandlerKind::Html
    ||| k == HandlerKind::Span
    ||| k == HandlerKind::Block
}

/// The kinds of the handlers for task lists, table markers, mermaid and
/// inline semantic tags.
pub open spec fn inline_extension_kind(k: HandlerKind) -> bool {
    ||| k == HandlerKind::Skip
    ||| k == HandlerKind::TaskList
    ||| k == HandlerKind::TableMarker
    ||| k == HandlerKind::MermaidDrop
    ||| k == HandlerKind::MermaidFenced
    ||| k == HandlerKind::Strike
    ||| k == HandlerKind::Mark
    ||| k == HandlerKind::Ins
    ||| k == HandlerKind::SubScript
    ||| k == HandlerKind::SupScript
    ||| k == HandlerKind::CodeLike
    ||| k == HandlerKind::Cite
    ||| k == HandlerKind::Quote
    ||| k == HandlerKind::Kbd
    ||| k == HandlerKind::Unwrap
    ||| k == HandlerKind::Address
}

/// The marker a semantic inline handler wraps its content in.
pub open spec fn inline_marker(k: HandlerKind) -> Seq<char> {
    match k {
        HandlerKind::Strike => "~~"@,
        HandlerKind::Mark => "=="@,
        HandlerKind::Ins => "++"@,
        HandlerKind::SubScript => "~"@,
        HandlerKind::SupScript => "^"@,
        HandlerKind::CodeLike => "`"@,
        _ => "*"@,
    }
}

/// The handlers whose output is a fixed frame around the content.
pub open spec fn framed_kind(k: HandlerKind) -> bool {
    ||| k == HandlerKind::FootnoteRef
    ||| k == HandlerKind::Alert
    ||| k == HandlerKind::Wikilink
    ||| k == HandlerKind::Strike
    ||| k == HandlerKind::Mark
    ||| k == HandlerKind::Ins
    ||| k == HandlerKind::SubScript
    ||| k == HandlerKind::SupScript
    ||| k == HandlerKind::CodeLike
    ||| k == HandlerKind::Cite
    ||| k == HandlerKind::Quote
    ||| k == HandlerKind::Kbd
    ||| k == HandlerKind::Unwrap
    ||| k == HandlerKind::Address
    ||| k == HandlerKind::TaskList
    ||| k == HandlerKind::MermaidDrop
    ||| k == HandlerKind::List
    ||| k == HandlerKind::ListItem
    ||| k == HandlerKind::Pre
    ||| k == HandlerKind::Html
    ||| k == HandlerKind::Block
    ||| k == HandlerKind::Img
    ||| k == HandlerKind::Heading
    ||| k == HandlerKind::Bold
    ||| k == HandlerKind::Italic
    ||| k == HandlerKind::Blockquote
    ||| k == HandlerKind::P
    ||| k == HandlerKind::Br
    ||| k == HandlerKind::Hr
}

/// What walking a text node appends to `out`: inside `pre` the text as it
/// is (escaped where a `pre` parent needs it); elsewhere plain text as it is
/// and other text escaped with its white space compressed, leading spaces
/// dropped at the start of a block or after a space.
pub open spec fn text_walked(out: Seq<char>, text: Seq<char>, is_pre: bool, in_pre: bool, trim_leading: bool) -> Seq<char> {
    if is_pre {
        if in_pre {
            out + crate::escape::escape_pre_spec(text)
        } else {
            out + text
        }
    } else {
        let last_space = out.len() > 0 && out.last() == ' ';
        let t = if crate::escape::plain_text(text) {
            text
        } else {
            crate::escape::compressed(crate::escape::escape_text_spec(text))
        };
        if trim_leading || (t.len() > 0 && t[0] == ' ' && last_space) {
            out + crate::text::trim_start(t, TrimSet::Only(' '))
        } else {
            out + t
        }
    }
}

/// Two renderers with the same configuration: they differ at most in the
/// state that rendering builds up (pending anchors and references).
pub open spec fn same_config(a: Renderer, b: Renderer) -> bool {
    &&& a.settings == b.settings
    &&& a.skip_tags == b.skip_tags
    &&& a.task_lists == b.task_lists
    &&& a.mermaid == b.mermaid
    &&& a.profile == b.profile
    &&& a.footnotes == b.footnotes
    &&& a.definition_lists == b.definition_lists
    &&& a.math == b.math
    &&& a.math_output == b.math_output
    &&& a.ref_links == b.ref_links
    &&& a.ref_images == b.ref_images
    &&& a.placement == b.placement
    &&& a.custom_rules == b.custom_rules
}

/// Appends `k` to `chain` when `b` holds.
fn push_if(chain: &mut Vec<HandlerKind>, b: bool, k: HandlerKind)
    ensures
        final(chain)@ == old(chain)@ + kind_if(b, k),
{
    if b {
        chain.push(k);
    }
    assert(final(chain)@ =~= old(chain)@ + kind_if(b, k));
}

/// The semantic-tag handler of `tag` under an extended profile.
fn semantic_handler(tag: &str, p: OutputProfile) -> (r: Option<HandlerKind>)
    ensures
        match r {
            Some(k) => semantic_kind(tag@, p) == seq![k],
            None => semantic_kind(tag@, p) == Seq::<HandlerKind>::empty(),
        },
{
    if str_eq(tag, "mark") {
        Some(HandlerKind::Mark)
    } else if str_eq(tag, "ins") {
        Some(HandlerKind::Ins)
    } else if str_eq(tag, "sub") {
        Some(HandlerKind::SubScript)
    } else if str_eq(tag, "sup") {
        Some(HandlerKind::SupScript)
    } else if str_eq(tag, "samp") || str_eq(tag, "var") {
        Some(HandlerKind::CodeLike)
    } else if str_eq(tag, "q") {
        Some(HandlerKind::Quote)
    } else if str_eq(tag, "cite") {
        Some(HandlerKind::Cite)
    } else if str_eq(tag, "abbr") || str_eq(tag, "time") {
        Some(HandlerKind::Unwrap)
    } else if str_eq(tag, "address") {
        Some(HandlerKind::Address)
    } else if str_eq(tag, "kbd") && p != OutputProfile::MdxSafe {
        Some(HandlerKind::Kbd)
    } else {
        None
    }
}

fn is_one_of(tag: &str, a: &str, b: &str, c: &str) -> (r: bool)
    ensures
        r == (tag@ == a@ || tag@ == b@ || tag@ == c@),
{
    str_eq(tag, a) || str_eq(tag, b) || str_eq(tag, c)
}

/// The tag of a node as the handlers see it: the document counts as
/// `html`.
pub fn node_tag(n: &DomNode) -> (r: Option<&str>)
    ensures
        match *n {
            DomNode::Document { .. } => r matches Some(t) && t@ == "html"@,
            DomNode::Element { tag, .. } => r matches Some(t) && t@ == tag@,
            _ => r is None,
        },
{
    match n {
        DomNode::Document { .. } => Some("html"),
        DomNode::Element { tag, .. } => Some(tag.as_str()),
        _ => None,
    }
}

impl Renderer {
    /// The handlers of `tag` in registration order.
    pub fn handler_chain(&self, tag: &str) -> (r: Vec<HandlerKind>)
        ensures
            r@ == chain_of(*self, tag@),
    {
        let mut chain = self.chain_head_exec(tag);
        self.push_middle(tag, &mut chain);
        self.push_tail(tag, &mut chain);
        chain
    }

    fn chain_head_exec(&self, tag: &str) -> (r: Vec<HandlerKind>)
        ensures
            r@ == chain_head(*self, tag@),
    {
        let mut chain: Vec<HandlerKind> = Vec::new();
        match default_handler(tag) {
            Some(k) => chain.push(k),
            None => {},
        }
        let ghost d = chain@;
        let p = self.profile;
        let extended = p == OutputProfile::Extended || p == OutputProfile::Pandoc || p == OutputProfile::Obsidian
            || p == OutputProfile::MdxSafe;
        push_if(&mut chain, crate::rewrite::contains_string(&self.skip_tags, tag), HandlerKind::Skip);
        push_if(&mut chain, (extended || p == OutputProfile::Gfm) && is_one_of(tag, "del", "s", "strike"), HandlerKind::Strike);
        let ghost before = chain@;
        if extended {
            match semantic_handler(tag, p) {
                Some(k) => chain.push(k),
                None => {},
            }
        }
        assert(chain@ =~= before + (if extended_profile(p) { semantic_kind(tag@, p) } else { Seq::empty() }));
        assert(d == match default_kind(tag@) {
            Some(k) => seq![k],
            None => Seq::<HandlerKind>::empty(),
        }) by {
            assert(d =~= match default_kind(tag@) {
                Some(k) => seq![k],
                None => Seq::<HandlerKind>::empty(),
            });
        }
        chain
    }

    fn push_middle(&self, tag: &str, chain: &mut Vec<HandlerKind>)
        ensures
            final(chain)@ == chain_middle(*self, tag@, old(chain)@),
    {
        let pre_or_div = str_eq(tag, "pre") || str_eq(tag, "div");
        push_if(chain, self.task_lists && str_eq(tag, "input"), HandlerKind::TaskList);
        push_if(chain, self.footnotes && str_eq(tag, "sup"), HandlerKind::FootnoteRef);
        push_if(chain, self.footnotes && str_eq(tag, "li"), HandlerKind::FootnoteDef);
        push_if(chain, self.definition_lists && str_eq(tag, "dl"), HandlerKind::DefinitionList);
        push_if(chain, str_eq(tag, "table"), HandlerKind::TableMarker);
        push_if(chain, self.math && str_eq(tag, "script"), HandlerKind::MathScript);
        push_if(chain, self.math && str_eq(tag, "math"), HandlerKind::MathMl);
        push_if(chain, pre_or_div && self.mermaid == MermaidPolicy::Drop, HandlerKind::MermaidDrop);
        push_if(chain, pre_or_div && self.mermaid == MermaidPolicy::Fenced, HandlerKind::MermaidFenced);
    }

    fn push_tail(&self, tag: &str, chain: &mut Vec<HandlerKind>)
        ensures
            final(chain)@ == chain_tail(*self, tag@, old(chain)@),
    {
        let p = self.profile;
        let refs = self.ref_links || self.ref_images;
        let section = refs && self.placement == ReferencePlacement::SectionEnd;
        push_if(
            chain,
            (p == OutputProfile::Extended || p == OutputProfile::Pandoc || p == OutputProfile::Obsidian)
                && (str_eq(tag, "div") || str_eq(tag, "blockquote")),
            HandlerKind::Alert,
        );
        push_if(chain, p == OutputProfile::Obsidian && str_eq(tag, "a"), HandlerKind::Wikilink);
        push_if(
            chain,
            refs && self.ref_links && self.placement != ReferencePlacement::End && str_eq(tag, "a"),
            HandlerKind::RefLink,
        );
        push_if(chain, refs && self.ref_images && str_eq(tag, "img"), HandlerKind::RefImage);
        push_if(chain, section && is_one_of(tag, "h1", "h2", "h3"), HandlerKind::HeadingFlush);
        push_if(chain, section && is_one_of(tag, "h4", "h5", "h6"), HandlerKind::HeadingFlush);
        push_if(chain, self.custom_rules.len() > 0 && str_eq(tag, "htmlmdrule"), HandlerKind::CustomRule);
    }

    /// The handler consulted after skipping `skipped` of them: the last
    /// registered first.
    pub fn find_handler(&self, tag: &str, skipped: usize) -> (r: Option<HandlerKind>)
        ensures
            r == handler_at(*self, tag@, skipped as nat),
    {
        let chain = self.handler_chain(tag);
        if skipped < chain.len() && skipped < 7 {
            Some(chain[chain.len() - 1 - skipped])
        } else {
            None
        }
    }
}

// ---------------------------------------------------------------------------
// Walking the tree
// ---------------------------------------------------------------------------

/// The only child of `n`, when it is a text node.
pub fn single_text_child(n: &DomNode) -> (r: Option<&String>)
    ensures
        match r {
            Some(t) => n is Element && crate::dom::children_of(*n).len() == 1
                && crate::dom::children_of(*n)[0] == (DomNode::Text { text: *t }),
            None => !(n is Element && crate::dom::children_of(*n).len() == 1 && crate::dom::children_of(*n)[0] is Text),
        },
{
    match n {
        DomNode::Element { children, .. } => {
            if children.len() == 1 {
                match &children[0] {
                    DomNode::Text { text } => Some(text),
                    _ => None,
                }
            } else {
                None
            }
        },
        _ => None,
    }
}

/// The attributes as plain values.
pub open spec fn attr_views(a: Seq<Attribute>) -> Seq<(crate::serialize::AttrNamespace, Seq<char>, Seq<char>)> {
    a.map_values(|x: Attribute| (x.ns, x.name@, x.value@))
}

/// The text of a node's only child, when that child is text.
pub open spec fn single_text(n: DomNode) -> Option<String> {
    match n {
        DomNode::Element { children, .. } => if children@.len() == 1 {
            match children@[0] {
                DomNode::Text { text } => Some(text),
                _ => None,
            }
        } else {
            None
        },
        _ => None,
    }
}

/// Tags that render alike: the same tag, `i`/`em`, `b`/`strong`.
pub open spec fn similar_tags(t1: Seq<char>, t2: Seq<char>) -> bool {
    ||| t1 == t2
    ||| t1 == "i"@ && t2 == "em"@
    ||| t1 == "em"@ && t2 == "i"@
    ||| t1 == "b"@ && t2 == "strong"@
    ||| t1 == "strong"@ && t2 == "b"@
}

/// Two adjacent siblings whose texts merge: similar inline elements (not
/// blocks, links or templates) with the same attributes and a single text
/// child each.
pub open spec fn combinable(n1: DomNode, n2: DomNode) -> bool {
    match (n1, n2) {
        (DomNode::Element { tag: t1, attrs: a1, .. }, DomNode::Element { tag: t2, attrs: a2, .. }) => {
            &&& !is_block_tag(t1@)
            &&& t1@ != "template"@
            &&& t2@ != "template"@
            &&& single_text(n1) is Some
            &&& single_text(n2) is Some
            &&& t1@ != "a"@
            &&& similar_tags(t1@, t2@)
            &&& attr_views(a1@) == attr_views(a2@)
        },
        _ => false,
    }
}

fn same_attrs(a: &Vec<Attribute>, b: &Vec<Attribute>) -> (r: bool)
    ensures
        r == (attr_views(a@) == attr_views(b@)),
{
    if a.len() != b.len() {
        assert(attr_views(a@).len() != attr_views(b@).len());
        return false;
    }
    let mut i: usize = 0;
    while i < a.len()
        invariant
            i <= a@.len(),
            a@.len() == b@.len(),
            attr_views(a@).take(i as int) == attr_views(b@).take(i as int),
        decreases a@.len() - i,
    {
        assert(attr_views(a@)[i as int] == (a@[i as int].ns, a@[i as int].name@, a@[i as int].value@));
        assert(attr_views(b@)[i as int] == (b@[i as int].ns, b@[i as int].name@, b@[i as int].value@));
        if a[i].ns != b[i].ns || !str_eq(a[i].name.as_str(), b[i].name.as_str()) || !str_eq(
            a[i].value.as_str(),
            b[i].value.as_str(),
        ) {
            assert(attr_views(a@)[i as int] != attr_views(b@)[i as int]);
            return false;
        }
        assert(attr_views(a@).take(i + 1) == attr_views(a@).take(i as int).push(attr_views(a@)[i as int]));
        assert(attr_views(b@).take(i + 1) == attr_views(b@).take(i as int).push(attr_views(b@)[i as int]));
        i += 1;
    }
    assert(attr_views(a@).take(a@.len() as int) == attr_views(a@));
    assert(attr_views(b@).take(b@.len() as int) == attr_views(b@));
    true
}

/// If two adjacent siblings are similar inline elements (same tag, or
/// `i`/`em`, `b`/`strong`; same attributes; each with a single text child;
/// not links or templates), the text of the second, which joins the first.
pub fn can_combine<'a>(n1: &DomNode, n2: &'a DomNode) -> (r: Option<&'a String>)
    ensures
        match r {
            Some(t) => combinable(*n1, *n2) && single_text(*n2) == Some(*t),
            None => !combinable(*n1, *n2),
        },
{
    let (t1, a1) = match n1 {
        DomNode::Element { tag, attrs, .. } => (tag, attrs),
        _ => return None,
    };
    let (t2, a2) = match n2 {
        DomNode::Element { tag, attrs, .. } => (tag, attrs),
        _ => return None,
    };
    if is_block_element(t1.as_str()) {
        return None;
    }
    if str_eq(t1.as_str(), "template") || str_eq(t2.as_str(), "template") {
        return None;
    }
    if single_text_child(n1).is_none() {
        return None;
    }
    let text2 = match single_text_child(n2) {
        Some(t) => t,
        None => return None,
    };
    if str_eq(t1.as_str(), "a") {
        return None;
    }
    let l1 = t1.as_str();
    let l2 = t2.as_str();
    let similar = str_eq(l1, l2) || (str_eq(l1, "i") && str_eq(l2, "em")) || (str_eq(l1, "em")
        && str_eq(l2, "i")) || (str_eq(l1, "b") && str_eq(l2, "strong")) || (str_eq(l1, "strong")
        && str_eq(l2, "b"));
    if similar && same_attrs(a1, a2) {
        Some(text2)
    } else {
        None
    }
}

/// One child to walk: its index, and the text that replaces its single
/// text child when similar siblings were merged into it.
pub struct EffectiveChild {
    pub index: usize,
    pub merged: Option<String>,
}

/// The text of a node's single text child, or nothing.
pub open spec fn text_of(n: DomNode) -> Seq<char> {
    match single_text(n) {
        Some(t) => t@,
        None => Seq::empty(),
    }
}

/// Where the run of siblings from `j` on that merge into `children[i]` ends.
pub open spec fn run_end(children: Seq<DomNode>, i: int, j: int) -> int
    decreases children.len() - j,
{
    if j < 0 || j >= children.len() || !combinable(children[i], children[j]) {
        j
    } else {
        run_end(children, i, j + 1)
    }
}

/// The merged text of the run `children[i..e]`: each one's text in turn.
pub open spec fn run_text(children: Seq<DomNode>, i: int, e: int) -> Seq<char>
    decreases e - i,
{
    if e <= i + 1 {
        text_of(children[i])
    } else {
        run_text(children, i, e - 1) + text_of(children[e - 1])
    }
}

/// The children walked from position `from` on: each run of similar
/// siblings becomes its first member, carrying the run's merged text when
/// the run has more than one member.
pub open spec fn effective_children(children: Seq<DomNode>, from: int) -> Seq<(int, Option<Seq<char>>)>
    decreases children.len() - from,
{
    if from < 0 || from >= children.len() {
        Seq::empty()
    } else {
        let e = run_end(children, from, from + 1);
        if e <= from || e > children.len() {
            Seq::empty()
        } else {
            seq![(from, if e == from + 1 { None } else { Some(run_text(children, from, e)) })]
                + effective_children(children, e)
        }
    }
}

/// An effective child as plain values.
pub open spec fn effective_view(e: EffectiveChild) -> (int, Option<Seq<char>>) {
    (
        e.index as int,
        match e.merged {
            Some(m) => Some(m@),
            None => None,
        },
    )
}

proof fn lemma_run_end(children: Seq<DomNode>, i: int, j: int)
    requires
        0 <= i < j <= children.len(),
    ensures
        j <= run_end(children, i, j) <= children.len(),
    decreases children.len() - j,
{
    if j < children.len() && combinable(children[i], children[j]) {
        lemma_run_end(children, i, j + 1);
    }
}

/// The children to walk after merging runs of similar adjacent inline
/// elements into the first of each run.
pub fn combine_children(children: &Vec<DomNode>) -> (r: Vec<EffectiveChild>)
    ensures
        forall|i: int| 0 <= i < r@.len() ==> #[trigger] r@[i].index < children@.len(),
        r@.map_values(|e: EffectiveChild| effective_view(e)) == effective_children(children@, 0),
{
    let ghost cs = children@;
    let mut effective: Vec<EffectiveChild> = Vec::new();
    let mut index: usize = 0;
    while index < children.len()
        invariant
            index <= children@.len(),
            cs == children@,
            forall|i: int| 0 <= i < effective@.len() ==> #[trigger] effective@[i].index < children@.len(),
            effective@.map_values(|e: EffectiveChild| effective_view(e)) + effective_children(cs, index as int)
                == effective_children(cs, 0),
        decreases children@.len() - index,
    {
        let first = &children[index];
        let mut end = index + 1;
        let mut merged: Option<String> = None;
        while end < children.len()
            invariant
                index < end <= children@.len(),
                cs == children@,
                *first == cs[index as int],
                run_end(cs, index as int, index + 1) == run_end(cs, index as int, end as int),
                match merged {
                    None => end == index + 1,
                    Some(m) => end > index + 1 && m@ == run_text(cs, index as int, end as int),
                },
            ensures
                run_end(cs, index as int, end as int) == end as int,
            decreases children@.len() - end,
        {
            let text = match can_combine(first, &children[end]) {
                Some(t) => t,
                None => break,
            };
            let ghost prev = merged;
            let mut m = match merged {
                Some(m) => m,
                None => match single_text_child(first) {
                    Some(t) => t.clone(),
                    None => String::new(),
                },
            };
            proof {
                assert(combinable(cs[index as int], cs[end as int]));
                assert(text_of(cs[end as int]) == text@);
                if prev is None {
                    assert(single_text(cs[index as int]) is Some);
                    assert(m@ == text_of(cs[index as int]));
                    assert(m@ == run_text(cs, index as int, end as int));
                }
                assert(run_end(cs, index as int, end as int) == run_end(cs, index as int, end + 1));
            }
            push_str(&mut m, text.as_str());
            assert(m@ == run_text(cs, index as int, end + 1));
            merged = Some(m);
            end += 1;
        }
        proof {
            lemma_run_end(cs, index as int, end as int);
            assert(run_end(cs, index as int, index + 1) == end);
        }
        let ghost before = effective@.map_values(|e: EffectiveChild| effective_view(e));
        let item = EffectiveChild { index, merged };
        let ghost v = effective_view(item);
        effective.push(item);
        assert(effective@.map_values(|e: EffectiveChild| effective_view(e)) == before.push(v));
        assert(effective_children(cs, index as int) == seq![v] + effective_children(cs, end as int));
        index = end;
    }
    effective
}

/// Does some ancestor have one of the two tags?
pub fn has_ancestor(ancestors: &Vec<String>, a: &str, b: &str) -> (r: bool)
    ensures
        r == exists|i: int| 0 <= i < ancestors@.len() && (#[trigger] ancestors@[i]@ == a@ || ancestors@[i]@ == b@),
{
    let mut i: usize = 0;
    while i < ancestors.len()
        invariant
            i <= ancestors@.len(),
            forall|j: int| 0 <= j < i ==> !(#[trigger] ancestors@[j]@ == a@ || ancestors@[j]@ == b@),
        decreases ancestors@.len() - i,
    {
        if str_eq(ancestors[i].as_str(), a) || str_eq(ancestors[i].as_str(), b) {
            return true;
        }
        i += 1;
    }
    false
}

fn push_tag(ancestors: &Vec<String>, tag: &str) -> (r: Vec<String>)
    ensures
        crate::options::views(r) == crate::options::views(*ancestors).push(tag@),
{
    let mut r: Vec<String> = Vec::new();
    let mut i: usize = 0;
    while i < ancestors.len()
        invariant
            i <= ancestors@.len(),
            crate::options::views(r) == crate::options::views(*ancestors).take(i as int),
        decreases ancestors@.len() - i,
    {
        let ghost before = crate::options::views(r);
        r.push(ancestors[i].clone());
        assert(crate::options::views(r) =~= before.push(ancestors@[i as int]@));
        i += 1;
        assert(crate::options::views(*ancestors).take(i as int) =~= crate::options::views(*ancestors).take(i - 1).push(ancestors@[i - 1]@));
    }
    assert(crate::options::views(*ancestors).take(ancestors@.len() as int) =~= crate::options::views(*ancestors));
    let ghost before = crate::options::views(r);
    r.push(tag.to_owned());
    assert(crate::options::views(r) =~= before.push(tag@));
    r
}

/// A child is smaller than its parent.
proof fn lemma_child_smaller(n: DomNode, i: int)
    requires
        0 <= i < crate::dom::children_of(n).len(),
    ensures
        decreases_to!(n => crate::dom::children_of(n)[i]),
{
    match n {
        DomNode::Document { children } => {
            assert(decreases_to!(n => n->Document_children));
            assert(decreases_to!(children => children@));
            assert(decreases_to!(children@ => children@[i]));
        },
        DomNode::Element { children, .. } => {
            assert(decreases_to!(n => n->Element_children));
            assert(decreases_to!(children => children@));
            assert(decreases_to!(children@ => children@[i]));
        },
        _ => {},
    }
}

/// The handler-chain length bound used to measure fallbacks.
pub open spec fn max_chain() -> nat {
    8
}

/// The tag of the parent, from the tags of the ancestors (the document
/// counts as `html`).
pub fn parent_tag(ancestors: &Vec<String>) -> (r: Option<&str>)
    ensures
        match r {
            Some(t) => ancestors@.len() > 0 && t@ == if ancestors@.last()@ == "#document"@ {
                "html"@
            } else {
                ancestors@.last()@
            },
            None => ancestors@.len() == 0,
        },
{
    if ancestors.len() == 0 {
        None
    } else {
        let t = ancestors[ancestors.len() - 1].as_str();
        if str_eq(t, "#document") {
            Some("html")
        } else {
            Some(t)
        }
    }
}

/// The tag of the innermost ancestor, the document counting as `html`.
pub open spec fn parent_view(ancestors: Seq<String>) -> Option<Seq<char>> {
    if ancestors.len() == 0 {
        None
    } else if ancestors.last()@ == "#document"@ {
        Some("html"@)
    } else {
        Some(ancestors.last()@)
    }
}

fn parent_is(ancestors: &Vec<String>, a: &str, b: &str) -> (r: bool)
    ensures
        r == match parent_view(ancestors@) {
            Some(p) => p == a@ || p == b@,
            None => false,
        },
{
    match parent_tag(ancestors) {
        Some(t) => str_eq(t, a) || str_eq(t, b),
        None => false,
    }
}

/// Does a table have header cells (`th` or `thead`) outside nested tables?
pub open spec fn has_header_cells(n: DomNode, is_root: bool) -> bool
    decreases n,
{
    match n {
        DomNode::Element { tag, children, .. } => if !is_root && tag@ == "table"@ {
            false
        } else {
            (!is_root && (tag@ == "th"@ || tag@ == "thead"@)) || any_header(children@)
        },
        DomNode::Document { children } => any_header(children@),
        _ => false,
    }
}

/// Does one of the nodes have header cells outside nested tables?
pub open spec fn any_header(cs: Seq<DomNode>) -> bool
    decreases cs,
{
    if cs.len() == 0 {
        false
    } else {
        any_header(cs.drop_last()) || has_header_cells(cs.last(), false)
    }
}

/// Whether a table has header cells outside nested tables.
pub fn has_explicit_headers(n: &DomNode, is_root: bool) -> (b: bool)
    ensures
        b == has_header_cells(*n, is_root),
    decreases n, 1nat,
{
    match n {
        DomNode::Element { tag, children, .. } => {
            proof {
                reveal_strlit("table");
                reveal_strlit("th");
                reveal_strlit("thead");
            }
            if !is_root && str_eq(tag.as_str(), "table") {
                return false;
            }
            if !is_root && (str_eq(tag.as_str(), "th") || str_eq(tag.as_str(), "thead")) {
                return true;
            }
            any_header_child(n, children)
        },
        DomNode::Document { children } => any_header_child(n, children),
        _ => false,
    }
}

fn any_header_child(n: &DomNode, children: &Vec<DomNode>) -> (b: bool)
    requires
        crate::dom::children_of(*n) == children@,
    ensures
        b == any_header(children@),
    decreases n, 0nat,
{
    let mut found = false;
    let mut i: usize = 0;
    while i < children.len()
        invariant
            i <= children@.len(),
            crate::dom::children_of(*n) == children@,
            found == any_header(children@.take(i as int)),
        decreases children@.len() - i,
    {
        proof {
            lemma_child_smaller(*n, i as int);
        }
        assert(children@.take(i + 1).drop_last() == children@.take(i as int));
        if !found && has_explicit_headers(&children[i], false) {
            found = true;
        }
        i += 1;
    }
    assert(children@.take(children@.len() as int) == children@);
    found
}

/// Counts the attributes other than the presentational ones (`class`,
/// `style`, `id`, `dir`, `lang`).
/// An attribute that is not presentational.
pub open spec fn meaningful_attr(a: Attribute) -> bool {
    !(a.name@ == "class"@ || a.name@ == "style"@ || a.name@ == "id"@ || a.name@ == "dir"@ || a.name@ == "lang"@)
}

/// The number of attributes that are not presentational.
pub open spec fn meaningful_count(attrs: Seq<Attribute>) -> nat
    decreases attrs.len(),
{
    if attrs.len() == 0 {
        0
    } else {
        meaningful_count(attrs.drop_last()) + if meaningful_attr(attrs.last()) { 1nat } else { 0nat }
    }
}

fn meaningful_attr_count(attrs: &Vec<Attribute>) -> (n: usize)
    ensures
        n <= attrs@.len(),
        n == meaningful_count(attrs@),
{
    let mut n: usize = 0;
    let mut i: usize = 0;
    while i < attrs.len()
        invariant
            i <= attrs@.len(),
            n <= i,
            n == meaningful_count(attrs@.take(i as int)),
        decreases attrs@.len() - i,
    {
        assert(attrs@.take(i + 1).drop_last() == attrs@.take(i as int));
        let a = attrs[i].name.as_str();
        if !(str_eq(a, "class") || str_eq(a, "style") || str_eq(a, "id") || str_eq(a, "dir")
            || str_eq(a, "lang")) {
            n += 1;
        }
        i += 1;
    }
    assert(attrs@.take(attrs@.len() as int) == attrs@);
    n
}

/// Does some attribute have a name outside `a`, `b`, `c`, `d`?
fn has_other_attr(attrs: &Vec<Attribute>, a: &str, b: &str, c: &str, d: &str) -> (r: bool)
    ensures
        r == exists|i: int| 0 <= i < attrs@.len() && !{
            let n = (#[trigger] attrs@[i]).name@;
            n == a@ || n == b@ || n == c@ || n == d@
        },
{
    let mut i: usize = 0;
    while i < attrs.len()
        invariant
            i <= attrs@.len(),
            forall|j: int| 0 <= j < i ==> {
                let n = (#[trigger] attrs@[j]).name@;
                n == a@ || n == b@ || n == c@ || n == d@
            },
        decreases attrs@.len() - i,
    {
        let n = attrs[i].name.as_str();
        if !(str_eq(n, a) || str_eq(n, b) || str_eq(n, c) || str_eq(n, d)) {
            return true;
        }
        i += 1;
    }
    false
}

/// Are all children of a list `li` elements or non-elements?
fn all_list_items(children: &Vec<DomNode>) -> (r: bool)
    ensures
        r == forall|i: int| 0 <= i < children@.len() && (#[trigger] children@[i]) is Element ==> is_li_node(children@[i]),
{
    let mut i: usize = 0;
    while i < children.len()
        invariant
            i <= children@.len(),
            forall|j: int| 0 <= j < i && (#[trigger] children@[j]) is Element ==> is_li_node(children@[j]),
        decreases children@.len() - i,
    {
        match &children[i] {
            DomNode::Element { tag, .. } => {
                if !str_eq(tag.as_str(), "li") {
                    return false;
                }
            },
            _ => {},
        }
        i += 1;
    }
    true
}

/// Are all children text nodes?
fn all_text(children: &Vec<DomNode>) -> (r: bool)
    ensures
        r == forall|i: int| 0 <= i < children@.len() ==> (#[trigger] children@[i]) is Text,
{
    let mut i: usize = 0;
    while i < children.len()
        invariant
            i <= children@.len(),
            forall|j: int| 0 <= j < i ==> (#[trigger] children@[j]) is Text,
        decreases children@.len() - i,
    {
        match &children[i] {
            DomNode::Text { .. } => {},
            _ => return false,
        }
        i += 1;
    }
    true
}

/// Is some child a block element?
/// A node is a block element.
pub open spec fn is_block_node(n: DomNode) -> bool {
    match n {
        DomNode::Element { tag, .. } => is_block_tag(tag@),
        _ => false,
    }
}

fn any_block_child(children: &Vec<DomNode>) -> (r: bool)
    ensures
        r == exists|i: int| 0 <= i < children@.len() && is_block_node(#[trigger] children@[i]),
{
    let mut i: usize = 0;
    while i < children.len()
        invariant
            i <= children@.len(),
            forall|j: int| 0 <= j < i ==> !is_block_node(#[trigger] children@[j]),
        decreases children@.len() - i,
    {
        match &children[i] {
            DomNode::Element { tag, .. } => {
                if is_block_element(tag.as_str()) {
                    return true;
                }
            },
            _ => {},
        }
        i += 1;
    }
    false
}

/// The language of a code block: from the `class` of the `code` element,
/// else from that of its parent.
/// The language of a code element: from its own class, else from its
/// parent's.
pub open spec fn code_language_of(attrs: Seq<Attribute>, parent: Option<DomNode>) -> Option<Seq<char>> {
    let own = match crate::dom::attr_value(attrs, "class"@) {
        Some(c) => class_language(c),
        None => None,
    };
    if own is Some {
        own
    } else {
        match parent {
            Some(DomNode::Element { attrs: pattrs, .. }) => match crate::dom::attr_value(pattrs@, "class"@) {
                Some(c) => class_language(c),
                None => None,
            },
            _ => None,
        }
    }
}

fn code_language(attrs: &Vec<Attribute>, parent: Option<&DomNode>) -> (r: Option<String>)
    ensures
        match (r, code_language_of(attrs@, match parent {
            Some(p) => Some(*p),
            None => None,
        })) {
            (Some(a), Some(b)) => a@ == b,
            (None, None) => true,
            _ => false,
        },
{
    match get_attr(attrs, "class") {
        Some(c) => {
            let l = language_of_class(c.as_str());
            if l.is_some() {
                return l;
            }
        },
        None => {},
    }
    match parent {
        Some(DomNode::Element { attrs: pattrs, .. }) => match get_attr(pattrs, "class") {
            Some(c) => language_of_class(c.as_str()),
            None => None,
        },
        _ => None,
    }
}

/// The text of the direct text children, concatenated.
/// The direct text children's text, concatenated.
pub open spec fn direct_text_of(children: Seq<DomNode>) -> Seq<char>
    decreases children.len(),
{
    if children.len() == 0 {
        Seq::empty()
    } else {
        direct_text_of(children.drop_last()) + match children.last() {
            DomNode::Text { text } => text@,
            _ => Seq::empty(),
        }
    }
}

fn direct_text(children: &Vec<DomNode>) -> (r: String)
    ensures
        r@ == direct_text_of(children@),
{
    let mut out = String::new();
    let mut i: usize = 0;
    while i < children.len()
        invariant
            i <= children@.len(),
            out@ == direct_text_of(children@.take(i as int)),
        decreases children@.len() - i,
    {
        assert(children@.take(i + 1).drop_last() == children@.take(i as int));
        match &children[i] {
            DomNode::Text { text } => push_str(&mut out, text.as_str()),
            _ => {},
        }
        i += 1;
    }
    assert(children@.take(children@.len() as int) == children@);
    out
}

/// Is some `display` attribute `block` (in any case)?
fn display_block(attrs: &Vec<Attribute>) -> (r: bool)
    ensures
        r == exists|i: int| 0 <= i < attrs@.len() && (#[trigger] attrs@[i]).name@ == "display"@
            && crate::text::eq_ignore_ascii_case(attrs@[i].value@, "block"@),
{
    let mut i: usize = 0;
    while i < attrs.len()
        invariant
            i <= attrs@.len(),
            forall|j: int| 0 <= j < i ==> !((#[trigger] attrs@[j]).name@ == "display"@
                && crate::text::eq_ignore_ascii_case(attrs@[j].value@, "block"@)),
        decreases attrs@.len() - i,
    {
        if str_eq(attrs[i].name.as_str(), "display") && crate::text::exec_eq_ignore_ascii_case(attrs[i].value.as_str(), "block") {
            return true;
        }
        i += 1;
    }
    false
}

fn str_len_below_max(s: &str, margin: usize) -> (b: bool)
    requires
        margin >= 1,
    ensures
        b == (s@.len() < usize::MAX / margin),
{
    char_vec(s).len() < usize::MAX / margin
}

impl Renderer {
    /// Renders a node into `output`; returns whether it rendered as
    /// Markdown only.
    pub fn walk_node(
        &mut self,
        node: &DomNode,
        ancestors: &Vec<String>,
        parent: Option<&DomNode>,
        parent_tag: Option<&str>,
        trim_leading_spaces: bool,
        is_pre: bool,
        text_override: Option<&String>,
        output: &mut String,
    ) -> (translated: bool)
        ensures
            same_config(*old(self), *final(self)),
            node matches DomNode::Text { text } ==> translated && final(output)@ == text_walked(
                old(output)@,
                match text_override {
                    Some(t) => t@,
                    None => text@,
                },
                is_pre,
                parent_tag matches Some(t) && t@ == "pre"@,
                trim_leading_spaces,
            ),
            node matches DomNode::Comment { text } ==> translated && final(output)@ == if old(self).settings.translation_mode
                == TranslationMode::Faithful {
                old(output)@ + "<!--"@ + text@ + "-->"@
            } else {
                old(output)@
            },
            node is Other ==> translated && final(output)@ == old(output)@,
            node is Element ==> final(output)@ == old(output)@ || exists|c: Seq<char>|
                final(output)@ == #[trigger] crate::blocks::appended(old(output)@, c, is_pre),
        decreases node, max_chain() + 2, 3nat,
    {
        let mut markdown_translated = true;
        match node {
            DomNode::Document { .. } => {
                let _ = self.walk_children(node, ancestors, true, false, None, output);
                trim_output_end(output);
            },
            DomNode::Text { text } => {
                let text: &str = match text_override {
                    Some(t) => t.as_str(),
                    None => text.as_str(),
                };
                if is_pre {
                    let in_pre = match parent_tag {
                        Some(t) => str_eq(t, "pre"),
                        None => false,
                    };
                    if in_pre {
                        let e = escape_pre_text_if_needed(text);
                        push_str(output, e.as_str());
                    } else {
                        push_str(output, text);
                    }
                } else {
                    let ov = char_vec(output.as_str());
                    let last_ends_with_space = ov.len() > 0 && ov[ov.len() - 1] == ' ';
                    let tv = char_vec(text);
                    if is_plain_text(text) {
                        let t = if trim_leading_spaces || (tv.len() > 0 && tv[0] == ' '
                            && last_ends_with_space) {
                            trim_start_string(text, TrimSet::Only(' '))
                        } else {
                            text.to_owned()
                        };
                        if !t.as_str().is_empty() {
                            push_str(output, t.as_str());
                        }
                        return markdown_translated;
                    }
                    let escaped = escape_if_needed(text);
                    let compressed = compress_whitespace(escaped.as_str());
                    let cv = char_vec(compressed.as_str());
                    let to_add = if trim_leading_spaces || (cv.len() > 0 && cv[0] == ' '
                        && last_ends_with_space) {
                        trim_start_string(compressed.as_str(), TrimSet::Only(' '))
                    } else {
                        compressed
                    };
                    if !to_add.as_str().is_empty() {
                        push_str(output, to_add.as_str());
                    }
                }
            },
            DomNode::Element { tag, .. } => {
                let is_head = str_eq(tag.as_str(), "head");
                let res = self.handle_element(node, ancestors, parent, 0, text_override);
                match res {
                    Some(res) => {
                        markdown_translated = res.markdown_translated;
                        if !res.content.as_str().is_empty() || !is_head {
                            append_normalized_content(output, res.content, is_pre);
                        }
                    },
                    None => {},
                }
            },
            DomNode::Comment { text } => {
                if self.settings.translation_mode == TranslationMode::Faithful {
                    push_str(output, "<!--");
                    push_str(output, text.as_str());
                    push_str(output, "-->");
                }
            },
            DomNode::Other => {},
        }
        markdown_translated
    }

    /// Renders the children of `node` into `output` (similar adjacent
    /// inline elements merged); returns whether all rendered as Markdown.
    pub fn walk_children(
        &mut self,
        node: &DomNode,
        ancestors: &Vec<String>,
        is_parent_block_element: bool,
        is_pre: bool,
        text_override: Option<&String>,
        output: &mut String,
    ) -> (translated: bool)
        ensures
            same_config(*old(self), *final(self)),
            crate::dom::children_of(*node).len() == 0 ==> translated && final(output)@ == old(output)@,
        decreases node, 0nat, 0nat,
    {
        let children = match node {
            DomNode::Document { children } => children,
            DomNode::Element { children, .. } => children,
            _ => return true,
        };
        let tag = node_tag(node);
        let inner = match node {
            DomNode::Document { .. } => push_tag(ancestors, "#document"),
            DomNode::Element { tag: t, .. } => push_tag(ancestors, t.as_str()),
            _ => push_tag(ancestors, ""),
        };
        let effective = combine_children(children);
        assert(effective@.len() == effective_children(children@, 0).len());
        assert(children@.len() == 0 ==> effective@.len() == 0);
        let mut trim_leading_spaces = !is_pre && is_parent_block_element;
        let mut markdown_translated = true;
        let mut k: usize = 0;
        while k < effective.len()
            invariant
                same_config(*old(self), *self),
                k <= effective@.len(),
                crate::dom::children_of(*node) == children@,
                k == 0 ==> markdown_translated && output@ == old(output)@,
                forall|i: int| 0 <= i < effective@.len() ==> #[trigger] effective@[i].index < children@.len(),
            decreases effective@.len() - k,
        {
            let e = &effective[k];
            let child = &children[e.index];
            proof {
                lemma_child_smaller(*node, e.index as int);
            }
            let is_block = match child {
                DomNode::Element { tag: ctag, .. } => is_block_element(ctag.as_str()),
                _ => false,
            };
            if is_block {
                trim_output_end_spaces(output);
            }
            let before = char_vec(output.as_str()).len();
            let child_override: Option<&String> = match &e.merged {
                Some(m) => Some(m),
                None => match child {
                    DomNode::Text { .. } => text_override,
                    _ => None,
                },
            };
            let t = self.walk_node(
                child,
                &inner,
                Some(node),
                tag,
                trim_leading_spaces,
                is_pre,
                child_override,
                output,
            );
            markdown_translated = markdown_translated && t;
            if char_vec(output.as_str()).len() > before {
                trim_leading_spaces = is_block;
            }
            k += 1;
        }
        markdown_translated
    }

    /// The children's content, in a block or `<pre>` context as the node and
    /// its ancestors say.
    pub fn children_result(&mut self, node: &DomNode, ancestors: &Vec<String>, text_override: Option<&String>) -> (r: HandlerResult)
        ensures
            same_config(*old(self), *final(self)),
            crate::dom::children_of(*node).len() == 0 ==> r.markdown_translated && r.content@ == Seq::<char>::empty(),
        decreases node, 0nat, 1nat,
    {
        let mut output = String::new();
        let tag = node_tag(node);
        let is_block = match tag {
            Some(t) => is_block_element(t),
            None => false,
        };
        let is_pre = match tag {
            Some(t) => str_eq(t, "pre") || str_eq(t, "code"),
            None => false,
        } || has_ancestor(ancestors, "pre", "code");
        let translated = self.walk_children(node, ancestors, is_block, is_pre, text_override, &mut output);
        HandlerResult { content: output, markdown_translated: translated }
    }

    /// A node rendered on its own.
    pub fn handle_node(&mut self, node: &DomNode, ancestors: &Vec<String>, parent: Option<&DomNode>) -> (r: HandlerResult)
        ensures
            same_config(*old(self), *final(self)),
            node matches DomNode::Text { text } ==> r.markdown_translated && r.content@ == text_walked(
                Seq::empty(),
                text@,
                false,
                false,
                true,
            ),
            node matches DomNode::Comment { text } ==> r.markdown_translated && r.content@ == if old(self).settings.translation_mode
                == TranslationMode::Faithful {
                "<!--"@ + text@ + "-->"@
            } else {
                Seq::empty()
            },
            node is Other ==> r.markdown_translated && r.content@ == Seq::<char>::empty(),
            node is Element ==> r.content@ == Seq::<char>::empty() || exists|c: Seq<char>|
                r.content@ == #[trigger] crate::blocks::appended(Seq::empty(), c, false),
        decreases node, max_chain() + 2, 4nat,
    {
        let mut output = String::new();
        let translated = self.walk_node(node, ancestors, parent, None, true, false, None, &mut output);
        HandlerResult { content: output, markdown_translated: translated }
    }

    /// Renders an element with the handler found after skipping `skipped`
    /// handlers of its tag; with none left, walks its children (or, in
    /// faithful mode, writes it as HTML).
    pub fn handle_element(
        &mut self,
        node: &DomNode,
        ancestors: &Vec<String>,
        parent: Option<&DomNode>,
        skipped: usize,
        text_override: Option<&String>,
    ) -> (r: Option<HandlerResult>)
        requires
            skipped <= max_chain(),
        ensures
            same_config(*old(self), *final(self)),
            r matches Some(res) ==> (res.markdown_translated ==> match *node {
                DomNode::Element { tag, .. } => match handler_at(*old(self), tag@, skipped as nat) {
                    Some(k) => rendered_by(k, old(self).settings, *node, res),
                    None => true,
                },
                _ => true,
            }),
            match *node {
                DomNode::Element { tag, .. } => match handler_at(*old(self), tag@, skipped as nat) {
                    Some(k) => handler_renders(k, old(self).settings, *node) ==> r is Some,
                    None => r is Some,
                },
                _ => r is None,
            },
        decreases node, max_chain() + 1 - skipped, 2nat,
    {
        let tag = match node {
            DomNode::Element { tag, .. } => tag.as_str(),
            _ => return None,
        };
        match self.find_handler(tag, skipped) {
            Some(kind) => self.run_handler(kind, node, ancestors, parent, skipped, text_override),
            None => {
                if self.settings.translation_mode == TranslationMode::Faithful {
                    Some(self.serialized(node, ancestors, text_override))
                } else {
                    Some(self.children_result(node, ancestors, text_override))
                }
            },
        }
    }

    /// Writes an element back as HTML.
    pub fn serialize_node(&mut self, node: &DomNode, ancestors: &Vec<String>, text_override: Option<&String>) -> (r: String)
        ensures
            same_config(*old(self), *final(self)),
            exists|c: Seq<char>| r@ == #[trigger] serialized_as(*node, c),
        decreases node, 0nat, 2nat,
    {
        match node {
            DomNode::Element { tag, attrs, html, .. } => {
                if is_block_element(tag.as_str()) {
                    let r = crate::serialize::serialize_element(tag.as_str(), attrs, "", html.as_str());
                    proof {
                        reveal_strlit("");
                    }
                    assert(r@ == serialized_as(*node, Seq::empty()));
                    r
                } else {
                    let walked = self.children_result(node, ancestors, text_override);
                    let r = crate::serialize::serialize_element(tag.as_str(), attrs, walked.content.as_str(), "");
                    proof {
                        reveal_strlit("");
                    }
                    assert(r@ == serialized_as(*node, walked.content@));
                    r
                }
            },
            _ => {
                let r = String::new();
                assert(r@ == serialized_as(*node, Seq::empty()));
                r
            },
        }
    }

    /// An element written back as HTML.
    fn serialized(&mut self, node: &DomNode, ancestors: &Vec<String>, text_override: Option<&String>) -> (r: HandlerResult)
        ensures
            same_config(*old(self), *final(self)),
            !r.markdown_translated,
            exists|c: Seq<char>| r.content@ == #[trigger] serialized_as(*node, c),
        decreases node, 0nat, 3nat,
    {
        let content = self.serialize_node(node, ancestors, text_override);
        HandlerResult { content, markdown_translated: false }
    }

    /// An element whose translation only depends on its parent's tag: as
    /// HTML in faithful mode under another parent, else its content as a
    /// block.
    fn by_parent(&mut self, node: &DomNode, ancestors: &Vec<String>, a: &str, b: &str, text_override: Option<&String>) -> (r: HandlerResult)
        ensures
            same_config(*old(self), *final(self)),
            old(self).settings.translation_mode == TranslationMode::Faithful && !parent_matches(ancestors@, a@, b@)
                ==> !r.markdown_translated && exists|c: Seq<char>| r.content@ == #[trigger] serialized_as(*node, c),
            !(old(self).settings.translation_mode == TranslationMode::Faithful && !parent_matches(ancestors@, a@, b@))
                ==> r.markdown_translated && exists|c: Seq<char>| #[trigger] block_md(c) == r.content@,
        decreases node, 0nat, 4nat,
    {
        if self.settings.translation_mode == TranslationMode::Faithful && !parent_is(ancestors, a, b) {
            self.serialized(node, ancestors, text_override)
        } else {
            let walked = self.children_result(node, ancestors, text_override);
            let r = markdown(block_markdown(walked.content.as_str()));
            assert(block_md(walked.content@) == r.content@);
            r
        }
    }

    /// The cells of a row with tag `cell_tag`, each rendered and trimmed;
    /// and whether all rendered as Markdown.
    fn row_cells(&mut self, row: &DomNode, row_ancestors: &Vec<String>, cell_tag: &str) -> (r: (Vec<String>, bool))
        ensures
            same_config(*old(self), *final(self)),
            row is Element ==> r.0@.len() == tagged_count(crate::dom::children_of(*row), cell_tag@),
            !(row is Element) ==> r.0@.len() == 0,
        decreases row, 0nat, 6nat,
    {
        let mut cells: Vec<String> = Vec::new();
        let mut all = true;
        let (children, inner) = match row {
            DomNode::Element { tag, children, .. } => (children, push_tag(row_ancestors, tag.as_str())),
            _ => return (cells, all),
        };
        let mut i: usize = 0;
        while i < children.len()
            invariant
                same_config(*old(self), *self),
                i <= children@.len(),
                crate::dom::children_of(*row) == children@,
                cells@.len() == tagged_count(children@.take(i as int), cell_tag@),
            decreases children@.len() - i,
        {
            let c = &children[i];
            proof {
                lemma_child_smaller(*row, i as int);
                assert(children@.take(i + 1).drop_last() == children@.take(i as int));
            }
            let is_cell = match c {
                DomNode::Element { tag, .. } => str_eq(tag.as_str(), cell_tag),
                _ => false,
            };
            if is_cell {
                let res = self.handle_node(c, &inner, Some(row));
                if !res.markdown_translated {
                    all = false;
                }
                cells.push(trim_string(res.content.as_str(), TrimSet::DocWs));
            }
            i += 1;
        }
        assert(children@.take(children@.len() as int) == children@);
        (cells, all)
    }

    /// `<table>`: a pipe table from its caption, header row and body rows.
    fn table(&mut self, node: &DomNode, ancestors: &Vec<String>, text_override: Option<&String>) -> (r: Option<HandlerResult>)
        ensures
            same_config(*old(self), *final(self)),
            r matches Some(res) ==> if res.markdown_translated {
                exists|c: Seq<Seq<char>>, h: Seq<Seq<char>>, rows: Seq<Seq<Seq<char>>>, w: Seq<char>|
                    #![trigger crate::table::pipe_table(c, h, rows, w)]
                    crate::table::pipe_table(c, h, rows, w) == Some(res.content@)
            } else {
                old(self).settings.translation_mode == TranslationMode::Faithful && exists|c: Seq<char>|
                    res.content@ == #[trigger] serialized_as(*node, c)
            },
            !(node is Element) ==> r is None,
            node is Element && (forall|i: int| 0 <= i < crate::dom::children_of(*node).len()
                ==> !is_thead_node(#[trigger] crate::dom::children_of(*node)[i])) && (exists|i: int|
                0 <= i < crate::dom::children_of(*node).len() && row_with_cells(
                #[trigger] crate::dom::children_of(*node)[i])) ==> r is Some,
        decreases node, 0nat, 7nat,
    {
        let children = match node {
            DomNode::Element { children, .. } => children,
            _ => return None,
        };
        let inner = push_tag(ancestors, "table");
        let mut all_translated = true;
        let mut captions: Vec<String> = Vec::new();
        let mut headers: Vec<String> = Vec::new();
        let mut rows: Vec<Vec<String>> = Vec::new();
        let mut has_thead = false;
        let ghost no_thead = forall|i: int| 0 <= i < children@.len() ==> !is_thead_node(#[trigger] children@[i]);
        let mut i: usize = 0;
        while i < children.len()
            invariant
                same_config(*old(self), *self),
                i <= children@.len(),
                crate::dom::children_of(*node) == children@,
                no_thead == forall|i: int| 0 <= i < children@.len() ==> !is_thead_node(#[trigger] children@[i]),
                no_thead && (exists|j: int| 0 <= j < i && row_with_cells(#[trigger] children@[j]))
                    ==> headers@.len() > 0,
                no_thead && has_thead ==> headers@.len() > 0,
            decreases children@.len() - i,
        {
            let child = &children[i];
            let ghost h0 = headers@.len();
            proof {
                lemma_child_smaller(*node, i as int);
            }
            match child {
                DomNode::Element { tag, children: grand, .. } => {
                    let t = tag.as_str();
                    if str_eq(t, "caption") {
                        proof {
                            reveal_strlit("tr");
                            reveal_strlit("caption");
                            assert(t@ == tag@);
                            assert("caption"@.len() == 7 && "tr"@.len() == 2);
                            assert(!row_with_cells(*child));
                        }
                        let res = self.handle_node(child, &inner, Some(node));
                        captions.push(trim_string(res.content.as_str(), TrimSet::DocWs));
                    } else if str_eq(t, "thead") {
                        proof {
                            assert(is_thead_node(children@[i as int]));
                        }
                        let mut tr_index: Option<usize> = None;
                        let mut j: usize = 0;
                        while j < grand.len()
                            invariant
                                same_config(*old(self), *self),
                                j <= grand@.len(),
                                match tr_index {
                                    Some(x) => x < grand@.len(),
                                    None => true,
                                },
                            decreases grand@.len() - j,
                        {
                            match &grand[j] {
                                DomNode::Element { tag: gt, .. } => {
                                    if str_eq(gt.as_str(), "tr") {
                                        tr_index = Some(j);
                                        break;
                                    }
                                },
                                _ => {},
                            }
                            j += 1;
                        }
                        has_thead = true;
                        let (cells, translated) = match tr_index {
                            Some(x) => {
                                let thead_anc = push_tag(&inner, "thead");
                                proof {
                                    lemma_child_smaller(*child, x as int);
                                }
                                self.row_cells(&grand[x], &thead_anc, "th")
                            },
                            None => self.row_cells(child, &inner, "th"),
                        };
                        headers = cells;
                        all_translated = all_translated && translated;
                        if headers.len() == 0 {
                            let (cells, translated) = match tr_index {
                                Some(x) => {
                                    let thead_anc = push_tag(&inner, "thead");
                                    proof {
                                        lemma_child_smaller(*child, x as int);
                                    }
                                    self.row_cells(&grand[x], &thead_anc, "td")
                                },
                                None => self.row_cells(child, &inner, "td"),
                            };
                            headers = cells;
                            all_translated = all_translated && translated;
                        }
                    } else if str_eq(t, "tbody") || str_eq(t, "tfoot") {
                        proof {
                            reveal_strlit("tr");
                            reveal_strlit("tbody");
                            reveal_strlit("tfoot");
                            assert(t@ == tag@);
                            assert("tbody"@.len() == 5 && "tfoot"@.len() == 5 && "tr"@.len() == 2);
                            assert(!row_with_cells(*child));
                        }
                        let section_anc = push_tag(&inner, t);
                        let mut j: usize = 0;
                        while j < grand.len()
                            invariant
                                same_config(*old(self), *self),
                                j <= grand@.len(),
                                crate::dom::children_of(*child) == grand@,
                                decreases_to!(*node => *child),
                                h0 > 0 ==> headers@.len() > 0,
                                no_thead && has_thead ==> headers@.len() > 0,
                                no_thead == forall|i: int| 0 <= i < children@.len() ==> !is_thead_node(#[trigger] children@[i]),
                            decreases grand@.len() - j,
                        {
                            let row = &grand[j];
                            proof {
                                lemma_child_smaller(*child, j as int);
                            }
                            let is_tr = match row {
                                DomNode::Element { tag: rt, .. } => str_eq(rt.as_str(), "tr"),
                                _ => false,
                            };
                            if is_tr {
                                let mut used_as_header = false;
                                if !has_thead && headers.len() == 0 {
                                    let (cells, translated) = self.row_cells(row, &section_anc, "th");
                                    headers = cells;
                                    all_translated = all_translated && translated;
                                    has_thead = headers.len() > 0;
                                    used_as_header = has_thead;
                                }
                                if !used_as_header {
                                    let (cells, translated) = self.row_cells(row, &section_anc, "td");
                                    all_translated = all_translated && translated;
                                    if cells.len() > 0 {
                                        rows.push(cells);
                                    }
                                }
                            }
                            j += 1;
                        }
                    } else if str_eq(t, "tr") {
                        if !has_thead && headers.len() == 0 {
                            let (cells, translated) = self.row_cells(child, &inner, "th");
                            headers = cells;
                            all_translated = all_translated && translated;
                            if headers.len() == 0 {
                                let (cells, translated) = self.row_cells(child, &inner, "td");
                                if cells.len() > 0 {
                                    headers = cells;
                                    all_translated = all_translated && translated;
                                }
                            }
                            has_thead = headers.len() > 0;
                        } else {
                            let (cells, translated) = self.row_cells(child, &inner, "td");
                            all_translated = all_translated && translated;
                            if cells.len() > 0 {
                                rows.push(cells);
                            }
                        }
                        proof {
                            if no_thead && row_with_cells(*child) {
                                assert(headers@.len() > 0);
                            }
                        }
                    }
                },
                _ => {},
            }
            proof {
                if no_thead && (exists|j: int| 0 <= j < i + 1 && row_with_cells(#[trigger] children@[j])) {
                    if !row_with_cells(children@[i as int]) {
                        let j = choose|j: int| 0 <= j < i + 1 && row_with_cells(#[trigger] children@[j]);
                        assert(j < i);
                    }
                }
            }
            i += 1;
        }
        proof {
            if no_thead && (exists|i: int| 0 <= i < children@.len() && row_with_cells(#[trigger] children@[i])) {
                assert(headers@.len() > 0);
                assert(crate::options::views(headers).len() == headers@.len());
            }
        }
        if self.settings.translation_mode == TranslationMode::Faithful && !all_translated {
            return Some(self.serialized(node, ancestors, text_override));
        }
        let mut widest: usize = 0;
        let mut k: usize = 0;
        while k < rows.len()
            invariant
                same_config(*old(self), *self),
                k <= rows@.len(),
            decreases rows@.len() - k,
        {
            if rows[k].len() > widest {
                widest = rows[k].len();
            }
            k += 1;
        }
        let num_columns = if headers.len() == 0 {
            widest
        } else {
            headers.len()
        };
        if (rows.len() == 0 && headers.len() == 0) || num_columns == 0 {
            let walked = self.children_result(node, ancestors, text_override);
            return match crate::table::render_pipe_table(&captions, &headers, &rows, walked.content.as_str()) {
                Some(s) => Some(markdown(s)),
                None => None,
            };
        }
        match crate::table::render_pipe_table(&captions, &headers, &rows, "") {
            Some(s) => Some(markdown(s)),
            None => None,
        }
    }

    /// `<ol>`: its children rendered, items numbered.
    fn ordered_list(&mut self, node: &DomNode, ancestors: &Vec<String>) -> (r: (String, bool))
        requires
            crate::dom::children_of(*node).len() < usize::MAX - 0x8000_0000,
        ensures
            same_config(*old(self), *final(self)),
            numbered_children(*node, old(self).settings.ol_number_spacing as nat, r.0@),
        decreases node, 0nat, 5nat,
    {
        let (children, attrs, inner) = match node {
            DomNode::Element { tag, children, attrs, .. } => (children, attrs, push_tag(ancestors, tag.as_str())),
            _ => return (String::new(), true),
        };
        let mut items: Vec<ListChild> = Vec::new();
        let mut all = true;
        let mut i: usize = 0;
        while i < children.len()
            invariant
                same_config(*old(self), *self),
                i <= children@.len(),
                items@.len() == i,
                forall|j: int| 0 <= j < i ==> (#[trigger] items@[j]).is_li == is_li_node(children@[j]),
                children@.len() < usize::MAX - 0x8000_0000,
                crate::dom::children_of(*node) == children@,
            decreases children@.len() - i,
        {
            let c = &children[i];
            proof {
                lemma_child_smaller(*node, i as int);
            }
            let res = self.handle_node(c, &inner, Some(node));
            if !res.markdown_translated {
                all = false;
            }
            let is_li = match c {
                DomNode::Element { tag, .. } => str_eq(tag.as_str(), "li"),
                _ => false,
            };
            items.push(ListChild { text: res.content, is_li });
            i += 1;
        }
        let start = get_attr(attrs, "start");
        let content = match &start {
            Some(s) => number_ol_items(&self.settings, &items, Some(s.as_str())),
            None => number_ol_items(&self.settings, &items, None),
        };
        proof {
            let st = ol_start(crate::dom::attr_value(attrs@, "start"@));
            assert(content@ == numbered_list(old(self).settings.ol_number_spacing as nat, items@, st));
        }
        (content, all)
    }

    /// The children rendered one by one and concatenated, leaving out
    /// footnote backlinks (`skip == 1`) or alert titles (`skip == 2`).
    fn rendered_children(&mut self, node: &DomNode, ancestors: &Vec<String>, skip: u8) -> (r: String)
        ensures
            same_config(*old(self), *final(self)),
            !(node is Element) || crate::dom::children_of(*node).len() == 0 ==> r@ == Seq::<char>::empty(),
        decreases node, 0nat, 5nat,
    {
        let (children, inner) = match node {
            DomNode::Element { tag, children, .. } => (children, push_tag(ancestors, tag.as_str())),
            _ => return String::new(),
        };
        let mut out = String::new();
        let mut i: usize = 0;
        while i < children.len()
            invariant
                same_config(*old(self), *self),
                i <= children@.len(),
                crate::dom::children_of(*node) == children@,
                children@.len() == 0 ==> out@ == Seq::<char>::empty(),
            decreases children@.len() - i,
        {
            let c = &children[i];
            proof {
                lemma_child_smaller(*node, i as int);
            }
            let left_out = if skip == 1 {
                is_backlink(c)
            } else if skip == 2 {
                is_alert_title(c)
            } else {
                false
            };
            if !left_out {
                let res = self.handle_node(c, &inner, Some(node));
                push_str(&mut out, res.content.as_str());
            }
            i += 1;
        }
        out
    }

    /// The terms and definitions of a definition list, each its trimmed
    /// content; empty ones left out.
    fn definition_items(&mut self, node: &DomNode, ancestors: &Vec<String>) -> (r: Vec<DefinitionItem>)
        ensures
            same_config(*old(self), *final(self)),
            !(node is Element) ==> r@.len() == 0,
            r@.len() <= crate::dom::children_of(*node).len(),
            forall|i: int| 0 <= i < r@.len() ==> (#[trigger] r@[i]).content@.len() > 0,
        decreases node, 0nat, 5nat,
    {
        let (children, inner) = match node {
            DomNode::Element { tag, children, .. } => (children, push_tag(ancestors, tag.as_str())),
            _ => return Vec::new(),
        };
        let mut items: Vec<DefinitionItem> = Vec::new();
        let mut i: usize = 0;
        while i < children.len()
            invariant
                same_config(*old(self), *self),
                i <= children@.len(),
                crate::dom::children_of(*node) == children@,
                items@.len() <= i,
                forall|j: int| 0 <= j < items@.len() ==> (#[trigger] items@[j]).content@.len() > 0,
            decreases children@.len() - i,
        {
            let c = &children[i];
            proof {
                lemma_child_smaller(*node, i as int);
            }
            match c {
                DomNode::Element { tag, .. } => {
                    let content = self.children_result(c, &inner, None).content;
                    let t = trim_string(content.as_str(), TrimSet::UnicodeWs);
                    if !t.as_str().is_empty() {
                        if str_eq(tag.as_str(), "dt") {
                            items.push(DefinitionItem { is_term: true, content: t });
                        } else if str_eq(tag.as_str(), "dd") {
                            items.push(DefinitionItem { is_term: false, content: t });
                        }
                    }
                },
                _ => {},
            }
            i += 1;
        }
        items
    }

    /// Runs the handler `kind` on an element.
    fn run_handler(
        &mut self,
        kind: HandlerKind,
        node: &DomNode,
        ancestors: &Vec<String>,
        parent: Option<&DomNode>,
        skipped: usize,
        text_override: Option<&String>,
    ) -> (r: Option<HandlerResult>)
        requires
            skipped < 7,
        ensures
            same_config(*old(self), *final(self)),
            r matches Some(res) ==> (res.markdown_translated ==> rendered_by(kind, old(self).settings, *node, res)),
            handler_renders(kind, old(self).settings, *node) ==> r is Some,
        decreases node, max_chain() + 1 - skipped, 1nat,
    {
        match kind {
            HandlerKind::Img | HandlerKind::Anchor => {
                self.run_link_handler(kind, node, ancestors, parent, skipped, text_override)
            },
            HandlerKind::List | HandlerKind::ListItem | HandlerKind::Blockquote | HandlerKind::Code => {
                self.run_structure_handler(kind, node, ancestors, parent, skipped, text_override)
            },
            HandlerKind::Bold | HandlerKind::Italic | HandlerKind::Heading | HandlerKind::Br
            | HandlerKind::Hr | HandlerKind::Table | HandlerKind::TdTh | HandlerKind::Tr
            | HandlerKind::Tbody | HandlerKind::Thead | HandlerKind::Caption | HandlerKind::P
            | HandlerKind::Pre | HandlerKind::HeadBody | HandlerKind::Html | HandlerKind::Span
            | HandlerKind::Block => {
                self.run_text_block_handler(kind, node, ancestors, parent, skipped, text_override)
            },
            HandlerKind::Skip | HandlerKind::TaskList | HandlerKind::TableMarker
            | HandlerKind::MermaidDrop | HandlerKind::MermaidFenced | HandlerKind::Strike
            | HandlerKind::Mark | HandlerKind::Ins | HandlerKind::SubScript | HandlerKind::SupScript
            | HandlerKind::CodeLike | HandlerKind::Cite | HandlerKind::Quote | HandlerKind::Kbd
            | HandlerKind::Unwrap | HandlerKind::Address => {
                self.run_inline_extension_handler(kind, node, ancestors, parent, skipped, text_override)
            },
            _ => self.run_block_extension_handler(kind, node, ancestors, parent, skipped, text_override),
        }
    }

    /// Runs the image or link handler.
    #[verifier::spinoff_prover]
    #[verifier::rlimit(50)]
    fn run_link_handler(
        &mut self,
        kind: HandlerKind,
        node: &DomNode,
        ancestors: &Vec<String>,
        parent: Option<&DomNode>,
        skipped: usize,
        text_override: Option<&String>,
    ) -> (r: Option<HandlerResult>)
        requires
            skipped < 7,
        ensures
            same_config(*old(self), *final(self)),
            r matches Some(res) ==> (res.markdown_translated ==> rendered_by(kind, old(self).settings, *node, res)),
            (kind == HandlerKind::Img || kind == HandlerKind::Anchor) && handler_renders(kind, old(self).settings, *node) ==> r is Some,
        decreases node, max_chain() + 1 - skipped, 0nat,
    {
        let (tag, attrs, children, html) = match node {
            DomNode::Element { tag, attrs, children, html } => (tag, attrs, children, html),
            _ => return None,
        };
        let faithful = self.settings.translation_mode == TranslationMode::Faithful;
        let has_attrs = attrs.len() > 0;
        match kind {
            HandlerKind::Img => {
                if faithful && has_other_attr(attrs, "href", "src", "alt", "title") {
                    return Some(self.serialized(node, ancestors, text_override));
                }
                let link = match last_attr_exec(attrs, "href", "src") {
                    Some(l) => l,
                    None => return None,
                };
                let alt = last_attr_exec(attrs, "alt", "alt");
                let title = last_attr_exec(attrs, "title", "title");
                let md = match (&alt, &title) {
                    (Some(a), Some(t)) => image_markdown(link.as_str(), Some(a.as_str()), Some(t.as_str())),
                    (Some(a), None) => image_markdown(link.as_str(), Some(a.as_str()), None),
                    (None, Some(t)) => image_markdown(link.as_str(), None, Some(t.as_str())),
                    (None, None) => image_markdown(link.as_str(), None, None),
                };
                let res = markdown(md);
                assert(rendered_from(kind, self.settings, *node, Seq::empty(), res));
                Some(res)
            },
            HandlerKind::Anchor => {
                if faithful && has_other_attr(attrs, "href", "title", "href", "title") {
                    return Some(self.serialized(node, ancestors, text_override));
                }
                let link = match last_attr_exec(attrs, "href", "href") {
                    Some(l) => l,
                    None => return Some(self.children_result(node, ancestors, text_override)),
                };
                let title = match last_attr_exec(attrs, "title", "title") {
                    Some(t) => Some(process_title(t.as_str())),
                    None => None,
                };
                let link = escape_link_destination(link.as_str());
                let content = self.children_result(node, ancestors, text_override).content;
                let md = match self.settings.link_style {
                    RenderLinkStyle::Inlined => match &title {
                        Some(t) => self.anchor.build_inlined_anchor(content.as_str(), link.as_str(), Some(t.as_str()), false),
                        None => self.anchor.build_inlined_anchor(content.as_str(), link.as_str(), None, false),
                    },
                    RenderLinkStyle::InlinedPreferAutolinks => match &title {
                        Some(t) => self.anchor.build_inlined_anchor(content.as_str(), link.as_str(), Some(t.as_str()), true),
                        None => self.anchor.build_inlined_anchor(content.as_str(), link.as_str(), None, true),
                    },
                    RenderLinkStyle::Referenced => {
                        if self.anchor.links.len() < usize::MAX {
                            let style = self.settings.link_reference_style;
                            self.anchor.build_referenced_anchor(content.as_str(), link, title, &style)
                        } else {
                            match &title {
                                Some(t) => self.anchor.build_inlined_anchor(content.as_str(), link.as_str(), Some(t.as_str()), false),
                                None => self.anchor.build_inlined_anchor(content.as_str(), link.as_str(), None, false),
                            }
                        }
                    },
                };
                Some(markdown(md))
            },
            _ => None,
        }
    }

    /// Runs a handler for lists, quotes and code.
    #[verifier::spinoff_prover]
    #[verifier::rlimit(50)]
    fn run_structure_handler(
        &mut self,
        kind: HandlerKind,
        node: &DomNode,
        ancestors: &Vec<String>,
        parent: Option<&DomNode>,
        skipped: usize,
        text_override: Option<&String>,
    ) -> (r: Option<HandlerResult>)
        requires
            skipped < 7,
        ensures
            same_config(*old(self), *final(self)),
            r matches Some(res) ==> (res.markdown_translated ==> rendered_by(kind, old(self).settings, *node, res)),
            (kind == HandlerKind::List || kind == HandlerKind::ListItem || kind == HandlerKind::Blockquote || kind == HandlerKind::Code) && handler_renders(kind, old(self).settings, *node) ==> r is Some,
        decreases node, max_chain() + 1 - skipped, 0nat,
    {
        let (tag, attrs, children, html) = match node {
            DomNode::Element { tag, attrs, children, html } => (tag, attrs, children, html),
            _ => return None,
        };
        let faithful = self.settings.translation_mode == TranslationMode::Faithful;
        let has_attrs = attrs.len() > 0;
        match kind {
            HandlerKind::List => {
                if faithful && (meaningful_attr_count(attrs) > 1 || !all_list_items(children)) {
                    return Some(self.serialized(node, ancestors, text_override));
                }
                let in_li = parent_is(ancestors, "li", "li");
                let (content, translated) = if str_eq(tag.as_str(), "ol") && children.len() < usize::MAX - 0x8000_0000 {
                    self.ordered_list(node, ancestors)
                } else {
                    let res = self.children_result(node, ancestors, text_override);
                    (res.content, res.markdown_translated)
                };
                if faithful && !translated {
                    return Some(self.serialized(node, ancestors, text_override));
                }
                match list_markdown(content.as_str(), in_li) {
                    Some(s) => {
                        let res = markdown(s);
                        assert(rendered_from(kind, self.settings, *node, content@, res));
                        Some(res)
                    },
                    None => None,
                }
            },
            HandlerKind::ListItem => {
                if faithful && has_attrs {
                    return Some(self.serialized(node, ancestors, text_override));
                }
                let walked = self.children_result(node, ancestors, text_override);
                let in_ol = parent_is(ancestors, "ol", "ol");
                let res = markdown(list_item_markdown(&self.settings, walked.content.as_str(), in_ol));
                assert(rendered_from(kind, self.settings, *node, walked.content@, res));
                Some(res)
            },
            HandlerKind::Blockquote => {
                if faithful && has_attrs {
                    return Some(self.serialized(node, ancestors, text_override));
                }
                let walked = self.children_result(node, ancestors, text_override);
                let res = markdown(blockquote_markdown(walked.content.as_str()));
                assert(rendered_from(kind, self.settings, *node, walked.content@, res));
                Some(res)
            },
            HandlerKind::Code => {
                if faithful && !all_text(children) {
                    return Some(self.serialized(node, ancestors, text_override));
                }
                if parent_is(ancestors, "pre", "pre") {
                    let content = self.children_result(node, ancestors, text_override).content;
                    if self.settings.code_block_style == CodeBlockStyle::Fenced {
                        let symbol = if self.settings.code_block_fence == CodeBlockFence::Tildes {
                            '~'
                        } else {
                            '`'
                        };
                        let language = code_language(attrs, parent);
                        let allowed: usize = if language.is_none() { 0 } else { 1 };
                        if faithful && attrs.len() > allowed {
                            return Some(self.serialized(node, ancestors, text_override));
                        }
                        if !str_len_below_max(content.as_str(), 1) {
                            return Some(markdown(content));
                        }
                        let md = match &language {
                            Some(l) => code_block_markdown(content.as_str(), symbol, Some(l.as_str())),
                            None => code_block_markdown(content.as_str(), symbol, None),
                        };
                        Some(markdown(md))
                    } else {
                        if faithful && has_attrs {
                            return Some(self.serialized(node, ancestors, text_override));
                        }
                        Some(markdown(indented_code_markdown(content.as_str())))
                    }
                } else {
                    if faithful && has_attrs {
                        return Some(self.serialized(node, ancestors, text_override));
                    }
                    let content = self.children_result(node, ancestors, text_override).content;
                    if !str_len_below_max(content.as_str(), 2) {
                        return Some(markdown(content));
                    }
                    Some(markdown(inline_code_markdown(content.as_str(), self.settings.preformatted_code)))
                }
            },
            _ => None,
        }
    }

    /// Runs a handler for emphasis, headings, breaks, tables and blocks.
    #[verifier::spinoff_prover]
    #[verifier::rlimit(50)]
    fn run_text_block_handler(
        &mut self,
        kind: HandlerKind,
        node: &DomNode,
        ancestors: &Vec<String>,
        parent: Option<&DomNode>,
        skipped: usize,
        text_override: Option<&String>,
    ) -> (r: Option<HandlerResult>)
        requires
            skipped < 7,
        ensures
            same_config(*old(self), *final(self)),
            r matches Some(res) ==> (res.markdown_translated ==> rendered_by(kind, old(self).settings, *node, res)),
            (text_block_kind(kind)) && handler_renders(kind, old(self).settings, *node) ==> r is Some,
        decreases node, max_chain() + 1 - skipped, 0nat,
    {
        let (tag, attrs, children, html) = match node {
            DomNode::Element { tag, attrs, children, html } => (tag, attrs, children, html),
            _ => return None,
        };
        let faithful = self.settings.translation_mode == TranslationMode::Faithful;
        let has_attrs = attrs.len() > 0;
        match kind {
            HandlerKind::Bold | HandlerKind::Italic => {
                if faithful && has_attrs {
                    return Some(self.serialized(node, ancestors, text_override));
                }
                let content = self.children_result(node, ancestors, text_override).content;
                let marker = if kind == HandlerKind::Bold { "**" } else { "*" };
                match emphasis_markdown(content.as_str(), marker) {
                    Some(s) => {
                        assert(emphasis_md(content@, marker@) == Some(s@));
                        let res = markdown(s);
                        assert(rendered_from(kind, self.settings, *node, content@, res));
                        Some(res)
                    },
                    None => None,
                }
            },
            HandlerKind::Heading => {
                if faithful && has_attrs {
                    return Some(self.serialized(node, ancestors, text_override));
                }
                let tv = char_vec(tag.as_str());
                let level: usize = if tv.len() >= 2 && '1' <= tv[1] && tv[1] <= '6' {
                    (tv[1] as u32 - '0' as u32) as usize
                } else {
                    1
                };
                assert(level as nat == heading_level_of(tag@));
                let content = self.children_result(node, ancestors, text_override).content;
                let setext = self.settings.heading_style == RenderHeadingStyle::Setex;
                let md = heading_markdown(level, content.as_str(), setext);
                assert(heading_md(heading_level_of(tag@), content@, setext) == md@);
                let res = markdown(md);
                assert(rendered_from(kind, self.settings, *node, content@, res));
                Some(res)
            },
            HandlerKind::Br => {
                if faithful && has_attrs {
                    return Some(self.serialized(node, ancestors, text_override));
                }
                let res = markdown(br_markdown(self.settings.br_style));
                assert(rendered_from(kind, self.settings, *node, Seq::empty(), res));
                Some(res)
            },
            HandlerKind::Hr => {
                if faithful && has_attrs {
                    return Some(self.serialized(node, ancestors, text_override));
                }
                let res = markdown(hr_markdown(self.settings.hr_style));
                assert(rendered_from(kind, self.settings, *node, Seq::empty(), res));
                Some(res)
            },
            HandlerKind::Table => {
                if faithful && has_attrs {
                    return Some(self.serialized(node, ancestors, text_override));
                }
                if !faithful && (!has_explicit_headers(node, true) || has_ancestor(ancestors, "td", "th")) {
                    return self.handle_element(node, ancestors, parent, skipped + 1, text_override);
                }
                self.table(node, ancestors, text_override)
            },
            HandlerKind::TdTh => {
                let allowed_none = faithful && any_block_child(children);
                if faithful && (allowed_none || has_attrs) {
                    return Some(self.serialized(node, ancestors, text_override));
                }
                Some(self.by_parent(node, ancestors, "tr", "tr", text_override))
            },
            HandlerKind::Tr => {
                if faithful && has_attrs {
                    return Some(self.serialized(node, ancestors, text_override));
                }
                Some(self.by_parent(node, ancestors, "tbody", "thead", text_override))
            },
            HandlerKind::Tbody | HandlerKind::Thead | HandlerKind::Caption => {
                if faithful && has_attrs {
                    return Some(self.serialized(node, ancestors, text_override));
                }
                Some(self.by_parent(node, ancestors, "table", "table", text_override))
            },
            HandlerKind::P => {
                if faithful && has_attrs {
                    return Some(self.serialized(node, ancestors, text_override));
                }
                let walked = self.children_result(node, ancestors, text_override);
                let md = block_markdown(walked.content.as_str());
                assert(block_md(walked.content@) == md@);
                let res = markdown(md);
                assert(rendered_from(kind, self.settings, *node, walked.content@, res));
                Some(res)
            },
            HandlerKind::Pre => {
                if faithful && has_attrs {
                    return Some(self.serialized(node, ancestors, text_override));
                }
                let simple = children.len() == 1 && match &children[0] {
                    DomNode::Element { tag: ct, .. } => str_eq(ct.as_str(), "code"),
                    _ => false,
                };
                if !faithful || simple {
                    let res = self.children_result(node, ancestors, text_override);
                    if faithful && !res.markdown_translated {
                        return Some(self.serialized(node, ancestors, text_override));
                    }
                    let out = markdown(block_markdown(res.content.as_str()));
                    assert(rendered_from(kind, self.settings, *node, res.content@, out));
                    Some(out)
                } else {
                    Some(self.serialized(node, ancestors, text_override))
                }
            },
            HandlerKind::HeadBody => Some(self.by_parent(node, ancestors, "html", "html", text_override)),
            HandlerKind::Html => {
                let at_root = match parent_tag(ancestors) {
                    Some(_) => ancestors.len() > 0 && str_eq(ancestors[ancestors.len() - 1].as_str(), "#document"),
                    None => false,
                };
                if !faithful || at_root {
                    let walked = self.children_result(node, ancestors, text_override);
                    let res = markdown(block_markdown(walked.content.as_str()));
                    assert(rendered_from(kind, self.settings, *node, walked.content@, res));
                    Some(res)
                } else {
                    Some(self.serialized(node, ancestors, text_override))
                }
            },
            HandlerKind::Span => {
                if attrs.len() == 1 && str_eq(attrs[0].name.as_str(), "class") {
                    let text: Option<&String> = match single_text_child(node) {
                        Some(t) => match text_override {
                            Some(o) => Some(o),
                            None => Some(t),
                        },
                        None => None,
                    };
                    match text {
                        Some(t) => {
                            let v = attrs[0].value.as_str();
                            if str_eq(v, "math math-inline") {
                                let mut s = String::new();
                                push_str(&mut s, "$");
                                push_str(&mut s, t.as_str());
                                push_str(&mut s, "$");
                                return Some(markdown(s));
                            }
                            if str_eq(v, "math math-display") {
                                let mut s = String::new();
                                push_str(&mut s, "$$");
                                push_str(&mut s, t.as_str());
                                push_str(&mut s, "$$");
                                return Some(markdown(s));
                            }
                        },
                        None => {},
                    }
                }
                if faithful {
                    return Some(self.serialized(node, ancestors, text_override));
                }
                let walked = self.children_result(node, ancestors, text_override);
                Some(markdown(trim_string(walked.content.as_str(), TrimSet::Only('\n'))))
            },
            HandlerKind::Block => {
                if !faithful {
                    let walked = self.children_result(node, ancestors, text_override);
                    let res = markdown(block_markdown(walked.content.as_str()));
                    assert(rendered_from(kind, self.settings, *node, walked.content@, res));
                    Some(res)
                } else {
                    Some(self.serialized(node, ancestors, text_override))
                }
            },
            _ => None,
        }
    }

    /// Runs a handler for task lists, table markers, mermaid and inline semantics.
    #[verifier::spinoff_prover]
    #[verifier::rlimit(50)]
    fn run_inline_extension_handler(
        &mut self,
        kind: HandlerKind,
        node: &DomNode,
        ancestors: &Vec<String>,
        parent: Option<&DomNode>,
        skipped: usize,
        text_override: Option<&String>,
    ) -> (r: Option<HandlerResult>)
        requires
            skipped < 7,
        ensures
            same_config(*old(self), *final(self)),
            r matches Some(res) ==> (res.markdown_translated ==> rendered_by(kind, old(self).settings, *node, res)),
            (inline_extension_kind(kind)) && handler_renders(kind, old(self).settings, *node) ==> r is Some,
        decreases node, max_chain() + 1 - skipped, 0nat,
    {
        let (tag, attrs, children, html) = match node {
            DomNode::Element { tag, attrs, children, html } => (tag, attrs, children, html),
            _ => return None,
        };
        let faithful = self.settings.translation_mode == TranslationMode::Faithful;
        let has_attrs = attrs.len() > 0;
        match kind {
            HandlerKind::Skip => None,
            HandlerKind::TaskList => match task_list_checkbox(attrs) {
                HandlerOutcome::Markdown(s) => {
                    let res = markdown(s);
                    assert(rendered_from(kind, self.settings, *node, Seq::empty(), res));
                    Some(res)
                },
                HandlerOutcome::Fallback => self.handle_element(node, ancestors, parent, skipped + 1, text_override),
            },
            HandlerKind::TableMarker => {
                if get_attr(attrs, "data-htmlmd-table").is_some() {
                    let csv = crate::dom::table_to_csv(node);
                    if str_len_below_max(html.as_str(), 1) && str_len_below_max(csv.as_str(), 1) {
                        match table_marker_output(attrs, html.as_str(), node) {
                            HandlerOutcome::Markdown(s) => return Some(markdown(s)),
                            HandlerOutcome::Fallback => {},
                        }
                    }
                }
                self.handle_element(node, ancestors, parent, skipped + 1, text_override)
            },
            HandlerKind::MermaidDrop => match mermaid_drop(attrs) {
                HandlerOutcome::Markdown(s) => {
                    let res = markdown(s);
                    assert(rendered_from(kind, self.settings, *node, Seq::empty(), res));
                    Some(res)
                },
                HandlerOutcome::Fallback => self.handle_element(node, ancestors, parent, skipped + 1, text_override),
            },
            HandlerKind::MermaidFenced => {
                if !element_has_class(attrs, "mermaid") {
                    return self.handle_element(node, ancestors, parent, skipped + 1, text_override);
                }
                let walked = self.children_result(node, ancestors, text_override);
                if !str_len_below_max(walked.content.as_str(), 1) {
                    return Some(markdown(String::new()));
                }
                match mermaid_fenced(attrs, walked.content.as_str()) {
                    HandlerOutcome::Markdown(s) => Some(markdown(s)),
                    HandlerOutcome::Fallback => self.handle_element(node, ancestors, parent, skipped + 1, text_override),
                }
            },
            HandlerKind::Strike | HandlerKind::Mark | HandlerKind::Ins | HandlerKind::SubScript
            | HandlerKind::SupScript | HandlerKind::CodeLike | HandlerKind::Cite => {
                if faithful && has_attrs {
                    return self.handle_element(node, ancestors, parent, skipped + 1, text_override);
                }
                let (p, q) = match kind {
                    HandlerKind::Strike => ("~~", "~~"),
                    HandlerKind::Mark => ("==", "=="),
                    HandlerKind::Ins => ("++", "++"),
                    HandlerKind::SubScript => ("~", "~"),
                    HandlerKind::SupScript => ("^", "^"),
                    HandlerKind::CodeLike => ("`", "`"),
                    _ => ("*", "*"),
                };
                assert(p@ == inline_marker(kind) && q@ == inline_marker(kind));
                let walked = self.children_result(node, ancestors, text_override).content;
                match inline_wrap(false, walked.as_str(), p, q) {
                    HandlerOutcome::Markdown(m) => {
                        let res = markdown(m);
                        assert(rendered_from(kind, self.settings, *node, walked@, res));
                        Some(res)
                    },
                    HandlerOutcome::Fallback => self.handle_element(node, ancestors, parent, skipped + 1, text_override),
                }
            },
            HandlerKind::Quote | HandlerKind::Kbd | HandlerKind::Unwrap | HandlerKind::Address => {
                if faithful && has_attrs {
                    return self.handle_element(node, ancestors, parent, skipped + 1, text_override);
                }
                let walked = self.children_result(node, ancestors, text_override).content;
                let ghost w = walked@;
                match special_inline_output(tag.as_str(), walked.as_str()) {
                    Some(m) => {
                        let res = markdown(m);
                        assert(rendered_from(kind, self.settings, *node, w, res));
                        Some(res)
                    },
                    None => {
                        let res = markdown(walked);
                        assert(rendered_from(kind, self.settings, *node, w, res));
                        Some(res)
                    },
                }
            },
            _ => None,
        }
    }

    /// Runs a handler for footnotes, definition lists, math, alerts, links and custom rules.
    #[verifier::spinoff_prover]
    #[verifier::rlimit(50)]
    fn run_block_extension_handler(
        &mut self,
        kind: HandlerKind,
        node: &DomNode,
        ancestors: &Vec<String>,
        parent: Option<&DomNode>,
        skipped: usize,
        text_override: Option<&String>,
    ) -> (r: Option<HandlerResult>)
        requires
            skipped < 7,
        ensures
            same_config(*old(self), *final(self)),
            r matches Some(res) ==> (res.markdown_translated ==> rendered_by(kind, old(self).settings, *node, res)),
            (!(kind == HandlerKind::Img || kind == HandlerKind::Anchor || kind == HandlerKind::List || kind == HandlerKind::ListItem || kind == HandlerKind::Blockquote || kind == HandlerKind::Code || text_block_kind(kind) || inline_extension_kind(kind))) && handler_renders(kind, old(self).settings, *node) ==> r is Some,
        decreases node, max_chain() + 1 - skipped, 0nat,
    {
        let (tag, attrs, children, html) = match node {
            DomNode::Element { tag, attrs, children, html } => (tag, attrs, children, html),
            _ => return None,
        };
        let faithful = self.settings.translation_mode == TranslationMode::Faithful;
        let has_attrs = attrs.len() > 0;
        match kind {
            HandlerKind::FootnoteRef => match footnote_reference_label(children) {
                Some(label) => {
                    let res = markdown(footnote_reference(label.as_str()));
                    assert(rendered_from(kind, self.settings, *node, Seq::empty(), res));
                    Some(res)
                },
                None => self.handle_element(node, ancestors, parent, skipped + 1, text_override),
            },
            HandlerKind::FootnoteDef => {
                let id = match get_attr(attrs, "id") {
                    Some(i) => i,
                    None => return self.handle_element(node, ancestors, parent, skipped + 1, text_override),
                };
                if crate::text::strip_prefix(id.as_str(), "fn").is_none() {
                    return self.handle_element(node, ancestors, parent, skipped + 1, text_override);
                }
                let content = self.rendered_children(node, ancestors, 1);
                match footnote_definition_output(Some(id.as_str()), content.as_str()) {
                    HandlerOutcome::Markdown(m) => Some(markdown(m)),
                    HandlerOutcome::Fallback => self.handle_element(node, ancestors, parent, skipped + 1, text_override),
                }
            },
            HandlerKind::DefinitionList => {
                if faithful && has_attrs {
                    return self.handle_element(node, ancestors, parent, skipped + 1, text_override);
                }
                let items = self.definition_items(node, ancestors);
                Some(markdown(definition_list_output(&items)))
            },
            HandlerKind::MathScript => {
                let ty = match get_attr(attrs, "type") {
                    Some(t) => t,
                    None => String::new(),
                };
                match math_script_type(ty.as_str()) {
                    Some(block) => {
                        let text = direct_text(children);
                        Some(markdown(math_output(text.as_str(), block, self.math_output)))
                    },
                    None => self.handle_element(node, ancestors, parent, skipped + 1, text_override),
                }
            },
            HandlerKind::MathMl => {
                if faithful && has_attrs {
                    return self.handle_element(node, ancestors, parent, skipped + 1, text_override);
                }
                let block = display_block(attrs);
                let mut text = String::new();
                crate::dom::collect_text(node, &mut text);
                Some(markdown(math_output(text.as_str(), block, self.math_output)))
            },
            HandlerKind::Alert => match alert_type_of(attrs) {
                Some(kind_name) => {
                    let body = self.rendered_children(node, ancestors, 2);
                    let res = markdown(alert_output(kind_name.as_str(), body.as_str()));
                    assert(rendered_from(kind, self.settings, *node, body@, res));
                    Some(res)
                },
                None => self.handle_element(node, ancestors, parent, skipped + 1, text_override),
            },
            HandlerKind::Wikilink => {
                if !is_wikilink_exec(attrs) {
                    return self.handle_element(node, ancestors, parent, skipped + 1, text_override);
                }
                let walked = self.children_result(node, ancestors, text_override).content;
                match wikilink_output(attrs, walked.as_str()) {
                    HandlerOutcome::Markdown(m) => {
                        let res = markdown(m);
                        assert(rendered_from(kind, self.settings, *node, walked@, res));
                        Some(res)
                    },
                    HandlerOutcome::Fallback => self.handle_element(node, ancestors, parent, skipped + 1, text_override),
                }
            },
            HandlerKind::RefLink => {
                let href = last_attr_exec(attrs, "href", "href");
                let title = last_attr_exec(attrs, "title", "title");
                let href = match href {
                    Some(h) => h,
                    None => return Some(self.children_result(node, ancestors, text_override)),
                };
                let walked = self.children_result(node, ancestors, text_override).content;
                if self.refs.counter >= usize::MAX {
                    return Some(markdown(walked));
                }
                let placement = self.placement;
                let md = match &title {
                    Some(t) => reference_link(&mut self.refs, placement, Some(href.as_str()), Some(t.as_str()), walked.as_str()),
                    None => reference_link(&mut self.refs, placement, Some(href.as_str()), None, walked.as_str()),
                };
                Some(markdown(md))
            },
            HandlerKind::RefImage => {
                let src = last_attr_exec(attrs, "src", "src");
                let alt = last_attr_exec(attrs, "alt", "alt");
                let title = last_attr_exec(attrs, "title", "title");
                if self.refs.counter >= usize::MAX {
                    return self.handle_element(node, ancestors, parent, skipped + 1, text_override);
                }
                let placement = self.placement;
                let out = reference_image(
                    &mut self.refs,
                    placement,
                    match &src {
                        Some(x) => Some(x.as_str()),
                        None => None,
                    },
                    match &alt {
                        Some(x) => Some(x.as_str()),
                        None => None,
                    },
                    match &title {
                        Some(x) => Some(x.as_str()),
                        None => None,
                    },
                );
                match out {
                    HandlerOutcome::Markdown(m) => Some(markdown(m)),
                    HandlerOutcome::Fallback => self.handle_element(node, ancestors, parent, skipped + 1, text_override),
                }
            },
            HandlerKind::HeadingFlush => {
                if faithful && has_attrs {
                    return self.handle_element(node, ancestors, parent, skipped + 1, text_override);
                }
                let mut saved: Vec<String> = Vec::new();
                std::mem::swap(&mut saved, &mut self.refs.pending);
                let heading = self.handle_element(node, ancestors, parent, skipped + 1, text_override);
                let mut taken = ReferenceState { pending: saved, counter: 0 };
                match heading {
                    Some(h) => match heading_flush(&mut taken, Some(h.content.as_str())) {
                        Some(m) => Some(markdown(m)),
                        None => None,
                    },
                    None => None,
                }
            },
            HandlerKind::CustomRule => {
                let idx = match marked_rule_index(&self.custom_rules, attrs) {
                    Some(i) => i,
                    None => return self.handle_element(node, ancestors, parent, skipped + 1, text_override),
                };
                let action = self.custom_rules[idx].action;
                let walks = match action {
                    CustomRuleAction::MarkdownTemplate => {
                        if self.custom_rules[idx].template.is_none() {
                            return None;
                        }
                        true
                    },
                    CustomRuleAction::FencedBlock | CustomRuleAction::Link => true,
                    CustomRuleAction::Image => get_attr(attrs, "alt").is_none(),
                    _ => return self.handle_element(node, ancestors, parent, skipped + 1, text_override),
                };
                let walked = if walks {
                    self.children_result(node, ancestors, text_override).content
                } else {
                    String::new()
                };
                if !str_len_below_max(walked.as_str(), 1) {
                    return Some(markdown(walked));
                }
                match marked_rule_output(&self.custom_rules, attrs, walked.as_str()) {
                    HandlerOutcome::Markdown(m) => Some(markdown(m)),
                    HandlerOutcome::Fallback => self.handle_element(node, ancestors, parent, skipped + 1, text_override),
                }
            },
            _ => None,
        }
    }

    /// Renders a document: the tree walked, outer newlines trimmed, and the
    /// link definitions appended.
    pub fn dom_to_markdown(&mut self, root: &DomNode) -> (r: String)
        ensures
            same_config(*old(self), *final(self)),
            root matches DomNode::Text { text } ==> exists|a: Seq<char>| r@ == crate::text::trim_both(
                text_walked(Seq::empty(), text@, false, false, true),
                TrimSet::Only('\n'),
            ) + #[trigger] crate::text::trim_end(a, TrimSet::Only('\n')),
            root matches DomNode::Comment { text } ==> exists|a: Seq<char>| r@ == crate::text::trim_both(
                if old(self).settings.translation_mode == TranslationMode::Faithful {
                    "<!--"@ + text@ + "-->"@
                } else {
                    Seq::empty()
                },
                TrimSet::Only('\n'),
            ) + #[trigger] crate::text::trim_end(a, TrimSet::Only('\n')),
            root is Other ==> exists|a: Seq<char>| r@ == #[trigger] crate::text::trim_end(a, TrimSet::Only('\n')),
    {
        let mut content = String::new();
        let ancestors: Vec<String> = Vec::new();
        let _ = self.walk_node(root, &ancestors, None, None, true, false, None, &mut content);
        let mut out = trim_string(content.as_str(), TrimSet::Only('\n'));
        let mut append = String::new();
        match self.anchor.append() {
            Some(a) => push_str(&mut append, a.as_str()),
            None => {},
        }
        if (self.ref_links && self.placement != ReferencePlacement::End) || self.ref_images {
            let placement = self.placement;
            match flush_pending_definitions(&mut self.refs, placement) {
                Some(a) => push_str(&mut append, a.as_str()),
                None => {},
            }
        }
        let t = crate::text::trim_end_string(append.as_str(), TrimSet::Only('\n'));
        push_str(&mut out, t.as_str());
        proof {
            assert(out@ == crate::text::trim_both(content@, TrimSet::Only('\n')) + crate::text::trim_end(
                append@,
                TrimSet::Only('\n'),
            ));
            if root is Other {
                assert(content@ == Seq::<char>::empty());
                assert(crate::text::trim_both(content@, TrimSet::Only('\n')) =~= Seq::<char>::empty());
                assert(out@ =~= crate::text::trim_end(append@, TrimSet::Only('\n')));
            }
        }
        out
    }
}


impl Renderer {
    /// The renderer for `options`: its settings, the tags removed by cleanup
    /// skipped, and the task-list, table-marker and mermaid handlers as the
    /// options ask.
    pub fn new(options: &ConversionOptions) -> (r: Self)
        ensures
            r.settings == settings_for(options.render),
            r.skip_tags@ == options.cleanup.remove_tags@,
            r.task_lists == options.semantic.task_lists,
            r.mermaid == options.semantic.mermaid,
            r.anchor.pending() == Seq::<Seq<char>>::empty(),
    {
        Renderer {
            settings: build_native_options(options),
            skip_tags: options.cleanup.remove_tags.clone(),
            task_lists: options.semantic.task_lists,
            mermaid: options.semantic.mermaid,
            anchor: AnchorElementHandler::new(),
            profile: options.profile,
            footnotes: options.semantic.footnotes,
            definition_lists: options.semantic.definition_lists,
            math: options.semantic.math.enabled,
            math_output: options.semantic.math.output,
            ref_links: match options.render.link_style {
                crate::options::LinkStyle::Inline => false,
                _ => true,
            },
            ref_images: options.cleanup.image_mode == crate::options::ImageMode::Reference,
            placement: options.render.reference_placement,
            custom_rules: options.extension.custom_rules.clone(),
            refs: ReferenceState::new(),
        }
    }
}

impl NativeBackend {
    /// Converts a cleaned document: rendered, then post-processed. It never
    /// fails and extracts no metadata.
    pub fn convert_dom(&self, document: &DomNode, options: &ConversionOptions) -> (r: Result<ConversionResult>)
        ensures
            r matches Ok(res) && res.title is None && res.description is None
                && res.canonical_url is None && res.diagnostics@.len() == 0
                && exists|md: Seq<char>| res.markdown@ == post_processed(md, options.render),
    {
        let mut renderer = Renderer::new(options);
        let markdown = renderer.dom_to_markdown(document);
        let markdown = post_process(markdown.as_str(), options);
        Ok(ConversionResult {
            markdown,
            title: None,
            description: None,
            canonical_url: None,
            diagnostics: Vec::new(),
        })
    }
}

} // verus!
