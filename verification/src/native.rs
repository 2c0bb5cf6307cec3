//! Settings of the Markdown renderer, derived from `ConversionOptions`, and
//! the two converter backends.

use vstd::prelude::*;
use crate::options::{
    BulletMarker, CodeFence, ConversionOptions, HardBreakStyle, HeadingStyle, HrStyle as
    ConversionHrStyle, LinkStyle as ConversionLinkStyle, RawHtmlPolicy, ReferencePlacement,
    RenderOptions,
};

verus! {

#[derive(Debug, Clone, Copy, PartialEq, Eq, Structural)]
pub enum RenderHeadingStyle {
    Atx,
    Setex,
}

#[derive(Debug, Clone, Copy, PartialEq, Eq, Structural)]
pub enum RenderHrStyle {
    Dashes,
    Asterisks,
    Underscores,
}

#[derive(Debug, Clone, Copy, PartialEq, Eq, Structural)]
pub enum BrStyle {
    TwoSpaces,
    Backslash,
}

#[derive(Debug, Clone, Copy, PartialEq, Eq, Structural)]
pub enum RenderLinkStyle {
    Inlined,
    InlinedPreferAutolinks,
    Referenced,
}

#[derive(Debug, Clone, Copy, PartialEq, Eq, Structural)]
pub enum LinkReferenceStyle {
    Full,
    Collapsed,
    Shortcut,
}

#[derive(Debug, Clone, Copy, PartialEq, Eq, Structural)]
pub enum CodeBlockStyle {
    Indented,
    Fenced,
}

#[derive(Debug, Clone, Copy, PartialEq, Eq, Structural)]
pub enum CodeBlockFence {
    Tildes,
    Backticks,
}

#[derive(Debug, Clone, Copy, PartialEq, Eq, Structural)]
pub enum BulletListMarker {
    Asterisk,
    Dash,
    Plus,
}

/// `Pure` renders Markdown only; `Faithful` falls back to HTML wherever
/// Markdown cannot say what the HTML says.
#[derive(Debug, Clone, Copy, PartialEq, Eq, Structural)]
pub enum TranslationMode {
    Pure,
    Faithful,
}

/// The renderer's settings.
#[derive(Debug, Clone, Copy, PartialEq, Eq, Structural)]
pub struct RenderSettings {
    pub heading_style: RenderHeadingStyle,
    pub hr_style: RenderHrStyle,
    pub br_style: BrStyle,
    pub link_style: RenderLinkStyle,
    pub link_reference_style: LinkReferenceStyle,
    pub code_block_style: CodeBlockStyle,
    pub code_block_fence: CodeBlockFence,
    pub bullet_list_marker: BulletListMarker,
    pub ul_bullet_spacing: u8,
    pub ol_number_spacing: u8,
    pub preformatted_code: bool,
    pub translation_mode: TranslationMode,
}

pub open spec fn settings_default() -> RenderSettings {
    RenderSettings {
        heading_style: RenderHeadingStyle::Atx,
        hr_style: RenderHrStyle::Asterisks,
        br_style: BrStyle::TwoSpaces,
        link_style: RenderLinkStyle::Inlined,
        link_reference_style: LinkReferenceStyle::Full,
        code_block_style: CodeBlockStyle::Fenced,
        code_block_fence: CodeBlockFence::Backticks,
        bullet_list_marker: BulletListMarker::Asterisk,
        ul_bullet_spacing: 3,
        ol_number_spacing: 2,
        preformatted_code: false,
        translation_mode: TranslationMode::Pure,
    }
}

impl Default for RenderSettings {
    fn default() -> (r: Self)
        ensures
            r == settings_default(),
    {
        RenderSettings {
            heading_style: RenderHeadingStyle::Atx,
            hr_style: RenderHrStyle::Asterisks,
            br_style: BrStyle::TwoSpaces,
            link_style: RenderLinkStyle::Inlined,
            link_reference_style: LinkReferenceStyle::Full,
            code_block_style: CodeBlockStyle::Fenced,
            code_block_fence: CodeBlockFence::Backticks,
            bullet_list_marker: BulletListMarker::Asterisk,
            ul_bullet_spacing: 3,
            ol_number_spacing: 2,
            preformatted_code: false,
            translation_mode: TranslationMode::Pure,
        }
    }
}

/// The renderer settings that `ConversionOptions` ask for: styles mapped
/// one to one where the renderer has them (`Keep` headings render as ATX),
/// the reference style taken from the link style, and
/// faithful translation only for the faithful raw-HTML policy.
pub open spec fn settings_for(r: RenderOptions) -> RenderSettings {
    RenderSettings {
        heading_style: match r.heading_style {
            HeadingStyle::Setex => RenderHeadingStyle::Setex,
            _ => RenderHeadingStyle::Atx,
        },
        hr_style: match r.hr_style {
            ConversionHrStyle::Dashes => RenderHrStyle::Dashes,
            ConversionHrStyle::Asterisks => RenderHrStyle::Asterisks,
            ConversionHrStyle::Underscores => RenderHrStyle::Underscores,
        },
        br_style: match r.hard_break_style {
            HardBreakStyle::TwoSpaces => BrStyle::TwoSpaces,
            HardBreakStyle::Backslash => BrStyle::Backslash,
        },
        link_style: match r.link_style {
            ConversionLinkStyle::Inline => RenderLinkStyle::Inlined,
            _ => RenderLinkStyle::Referenced,
        },
        link_reference_style: match r.link_style {
            ConversionLinkStyle::CollapsedReference => LinkReferenceStyle::Collapsed,
            ConversionLinkStyle::ShortcutReference => LinkReferenceStyle::Shortcut,
            _ => LinkReferenceStyle::Full,
        },
        code_block_style: CodeBlockStyle::Fenced,
        code_block_fence: match r.code_fence {
            CodeFence::Backticks => CodeBlockFence::Backticks,
            CodeFence::Tildes => CodeBlockFence::Tildes,
        },
        bullet_list_marker: match r.bullet_marker {
            BulletMarker::Asterisk => BulletListMarker::Asterisk,
            BulletMarker::Hyphen => BulletListMarker::Dash,
            BulletMarker::Plus => BulletListMarker::Plus,
        },
        ul_bullet_spacing: 3,
        ol_number_spacing: 2,
        preformatted_code: false,
        translation_mode: match r.raw_html_policy {
            RawHtmlPolicy::Faithful => TranslationMode::Faithful,
            _ => TranslationMode::Pure,
        },
    }
}

/// Maps `ConversionOptions` to the renderer's settings.
pub fn build_native_options(options: &ConversionOptions) -> (o: RenderSettings)
    ensures
        o == settings_for(options.render),
{
    let mut o = RenderSettings::default();
    o.heading_style = match options.render.heading_style {
        HeadingStyle::Atx | HeadingStyle::Keep => RenderHeadingStyle::Atx,
        HeadingStyle::Setex => RenderHeadingStyle::Setex,
    };
    o.hr_style = match options.render.hr_style {
        ConversionHrStyle::Dashes => RenderHrStyle::Dashes,
        ConversionHrStyle::Asterisks => RenderHrStyle::Asterisks,
        ConversionHrStyle::Underscores => RenderHrStyle::Underscores,
    };
    o.br_style = match options.render.hard_break_style {
        HardBreakStyle::TwoSpaces => BrStyle::TwoSpaces,
        HardBreakStyle::Backslash => BrStyle::Backslash,
    };
    o.bullet_list_marker = match options.render.bullet_marker {
        BulletMarker::Asterisk => BulletListMarker::Asterisk,
        BulletMarker::Hyphen => BulletListMarker::Dash,
        BulletMarker::Plus => BulletListMarker::Plus,
    };
    o.code_block_fence = match options.render.code_fence {
        CodeFence::Backticks => CodeBlockFence::Backticks,
        CodeFence::Tildes => CodeBlockFence::Tildes,
    };
    o.link_style = match options.render.link_style {
        ConversionLinkStyle::Inline => RenderLinkStyle::Inlined,
        ConversionLinkStyle::Reference | ConversionLinkStyle::CollapsedReference
        | ConversionLinkStyle::ShortcutReference => RenderLinkStyle::Referenced,
    };
    o.link_reference_style = match options.render.reference_placement {
        ReferencePlacement::End | ReferencePlacement::SectionEnd => LinkReferenceStyle::Full,
        ReferencePlacement::Adjacent => LinkReferenceStyle::Full,
    };
    match options.render.link_style {
        ConversionLinkStyle::CollapsedReference => {
            o.link_reference_style = LinkReferenceStyle::Collapsed;
        },
        ConversionLinkStyle::ShortcutReference => {
            o.link_reference_style = LinkReferenceStyle::Shortcut;
        },
        _ => {},
    }
    o.translation_mode = match options.render.raw_html_policy {
        RawHtmlPolicy::Faithful => TranslationMode::Faithful,
        _ => TranslationMode::Pure,
    };
    o
}

/// The name of the backend that renders with the `htmd` crate's converter;
/// this library converts with the native backend only.
#[derive(Debug, Default, Clone, Copy)]
pub struct HtmdBackend;

impl HtmdBackend {
    pub fn new() -> (r: Self) {
        HtmdBackend
    }
}

/// The converter backend that renders straight from the cleaned document.
#[derive(Debug, Default, Clone, Copy)]
pub struct NativeBackend;

impl NativeBackend {
    pub fn new() -> (r: Self) {
        NativeBackend
    }
}

} // verus!
