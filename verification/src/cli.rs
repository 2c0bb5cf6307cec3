//! The command line: its arguments, how they override the configuration,
//! its errors and exit codes.

use vstd::prelude::*;
use vstd::std_specs::convert::FromSpecImpl;
use crate::error::{error_message, Error};
use crate::options::{
    views, BulletMarker, CodeFence, ConversionOptions, HardBreakStyle, HeadingStyle, HrStyle,
    ImageMode, LinkStyle, OutputProfile, ReferencePlacement,
};
use crate::text::push_str;

verus! {

/// What to do when an output file already exists.
#[derive(Debug, Clone, Copy, PartialEq, Eq, Structural)]
pub enum OutputPolicyArg {
    Overwrite,
    SkipExisting,
    FailIfExists,
}

#[derive(Debug, Clone, Copy, PartialEq, Eq, Structural)]
pub enum ProfileArg {
    Commonmark,
    Gfm,
    Extended,
    Pandoc,
    Obsidian,
    MdxSafe,
    PlainText,
}

#[derive(Debug, Clone, Copy, PartialEq, Eq, Structural)]
pub enum HeadingStyleArg {
    Atx,
    Setex,
    Keep,
}

#[derive(Debug, Clone, Copy, PartialEq, Eq, Structural)]
pub enum BulletArg {
    Hyphen,
    Asterisk,
    Plus,
}

#[derive(Debug, Clone, Copy, PartialEq, Eq, Structural)]
pub enum LinkStyleArg {
    Inline,
    Reference,
    CollapsedReference,
    ShortcutReference,
}

#[derive(Debug, Clone, Copy, PartialEq, Eq, Structural)]
pub enum ReferencePlacementArg {
    End,
    SectionEnd,
    Adjacent,
}

#[derive(Debug, Clone, Copy, PartialEq, Eq, Structural)]
pub enum ImageModeArg {
    Inline,
    Reference,
    Skip,
    AltText,
}

#[derive(Debug, Clone, Copy, PartialEq, Eq, Structural)]
pub enum CodeFenceArg {
    Backticks,
    Tildes,
}

#[derive(Debug, Clone, Copy, PartialEq, Eq, Structural)]
pub enum HrStyleArg {
    Dashes,
    Asterisks,
    Underscores,
}

#[derive(Debug, Clone, Copy, PartialEq, Eq, Structural)]
pub enum BrStyleArg {
    TwoSpaces,
    Backslash,
}

// ---------------------------------------------------------------------------
// From the arguments to the options
// ---------------------------------------------------------------------------

pub open spec fn heading_of(v: HeadingStyleArg) -> HeadingStyle {
    match v {
        HeadingStyleArg::Atx => HeadingStyle::Atx,
        HeadingStyleArg::Setex => HeadingStyle::Setex,
        HeadingStyleArg::Keep => HeadingStyle::Keep,
    }
}

impl From<HeadingStyleArg> for HeadingStyle {
    fn from(v: HeadingStyleArg) -> (r: Self) {
        match v {
            HeadingStyleArg::Atx => HeadingStyle::Atx,
            HeadingStyleArg::Setex => HeadingStyle::Setex,
            HeadingStyleArg::Keep => HeadingStyle::Keep,
        }
    }
}

impl FromSpecImpl<HeadingStyleArg> for HeadingStyle {
    open spec fn obeys_from_spec() -> bool {
        true
    }

    open spec fn from_spec(v: HeadingStyleArg) -> Self {
        heading_of(v)
    }
}

pub open spec fn bullet_of(v: BulletArg) -> BulletMarker {
    match v {
        BulletArg::Hyphen => BulletMarker::Hyphen,
        BulletArg::Asterisk => BulletMarker::Asterisk,
        BulletArg::Plus => BulletMarker::Plus,
    }
}

impl From<BulletArg> for BulletMarker {
    fn from(v: BulletArg) -> (r: Self) {
        match v {
            BulletArg::Hyphen => BulletMarker::Hyphen,
            BulletArg::Asterisk => BulletMarker::Asterisk,
            BulletArg::Plus => BulletMarker::Plus,
        }
    }
}

impl FromSpecImpl<BulletArg> for BulletMarker {
    open spec fn obeys_from_spec() -> bool {
        true
    }

    open spec fn from_spec(v: BulletArg) -> Self {
        bullet_of(v)
    }
}

pub open spec fn link_style_of(v: LinkStyleArg) -> LinkStyle {
    match v {
        LinkStyleArg::Inline => LinkStyle::Inline,
        LinkStyleArg::Reference => LinkStyle::Reference,
        LinkStyleArg::CollapsedReference => LinkStyle::CollapsedReference,
        LinkStyleArg::ShortcutReference => LinkStyle::ShortcutReference,
    }
}

impl From<LinkStyleArg> for LinkStyle {
    fn from(v: LinkStyleArg) -> (r: Self) {
        match v {
            LinkStyleArg::Inline => LinkStyle::Inline,
            LinkStyleArg::Reference => LinkStyle::Reference,
            LinkStyleArg::CollapsedReference => LinkStyle::CollapsedReference,
            LinkStyleArg::ShortcutReference => LinkStyle::ShortcutReference,
        }
    }
}

impl FromSpecImpl<LinkStyleArg> for LinkStyle {
    open spec fn obeys_from_spec() -> bool {
        true
    }

    open spec fn from_spec(v: LinkStyleArg) -> Self {
        link_style_of(v)
    }
}

pub open spec fn fence_of(v: CodeFenceArg) -> CodeFence {
    match v {
        CodeFenceArg::Backticks => CodeFence::Backticks,
        CodeFenceArg::Tildes => CodeFence::Tildes,
    }
}

impl From<CodeFenceArg> for CodeFence {
    fn from(v: CodeFenceArg) -> (r: Self) {
        match v {
            CodeFenceArg::Backticks => CodeFence::Backticks,
            CodeFenceArg::Tildes => CodeFence::Tildes,
        }
    }
}

impl FromSpecImpl<CodeFenceArg> for CodeFence {
    open spec fn obeys_from_spec() -> bool {
        true
    }

    open spec fn from_spec(v: CodeFenceArg) -> Self {
        fence_of(v)
    }
}

pub open spec fn hr_of(v: HrStyleArg) -> HrStyle {
    match v {
        HrStyleArg::Dashes => HrStyle::Dashes,
        HrStyleArg::Asterisks => HrStyle::Asterisks,
        HrStyleArg::Underscores => HrStyle::Underscores,
    }
}

impl From<HrStyleArg> for HrStyle {
    fn from(v: HrStyleArg) -> (r: Self) {
        match v {
            HrStyleArg::Dashes => HrStyle::Dashes,
            HrStyleArg::Asterisks => HrStyle::Asterisks,
            HrStyleArg::Underscores => HrStyle::Underscores,
        }
    }
}

impl FromSpecImpl<HrStyleArg> for HrStyle {
    open spec fn obeys_from_spec() -> bool {
        true
    }

    open spec fn from_spec(v: HrStyleArg) -> Self {
        hr_of(v)
    }
}

pub open spec fn profile_of(v: ProfileArg) -> OutputProfile {
    match v {
        ProfileArg::Commonmark => OutputProfile::Commonmark,
        ProfileArg::Gfm => OutputProfile::Gfm,
        ProfileArg::Extended => OutputProfile::Extended,
        ProfileArg::Pandoc => OutputProfile::Pandoc,
        ProfileArg::Obsidian => OutputProfile::Obsidian,
        ProfileArg::MdxSafe => OutputProfile::MdxSafe,
        ProfileArg::PlainText => OutputProfile::PlainText,
    }
}

impl From<ProfileArg> for OutputProfile {
    fn from(v: ProfileArg) -> (r: Self) {
        match v {
            ProfileArg::Commonmark => OutputProfile::Commonmark,
            ProfileArg::Gfm => OutputProfile::Gfm,
            ProfileArg::Extended => OutputProfile::Extended,
            ProfileArg::Pandoc => OutputProfile::Pandoc,
            ProfileArg::Obsidian => OutputProfile::Obsidian,
            ProfileArg::MdxSafe => OutputProfile::MdxSafe,
            ProfileArg::PlainText => OutputProfile::PlainText,
        }
    }
}

impl FromSpecImpl<ProfileArg> for OutputProfile {
    open spec fn obeys_from_spec() -> bool {
        true
    }

    open spec fn from_spec(v: ProfileArg) -> Self {
        profile_of(v)
    }
}

pub open spec fn placement_of(v: ReferencePlacementArg) -> ReferencePlacement {
    match v {
        ReferencePlacementArg::End => ReferencePlacement::End,
        ReferencePlacementArg::SectionEnd => ReferencePlacement::SectionEnd,
        ReferencePlacementArg::Adjacent => ReferencePlacement::Adjacent,
    }
}

impl From<ReferencePlacementArg> for ReferencePlacement {
    fn from(v: ReferencePlacementArg) -> (r: Self) {
        match v {
            ReferencePlacementArg::End => ReferencePlacement::End,
            ReferencePlacementArg::SectionEnd => ReferencePlacement::SectionEnd,
            ReferencePlacementArg::Adjacent => ReferencePlacement::Adjacent,
        }
    }
}

impl FromSpecImpl<ReferencePlacementArg> for ReferencePlacement {
    open spec fn obeys_from_spec() -> bool {
        true
    }

    open spec fn from_spec(v: ReferencePlacementArg) -> Self {
        placement_of(v)
    }
}

pub open spec fn image_mode_of(v: ImageModeArg) -> ImageMode {
    match v {
        ImageModeArg::Inline => ImageMode::Inline,
        ImageModeArg::Reference => ImageMode::Reference,
        ImageModeArg::Skip => ImageMode::Skip,
        ImageModeArg::AltText => ImageMode::AltText,
    }
}

impl From<ImageModeArg> for ImageMode {
    fn from(v: ImageModeArg) -> (r: Self) {
        match v {
            ImageModeArg::Inline => ImageMode::Inline,
            ImageModeArg::Reference => ImageMode::Reference,
            ImageModeArg::Skip => ImageMode::Skip,
            ImageModeArg::AltText => ImageMode::AltText,
        }
    }
}

impl FromSpecImpl<ImageModeArg> for ImageMode {
    open spec fn obeys_from_spec() -> bool {
        true
    }

    open spec fn from_spec(v: ImageModeArg) -> Self {
        image_mode_of(v)
    }
}

pub open spec fn br_of(v: BrStyleArg) -> HardBreakStyle {
    match v {
        BrStyleArg::TwoSpaces => HardBreakStyle::TwoSpaces,
        BrStyleArg::Backslash => HardBreakStyle::Backslash,
    }
}

impl From<BrStyleArg> for HardBreakStyle {
    fn from(v: BrStyleArg) -> (r: Self) {
        match v {
            BrStyleArg::TwoSpaces => HardBreakStyle::TwoSpaces,
            BrStyleArg::Backslash => HardBreakStyle::Backslash,
        }
    }
}

impl FromSpecImpl<BrStyleArg> for HardBreakStyle {
    open spec fn obeys_from_spec() -> bool {
        true
    }

    open spec fn from_spec(v: BrStyleArg) -> Self {
        br_of(v)
    }
}

// ---------------------------------------------------------------------------
// The arguments
// ---------------------------------------------------------------------------

/// The command-line arguments (paths as given).
pub struct Cli {
    pub inputs: Vec<String>,
    pub output: Option<String>,
    pub output_dir: Option<String>,
    pub mirror: bool,
    pub recursive: bool,
    pub output_policy: OutputPolicyArg,
    pub atomic: bool,
    pub preserve_timestamps: bool,
    pub manifest: Option<String>,
    pub check: bool,
    pub diff: bool,
    pub encoding: Option<String>,
    pub config: Option<String>,
    pub profile: Option<ProfileArg>,
    pub heading_style: Option<HeadingStyleArg>,
    pub bullet: Option<BulletArg>,
    pub link_style: Option<LinkStyleArg>,
    pub reference_placement: Option<ReferencePlacementArg>,
    pub image_mode: Option<ImageModeArg>,
    pub code_fence: Option<CodeFenceArg>,
    pub hr_style: Option<HrStyleArg>,
    pub br_style: Option<BrStyleArg>,
    pub skip_tags: Option<Vec<String>>,
    pub remove_selectors: Option<Vec<String>>,
    pub unwrap_selectors: Option<Vec<String>>,
    pub keep_only_selectors: Option<Vec<String>>,
    pub extract_selector: Option<String>,
    pub base_url: Option<String>,
    pub remove_tracking_params: Option<bool>,
    pub strict: bool,
    pub metadata_title: bool,
    pub metadata_description: bool,
    pub metadata_canonical_url: bool,
    pub jobs: Option<usize>,
    pub print_default_config: bool,
    pub print_effective_config: bool,
    pub dry_run: bool,
    pub normalize_whitespace: bool,
    pub quiet: bool,
    pub verbose: u8,
}

/// An optional list taken over a list: the new one when given.
pub open spec fn list_override(old: Seq<Seq<char>>, new: Option<Vec<String>>) -> Seq<Seq<char>> {
    match new {
        Some(v) => views(v),
        None => old,
    }
}

fn clone_strings(v: &Vec<String>) -> (r: Vec<String>)
    ensures
        views(r) == views(*v),
{
    let mut r: Vec<String> = Vec::new();
    let mut i: usize = 0;
    while i < v.len()
        invariant
            i <= v@.len(),
            views(r) == views(*v).take(i as int),
        decreases v@.len() - i,
    {
        let ghost before = views(r);
        r.push(v[i].clone());
        assert(views(r) =~= before.push(v@[i as int]@));
        i += 1;
        assert(views(*v).take(i as int) =~= views(*v).take(i - 1).push(views(*v)[i - 1]));
    }
    assert(views(*v).take(v@.len() as int) =~= views(*v));
    r
}

fn override_list(target: &mut Vec<String>, new: &Option<Vec<String>>)
    ensures
        views(*final(target)) == list_override(views(*old(target)), *new),
{
    if let Some(v) = new {
        *target = clone_strings(v);
    }
}

fn clone_opt_string(o: &Option<String>) -> (r: Option<String>)
    ensures
        r == *o,
{
    match o {
        Some(s) => Some(s.clone()),
        None => None,
    }
}

/// What the command-line flags change in the configuration; every field
/// not named here keeps its value.
pub open spec fn cli_overrides(o: ConversionOptions, n: ConversionOptions, cli: Cli) -> bool {
    &&& n.profile == match cli.profile {
        Some(p) => profile_of(p),
        None => o.profile,
    }
    &&& n.render == crate::options::RenderOptions {
        heading_style: match cli.heading_style {
            Some(h) => heading_of(h),
            None => o.render.heading_style,
        },
        bullet_marker: match cli.bullet {
            Some(b) => bullet_of(b),
            None => o.render.bullet_marker,
        },
        link_style: match cli.link_style {
            Some(l) => link_style_of(l),
            None => o.render.link_style,
        },
        code_fence: match cli.code_fence {
            Some(c) => fence_of(c),
            None => o.render.code_fence,
        },
        hr_style: match cli.hr_style {
            Some(h) => hr_of(h),
            None => o.render.hr_style,
        },
        hard_break_style: match cli.br_style {
            Some(b) => br_of(b),
            None => o.render.hard_break_style,
        },
        reference_placement: match cli.reference_placement {
            Some(r) => placement_of(r),
            None => o.render.reference_placement,
        },
        ..o.render
    }
    &&& views(n.cleanup.remove_tags) == list_override(views(o.cleanup.remove_tags), cli.skip_tags)
    &&& views(n.cleanup.remove_selectors) == list_override(views(o.cleanup.remove_selectors), cli.remove_selectors)
    &&& views(n.cleanup.unwrap_selectors) == list_override(views(o.cleanup.unwrap_selectors), cli.unwrap_selectors)
    &&& views(n.cleanup.keep_only_selectors) == list_override(
        views(o.cleanup.keep_only_selectors),
        cli.keep_only_selectors,
    )
    &&& n.cleanup.extract_selector == match cli.extract_selector {
        Some(s) => Some(s),
        None => o.cleanup.extract_selector,
    }
    &&& n.cleanup.base_url == match cli.base_url {
        Some(s) => Some(s),
        None => o.cleanup.base_url,
    }
    &&& n.cleanup.remove_tracking_params == match cli.remove_tracking_params {
        Some(r) => r,
        None => o.cleanup.remove_tracking_params,
    }
    &&& n.cleanup.image_mode == match cli.image_mode {
        Some(i) => image_mode_of(i),
        None => o.cleanup.image_mode,
    }
    &&& n.cleanup.metadata == crate::options::MetadataOptions {
        title: o.cleanup.metadata.title || cli.metadata_title,
        description: o.cleanup.metadata.description || cli.metadata_description,
        canonical_url: o.cleanup.metadata.canonical_url || cli.metadata_canonical_url,
        ..o.cleanup.metadata
    }
    &&& n.cleanup == crate::options::CleanupOptions {
        remove_tags: n.cleanup.remove_tags,
        remove_selectors: n.cleanup.remove_selectors,
        unwrap_selectors: n.cleanup.unwrap_selectors,
        keep_only_selectors: n.cleanup.keep_only_selectors,
        extract_selector: n.cleanup.extract_selector,
        base_url: n.cleanup.base_url,
        remove_tracking_params: n.cleanup.remove_tracking_params,
        image_mode: n.cleanup.image_mode,
        metadata: n.cleanup.metadata,
        ..o.cleanup
    }
    &&& n.strict == (o.strict || cli.strict)
    &&& n.semantic == o.semantic
    &&& n.extension == o.extension
    &&& n.limits == o.limits
}

fn apply_render_overrides(r: &mut crate::options::RenderOptions, cli: &Cli)
    ensures
        *final(r) == (crate::options::RenderOptions {
            heading_style: match cli.heading_style {
                Some(h) => heading_of(h),
                None => old(r).heading_style,
            },
            bullet_marker: match cli.bullet {
                Some(b) => bullet_of(b),
                None => old(r).bullet_marker,
            },
            link_style: match cli.link_style {
                Some(l) => link_style_of(l),
                None => old(r).link_style,
            },
            code_fence: match cli.code_fence {
                Some(c) => fence_of(c),
                None => old(r).code_fence,
            },
            hr_style: match cli.hr_style {
                Some(h) => hr_of(h),
                None => old(r).hr_style,
            },
            hard_break_style: match cli.br_style {
                Some(b) => br_of(b),
                None => old(r).hard_break_style,
            },
            reference_placement: match cli.reference_placement {
                Some(p) => placement_of(p),
                None => old(r).reference_placement,
            },
            ..*old(r)
        }),
{
    let old_r = *r;
    *r = crate::options::RenderOptions {
        heading_style: match cli.heading_style {
            Some(h) => HeadingStyle::from(h),
            None => old_r.heading_style,
        },
        bullet_marker: match cli.bullet {
            Some(b) => BulletMarker::from(b),
            None => old_r.bullet_marker,
        },
        link_style: match cli.link_style {
            Some(l) => LinkStyle::from(l),
            None => old_r.link_style,
        },
        code_fence: match cli.code_fence {
            Some(c) => CodeFence::from(c),
            None => old_r.code_fence,
        },
        hr_style: match cli.hr_style {
            Some(h) => HrStyle::from(h),
            None => old_r.hr_style,
        },
        hard_break_style: match cli.br_style {
            Some(b) => HardBreakStyle::from(b),
            None => old_r.hard_break_style,
        },
        reference_placement: match cli.reference_placement {
            Some(p) => ReferencePlacement::from(p),
            None => old_r.reference_placement,
        },
        ..old_r
    };
}

#[verifier::rlimit(30)]
fn apply_cleanup_overrides(c: &mut crate::options::CleanupOptions, cli: &Cli)
    ensures
        views(final(c).remove_tags) == list_override(views(old(c).remove_tags), cli.skip_tags),
        views(final(c).remove_selectors) == list_override(views(old(c).remove_selectors), cli.remove_selectors),
        views(final(c).unwrap_selectors) == list_override(views(old(c).unwrap_selectors), cli.unwrap_selectors),
        views(final(c).keep_only_selectors) == list_override(views(old(c).keep_only_selectors), cli.keep_only_selectors),
        final(c).extract_selector == match cli.extract_selector {
            Some(s) => Some(s),
            None => old(c).extract_selector,
        },
        final(c).base_url == match cli.base_url {
            Some(s) => Some(s),
            None => old(c).base_url,
        },
        final(c).remove_tracking_params == match cli.remove_tracking_params {
            Some(r) => r,
            None => old(c).remove_tracking_params,
        },
        final(c).image_mode == match cli.image_mode {
            Some(i) => image_mode_of(i),
            None => old(c).image_mode,
        },
        final(c).metadata == (crate::options::MetadataOptions {
            title: old(c).metadata.title || cli.metadata_title,
            description: old(c).metadata.description || cli.metadata_description,
            canonical_url: old(c).metadata.canonical_url || cli.metadata_canonical_url,
            ..old(c).metadata
        }),
        *final(c) == (crate::options::CleanupOptions {
            remove_tags: final(c).remove_tags,
            remove_selectors: final(c).remove_selectors,
            unwrap_selectors: final(c).unwrap_selectors,
            keep_only_selectors: final(c).keep_only_selectors,
            extract_selector: final(c).extract_selector,
            base_url: final(c).base_url,
            remove_tracking_params: final(c).remove_tracking_params,
            image_mode: final(c).image_mode,
            metadata: final(c).metadata,
            ..*old(c)
        }),
{
    override_list(&mut c.remove_tags, &cli.skip_tags);
    override_list(&mut c.remove_selectors, &cli.remove_selectors);
    override_list(&mut c.unwrap_selectors, &cli.unwrap_selectors);
    override_list(&mut c.keep_only_selectors, &cli.keep_only_selectors);
    apply_cleanup_scalars(c, cli);
}

fn apply_cleanup_scalars(c: &mut crate::options::CleanupOptions, cli: &Cli)
    ensures
        final(c).extract_selector == match cli.extract_selector {
            Some(s) => Some(s),
            None => old(c).extract_selector,
        },
        final(c).base_url == match cli.base_url {
            Some(s) => Some(s),
            None => old(c).base_url,
        },
        final(c).remove_tracking_params == match cli.remove_tracking_params {
            Some(r) => r,
            None => old(c).remove_tracking_params,
        },
        final(c).image_mode == match cli.image_mode {
            Some(i) => image_mode_of(i),
            None => old(c).image_mode,
        },
        final(c).metadata == (crate::options::MetadataOptions {
            title: old(c).metadata.title || cli.metadata_title,
            description: old(c).metadata.description || cli.metadata_description,
            canonical_url: old(c).metadata.canonical_url || cli.metadata_canonical_url,
            ..old(c).metadata
        }),
        *final(c) == (crate::options::CleanupOptions {
            extract_selector: final(c).extract_selector,
            base_url: final(c).base_url,
            remove_tracking_params: final(c).remove_tracking_params,
            image_mode: final(c).image_mode,
            metadata: final(c).metadata,
            ..*old(c)
        }),
{
    let extract = if cli.extract_selector.is_some() {
        clone_opt_string(&cli.extract_selector)
    } else {
        clone_opt_string(&c.extract_selector)
    };
    let base = if cli.base_url.is_some() {
        clone_opt_string(&cli.base_url)
    } else {
        clone_opt_string(&c.base_url)
    };
    let tracking = match cli.remove_tracking_params {
        Some(r) => r,
        None => c.remove_tracking_params,
    };
    let m = c.metadata;
    let metadata = crate::options::MetadataOptions {
        title: m.title || cli.metadata_title,
        description: m.description || cli.metadata_description,
        canonical_url: m.canonical_url || cli.metadata_canonical_url,
        ..m
    };
    let image_mode = match cli.image_mode {
        Some(i) => ImageMode::from(i),
        None => c.image_mode,
    };
    set_cleanup_scalars(c, extract, base, tracking, image_mode, metadata);
}

fn set_cleanup_scalars(
    c: &mut crate::options::CleanupOptions,
    extract: Option<String>,
    base: Option<String>,
    tracking: bool,
    image_mode: ImageMode,
    metadata: crate::options::MetadataOptions,
)
    ensures
        *final(c) == (crate::options::CleanupOptions {
            extract_selector: extract,
            base_url: base,
            remove_tracking_params: tracking,
            image_mode: image_mode,
            metadata: metadata,
            ..*old(c)
        }),
{
    c.extract_selector = extract;
    c.base_url = base;
    c.remove_tracking_params = tracking;
    c.image_mode = image_mode;
    c.metadata = metadata;
}

/// Applies the command-line flags over the loaded configuration.
pub fn apply_cli_overrides(opts: &mut ConversionOptions, cli: &Cli)
    ensures
        cli_overrides(*old(opts), *final(opts), *cli),
{
    if let Some(p) = cli.profile {
        opts.profile = OutputProfile::from(p);
    }
    apply_render_overrides(&mut opts.render, cli);
    apply_cleanup_overrides(&mut opts.cleanup, cli);
    if cli.strict {
        opts.strict = true;
    }
}

// ---------------------------------------------------------------------------
// Configuration files
// ---------------------------------------------------------------------------

/// The formats a configuration file can have.
#[derive(Debug, Clone, Copy, PartialEq, Eq, Structural)]
pub enum ConfigFormat {
    Toml,
    Json,
}

/// The format of a configuration file, from its extension: `.toml` or
/// `.json`; anything else is refused.
pub fn config_format(path: &str, extension: Option<&str>) -> (r: Result<ConfigFormat, CliError>)
    ensures
        match extension {
            Some(e) => if e@ == "toml"@ {
                r == Ok::<ConfigFormat, CliError>(ConfigFormat::Toml)
            } else if e@ == "json"@ {
                r == Ok::<ConfigFormat, CliError>(ConfigFormat::Json)
            } else {
                r matches Err(CliError::Config(m)) && m@ == "unsupported config format: "@ + path@ + ". Use .toml or .json"@
            },
            None => r matches Err(CliError::Config(m)) && m@ == "unsupported config format: "@ + path@ + ". Use .toml or .json"@,
        },
{
    match extension {
        Some(e) => {
            if crate::text::str_eq(e, "toml") {
                return Ok(ConfigFormat::Toml);
            }
            if crate::text::str_eq(e, "json") {
                return Ok(ConfigFormat::Json);
            }
        },
        None => {},
    }
    let mut m = String::new();
    push_str(&mut m, "unsupported config format: ");
    push_str(&mut m, path);
    push_str(&mut m, ". Use .toml or .json");
    Err(CliError::Config(m))
}

/// The error of an explicit configuration file that does not exist.
pub fn config_not_found(path: &str) -> (r: CliError)
    ensures
        r matches CliError::Config(m) && m@ == "configuration file not found: "@ + path@,
{
    let mut m = String::new();
    push_str(&mut m, "configuration file not found: ");
    push_str(&mut m, path);
    CliError::Config(m)
}

// ---------------------------------------------------------------------------
// Errors
// ---------------------------------------------------------------------------

/// Errors of the command line.
#[derive(Debug)]
pub enum CliError {
    Io(std::io::Error),
    Config(String),
    Conversion(Error),
    OutputRequired,
}

impl CliError {
    /// The process exit code: 2 for configuration and output-path errors,
    /// 1 for conversion and I/O errors.
    pub fn exit_code(&self) -> (code: i32)
        ensures
            code == match self {
                CliError::Config(_) | CliError::OutputRequired => 2i32,
                CliError::Conversion(_) | CliError::Io(_) => 1i32,
            },
    {
        match self {
            CliError::Config(_) | CliError::OutputRequired => 2,
            CliError::Conversion(_) | CliError::Io(_) => 1,
        }
    }
}

impl CliError {
    /// The error's message, as the command line prints it.
    pub fn message(&self) -> (r: String)
        ensures
            self matches CliError::Config(m) ==> r@ == "configuration error: "@ + m@,
            self is OutputRequired ==> r@ == "output path required for multiple inputs"@,
            self matches CliError::Conversion(e) ==> (!(e is Io) && !(e is Url) ==> r@ == "conversion error: "@ + error_message(*e)),
            self is Io ==> r@.len() >= 11 && r@.take(11) == "I/O error: "@,
    {
        match self {
            CliError::Io(e) => {
                let r = crate::error::prefixed("I/O error: ", crate::error::io_error_text(e).as_str());
                proof {
                    reveal_strlit("I/O error: ");
                    assert(r@.take(11) =~= "I/O error: "@);
                }
                r
            },
            CliError::Config(m) => crate::error::prefixed("configuration error: ", m.as_str()),
            CliError::Conversion(e) => crate::error::prefixed("conversion error: ", e.message().as_str()),
            CliError::OutputRequired => "output path required for multiple inputs".to_owned(),
        }
    }
}

impl From<Error> for CliError {
    fn from(e: Error) -> (r: Self) {
        CliError::Conversion(e)
    }
}

impl FromSpecImpl<Error> for CliError {
    open spec fn obeys_from_spec() -> bool {
        true
    }

    open spec fn from_spec(e: Error) -> Self {
        CliError::Conversion(e)
    }
}

} // verus!
