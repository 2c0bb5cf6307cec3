//! HTML to Markdown conversion: options, cleanup rules, rendering rules and
//! the post-processing that turns noisy HTML into clean Markdown or text.

use vstd::prelude::*;

pub mod anchor;
pub mod blocks;
pub mod cleanup;
pub mod cli;
pub mod convert;
pub mod diagnostic;
pub mod document;
pub mod dom;
pub mod elements;
pub mod error;
pub mod escape;
pub mod handlers;
pub mod jobs;
pub mod language;
pub mod limits;
pub mod list;
pub mod native;
pub mod options;
pub mod pipeline;
pub mod postprocess;
pub mod profiles;
pub mod references;
pub mod renderer;
pub mod regex_support;
pub mod result;
pub mod rewrite;
pub mod rules;
pub mod serialize;
pub mod table;
pub mod validation;
pub mod text;

pub use error::{Error, Result};
pub use options::ConversionOptions;
pub use result::ConversionResult;

verus! {

} // verus!
