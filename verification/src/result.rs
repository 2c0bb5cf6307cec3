//! The result of converting one document.

use vstd::prelude::*;
use crate::diagnostic::{Diagnostic, DiagnosticKind};

verus! {

/// The result of converting a single HTML document.
#[derive(Debug)]
pub struct ConversionResult {
    /// Converted Markdown output.
    pub markdown: String,
    /// Document title, if extracted.
    pub title: Option<String>,
    /// Document description, if extracted.
    pub description: Option<String>,
    /// Canonical URL, if extracted.
    pub canonical_url: Option<String>,
    /// Diagnostics collected during conversion.
    pub diagnostics: Vec<Diagnostic>,
}

/// Some diagnostic in `ds` is an error.
pub open spec fn any_error(ds: Seq<Diagnostic>) -> bool {
    exists|i: int| 0 <= i < ds.len() && ds[i].kind == DiagnosticKind::Error
}

impl ConversionResult {
    /// True if any diagnostic is an error.
    pub fn has_errors(&self) -> (b: bool)
        ensures
            b == any_error(self.diagnostics@),
    {
        let mut i: usize = 0;
        while i < self.diagnostics.len()
            invariant
                i <= self.diagnostics@.len(),
                forall|k: int| 0 <= k < i ==> self.diagnostics@[k].kind != DiagnosticKind::Error,
            decreases self.diagnostics@.len() - i,
        {
            if self.diagnostics[i].kind == DiagnosticKind::Error {
                return true;
            }
            i += 1;
        }
        false
    }
}

} // verus!
