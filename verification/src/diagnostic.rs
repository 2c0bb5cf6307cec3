//! Diagnostics collected during conversion.

use vstd::prelude::*;

verus! {

/// Classification of a diagnostic message.
#[derive(Debug, Clone, Copy, PartialEq, Eq, Structural)]
pub enum DiagnosticKind {
    Warning,
    Error,
}

/// A single diagnostic message produced during conversion.
#[derive(Debug)]
pub struct Diagnostic {
    pub kind: DiagnosticKind,
    pub message: String,
    pub path: Option<String>,
    pub selector: Option<String>,
    pub rule: Option<String>,
}

impl Clone for Diagnostic {
    fn clone(&self) -> (r: Self)
        ensures
            r == *self,
    {
        Diagnostic {
            kind: self.kind,
            message: self.message.clone(),
            path: clone_opt(&self.path),
            selector: clone_opt(&self.selector),
            rule: clone_opt(&self.rule),
        }
    }
}

fn clone_opt(o: &Option<String>) -> (r: Option<String>)
    ensures
        r == *o,
{
    match o {
        Some(s) => Some(s.clone()),
        None => None,
    }
}

impl Diagnostic {
    /// A warning with `message` and no path, selector or rule.
    pub fn warning(message: &str) -> (d: Self)
        ensures
            d.kind == DiagnosticKind::Warning,
            d.message@ == message@,
            d.path.is_none(),
            d.selector.is_none(),
            d.rule.is_none(),
    {
        Diagnostic {
            kind: DiagnosticKind::Warning,
            message: message.to_owned(),
            path: None,
            selector: None,
            rule: None,
        }
    }

    /// An error with `message` and no path, selector or rule.
    pub fn error(message: &str) -> (d: Self)
        ensures
            d.kind == DiagnosticKind::Error,
            d.message@ == message@,
            d.path.is_none(),
            d.selector.is_none(),
            d.rule.is_none(),
    {
        Diagnostic {
            kind: DiagnosticKind::Error,
            message: message.to_owned(),
            path: None,
            selector: None,
            rule: None,
        }
    }

    /// The same diagnostic, attributed to `path`.
    pub fn with_path(self, path: &str) -> (d: Self)
        ensures
            d.kind == self.kind,
            d.message == self.message,
            d.path.is_some() && d.path.unwrap()@ == path@,
            d.selector == self.selector,
            d.rule == self.rule,
    {
        Diagnostic { path: Some(path.to_owned()), ..self }
    }

    /// The same diagnostic, attributed to `selector`.
    pub fn with_selector(self, selector: &str) -> (d: Self)
        ensures
            d.kind == self.kind,
            d.message == self.message,
            d.path == self.path,
            d.selector.is_some() && d.selector.unwrap()@ == selector@,
            d.rule == self.rule,
    {
        Diagnostic { selector: Some(selector.to_owned()), ..self }
    }

    /// The same diagnostic, attributed to `rule`.
    pub fn with_rule(self, rule: &str) -> (d: Self)
        ensures
            d.kind == self.kind,
            d.message == self.message,
            d.path == self.path,
            d.selector == self.selector,
            d.rule.is_some() && d.rule.unwrap()@ == rule@,
    {
        Diagnostic { rule: Some(rule.to_owned()), ..self }
    }
}

/// Something diagnostics can be reported to.
pub trait DiagnosticsCollector {
    fn push(&mut self, diagnostic: Diagnostic);
}

impl DiagnosticsCollector for Vec<Diagnostic> {
    fn push(&mut self, diagnostic: Diagnostic)
        ensures
            final(self)@ == old(self)@.push(diagnostic),
    {
        Vec::push(self, diagnostic);
    }
}

impl DiagnosticsCollector for () {
    fn push(&mut self, diagnostic: Diagnostic) {
    }
}

} // verus!
