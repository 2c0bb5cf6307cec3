//! The checks around a conversion: input limits before rendering, and the
//! final steps after it (metadata, profile post-processing, the output
//! limit, strict mode).

use vstd::prelude::*;
use crate::diagnostic::{Diagnostic, DiagnosticKind};
use crate::error::Error;
use crate::options::{opt_view, ConversionOptions, Limits};
use crate::profiles::{apply_profile_post_processing, profile_markdown};
use crate::result::{any_error, ConversionResult};
use crate::text::{decimal, push_str, u32_to_string, u64_to_string};

verus! {

/// Metadata read from the document before cleanup.
#[derive(Debug, Default)]
pub struct ExtractedMetadata {
    pub title: Option<String>,
    pub description: Option<String>,
    pub canonical_url: Option<String>,
    pub open_graph_title: Option<String>,
    pub open_graph_description: Option<String>,
    pub open_graph_image: Option<String>,
    pub twitter_title: Option<String>,
    pub twitter_description: Option<String>,
}

/// `"<what> <value> exceeds limit <limit>"`.
pub open spec fn limit_message(what: Seq<char>, value: nat, limit: nat) -> Seq<char> {
    what + seq![' '] + decimal(value) + " exceeds limit "@ + decimal(limit)
}

fn limit_message_exec(what: &str, value: u64, limit: u64) -> (r: String)
    ensures
        r@ == limit_message(what@, value as nat, limit as nat),
{
    let mut r = String::new();
    push_str(&mut r, what);
    push_str(&mut r, " ");
    let v = u64_to_string(value);
    push_str(&mut r, v.as_str());
    push_str(&mut r, " exceeds limit ");
    let l = u64_to_string(limit);
    push_str(&mut r, l.as_str());
    proof {
        reveal_strlit(" ");
    }
    r
}

/// The limits a document breaks, in the order they are checked.
pub open spec fn limit_findings(l: Limits, input: nat, count: nat, depth: nat, attr: nat) -> Seq<Seq<char>> {
    let a = if l.max_input_bytes > 0 && input > l.max_input_bytes {
        seq![limit_message("input size"@, input, l.max_input_bytes as nat)]
    } else {
        Seq::empty()
    };
    let b = if l.max_node_count > 0 && count > l.max_node_count {
        seq![limit_message("DOM node count"@, count, l.max_node_count as nat)]
    } else {
        Seq::empty()
    };
    let c = if l.max_dom_depth > 0 && depth > l.max_dom_depth {
        seq![limit_message("DOM depth"@, depth, l.max_dom_depth as nat)]
    } else {
        Seq::empty()
    };
    let d = if l.max_attribute_len > 0 && attr > l.max_attribute_len {
        seq![limit_message("attribute length"@, attr, l.max_attribute_len as nat)]
    } else {
        Seq::empty()
    };
    a + b + c + d
}

/// `ds` ends with one warning per message of `msgs`, after `before`.
pub open spec fn warned(before: Seq<Diagnostic>, ds: Seq<Diagnostic>, msgs: Seq<Seq<char>>) -> bool {
    &&& ds.len() == before.len() + msgs.len()
    &&& ds.take(before.len() as int) == before
    &&& forall|i: int|
        0 <= i < msgs.len() ==> {
            let d = #[trigger] ds[before.len() + i];
            &&& d.kind == DiagnosticKind::Warning
            &&& d.message@ == msgs[i]
            &&& d.path.is_none()
            &&& d.selector.is_none()
            &&& d.rule.is_none()
        }
}

fn report(
    found: bool,
    msg: String,
    strict: bool,
    diagnostics: &mut Vec<Diagnostic>,
    Ghost(msgs): Ghost<Seq<Seq<char>>>,
    Ghost(before): Ghost<Seq<Diagnostic>>,
) -> (r: Result<(), Error>)
    requires
        !strict ==> warned(before, old(diagnostics)@, msgs),
        strict ==> old(diagnostics)@ == before && msgs.len() == 0,
    ensures
        found && strict ==> (r matches Err(Error::LimitExceeded(m)) && m@ == msg@) && final(diagnostics)@ == old(diagnostics)@,
        !(found && strict) ==> r is Ok,
        !strict ==> warned(before, final(diagnostics)@, if found { msgs.push(msg@) } else { msgs }),
        strict && !found ==> final(diagnostics)@ == old(diagnostics)@,
{
    if !found {
        return Ok(());
    }
    if strict {
        return Err(Error::LimitExceeded(msg));
    }
    let ghost m = msg@;
    let d = Diagnostic::warning(msg.as_str());
    diagnostics.push(d);
    proof {
        let ds = diagnostics@;
        assert(ds.take(before.len() as int) =~= before) by {
            assert(old(diagnostics)@.take(before.len() as int) == before);
        }
        assert forall|i: int| 0 <= i < msgs.push(m).len() implies {
            let d = #[trigger] ds[before.len() + i];
            &&& d.kind == DiagnosticKind::Warning
            &&& d.message@ == msgs.push(m)[i]
            &&& d.path.is_none()
            &&& d.selector.is_none()
            &&& d.rule.is_none()
        } by {
            if i < msgs.len() {
                assert(ds[before.len() + i] == old(diagnostics)@[before.len() + i]);
            }
        }
    }
    Ok(())
}

/// Checks the input limits: a broken limit is an error in strict mode (the
/// first one checked) and a warning otherwise.
pub fn check_limits(
    input_bytes: u64,
    node_count: u64,
    depth: u32,
    attr_len: u64,
    options: &ConversionOptions,
    diagnostics: &mut Vec<Diagnostic>,
) -> (r: Result<(), Error>)
    ensures
        ({
            let f = limit_findings(options.limits, input_bytes as nat, node_count as nat, depth as nat, attr_len as nat);
            if options.strict {
                &&& final(diagnostics)@ == old(diagnostics)@
                &&& (f.len() == 0 <==> r is Ok)
                &&& f.len() > 0 ==> (r matches Err(Error::LimitExceeded(m)) && m@ == f[0])
            } else {
                &&& r is Ok
                &&& warned(old(diagnostics)@, final(diagnostics)@, f)
            }
        }),
{
    let ghost before = diagnostics@;
    let l = &options.limits;
    let strict = options.strict;
    proof {
        assert(diagnostics@.take(before.len() as int) =~= before);
    }
    let ghost f0 = Seq::<Seq<char>>::empty();
    let m1 = limit_message_exec("input size", input_bytes, l.max_input_bytes);
    let found1 = l.max_input_bytes > 0 && input_bytes > l.max_input_bytes;
    let r1 = report(found1, m1, strict, diagnostics, Ghost(f0), Ghost(before));
    if r1.is_err() {
        return r1;
    }
    let ghost f1 = if found1 { f0.push(m1@) } else { f0 };
    let m2 = limit_message_exec("DOM node count", node_count, l.max_node_count);
    let found2 = l.max_node_count > 0 && node_count > l.max_node_count;
    let r2 = report(found2, m2, strict, diagnostics, Ghost(f1), Ghost(before));
    if r2.is_err() {
        return r2;
    }
    let ghost f2 = if found2 { f1.push(m2@) } else { f1 };
    let m3 = limit_message_exec("DOM depth", depth as u64, l.max_dom_depth as u64);
    let found3 = l.max_dom_depth > 0 && depth > l.max_dom_depth;
    let r3 = report(found3, m3, strict, diagnostics, Ghost(f2), Ghost(before));
    if r3.is_err() {
        return r3;
    }
    let ghost f3 = if found3 { f2.push(m3@) } else { f2 };
    let m4 = limit_message_exec("attribute length", attr_len, l.max_attribute_len);
    let found4 = l.max_attribute_len > 0 && attr_len > l.max_attribute_len;
    let r4 = report(found4, m4, strict, diagnostics, Ghost(f3), Ghost(before));
    if r4.is_err() {
        return r4;
    }
    let ghost f4 = if found4 { f3.push(m4@) } else { f3 };
    assert(f4 =~= limit_findings(options.limits, input_bytes as nat, node_count as nat, depth as nat, attr_len as nat));
    Ok(())
}

/// The result after the final steps: document metadata preferred over what
/// the backend found, diagnostics appended, profile post-processing.
pub open spec fn finished(result: ConversionResult, metadata: ExtractedMetadata, diagnostics: Seq<Diagnostic>, o: ConversionOptions, r: ConversionResult) -> bool {
    let merged = ConversionResult {
        title: if metadata.title.is_some() { metadata.title } else { result.title },
        description: if metadata.description.is_some() { metadata.description } else { result.description },
        canonical_url: if metadata.canonical_url.is_some() { metadata.canonical_url } else { result.canonical_url },
        ..result
    };
    &&& r.markdown@ == profile_markdown(o.profile, merged)
    &&& r.title == merged.title
    &&& r.description == merged.description
    &&& r.canonical_url == merged.canonical_url
    &&& r.diagnostics@ == result.diagnostics@ + diagnostics
}

/// UTF-8 length of the Markdown (as `str::len` gives it).
pub open spec fn output_bytes(r: ConversionResult) -> nat {
    (vstd::utf8::encode_utf8(r.markdown@).len() as usize) as nat
}

/// Finishes a conversion: merges the document's metadata and diagnostics
/// into the backend's result, applies the profile's post-processing, then
/// enforces the output limit (error in strict mode, warning otherwise) and,
/// in strict mode, fails when any diagnostic is an error.
pub fn finish_conversion(
    result: ConversionResult,
    metadata: ExtractedMetadata,
    diagnostics: Vec<Diagnostic>,
    options: &ConversionOptions,
) -> (r: Result<ConversionResult, Error>)
    ensures
        match r {
            Ok(res) => exists|pre: ConversionResult| {
                &&& #[trigger] finished(result, metadata, diagnostics@, *options, pre)
                &&& !(options.limits.max_output_bytes > 0 && output_bytes(pre) > options.limits.max_output_bytes && options.strict)
                &&& res.markdown == pre.markdown && res.title == pre.title
                &&& res.description == pre.description && res.canonical_url == pre.canonical_url
                &&& if options.limits.max_output_bytes > 0 && output_bytes(pre) > options.limits.max_output_bytes {
                    &&& res.diagnostics@.len() == pre.diagnostics@.len() + 1
                    &&& res.diagnostics@.take(pre.diagnostics@.len() as int) == pre.diagnostics@
                    &&& res.diagnostics@.last().kind == DiagnosticKind::Warning
                    &&& res.diagnostics@.last().message@ == limit_message("output size"@, output_bytes(pre), options.limits.max_output_bytes as nat)
                } else {
                    res.diagnostics == pre.diagnostics
                }
                &&& !(options.strict && any_error(res.diagnostics@))
            },
            Err(Error::LimitExceeded(m)) => options.strict && exists|pre: ConversionResult| {
                &&& #[trigger] finished(result, metadata, diagnostics@, *options, pre)
                &&& options.limits.max_output_bytes > 0 && output_bytes(pre) > options.limits.max_output_bytes
                &&& m@ == limit_message("output size"@, output_bytes(pre), options.limits.max_output_bytes as nat)
            },
            Err(Error::Other(m)) => options.strict && m@ == "conversion produced errors in strict mode"@ && exists|pre: ConversionResult| {
                &&& #[trigger] finished(result, metadata, diagnostics@, *options, pre)
                &&& !(options.limits.max_output_bytes > 0 && output_bytes(pre) > options.limits.max_output_bytes)
                &&& any_error(pre.diagnostics@)
            },
            _ => false,
        },
{
    let ghost result0 = result;
    let ghost metadata0 = metadata;
    let ghost diags0 = diagnostics@;
    let mut result = result;
    if metadata.title.is_some() {
        result.title = metadata.title;
    }
    if metadata.description.is_some() {
        result.description = metadata.description;
    }
    if metadata.canonical_url.is_some() {
        result.canonical_url = metadata.canonical_url;
    }
    let ghost merged = result;
    let ghost head = result.diagnostics@;
    let mut diagnostics = diagnostics;
    result.diagnostics.append(&mut diagnostics);
    apply_profile_post_processing(&mut result, options);
    assert(finished(result0, metadata0, diags0, *options, result));
    let ghost pre = result;
    let max = options.limits.max_output_bytes;
    let out_len = result.markdown.as_str().len() as u64;
    if max > 0 && out_len > max {
        let msg = limit_message_exec("output size", out_len, max);
        if options.strict {
            return Err(Error::LimitExceeded(msg));
        }
        let ghost before = result.diagnostics@;
        result.diagnostics.push(Diagnostic::warning(msg.as_str()));
        assert(result.diagnostics@.take(before.len() as int) =~= before);
    }
    if options.strict && result.has_errors() {
        return Err(Error::Other("conversion produced errors in strict mode".to_owned()));
    }
    Ok(result)
}

} // verus!
