//! Input limits (size, node count, depth, attribute length), measured on
//! the document tree and enforced as errors in strict mode and warnings
//! otherwise; and the final steps of a conversion.

use vstd::prelude::*;
use crate::diagnostic::{Diagnostic, DiagnosticKind};
use crate::dom::{children_of, DomNode};
use crate::error::Error;
use crate::options::{ConversionOptions, Limits};
use crate::profiles::{apply_profile_post_processing, profile_markdown};
use crate::result::{any_error, ConversionResult};
use crate::serialize::Attribute;
use crate::text::{decimal, push_str, u32_to_string, u64_to_string};

verus! {

// ---------------------------------------------------------------------------
// Measures of the tree
// ---------------------------------------------------------------------------

/// Number of nodes in the tree under `n`, `n` included.
pub open spec fn node_count(n: DomNode) -> nat
    decreases n,
{
    match n {
        DomNode::Document { children } => 1 + nodes_count(children@),
        DomNode::Element { children, .. } => 1 + nodes_count(children@),
        _ => 1,
    }
}

pub open spec fn nodes_count(cs: Seq<DomNode>) -> nat
    decreases cs,
{
    if cs.len() == 0 {
        0
    } else {
        nodes_count(cs.drop_last()) + node_count(cs.last())
    }
}

/// The deepest level under `n`, `n` itself being at `level`.
pub open spec fn depth_from(n: DomNode, level: nat) -> nat
    decreases n,
{
    match n {
        DomNode::Document { children } => max_depth_of(children@, level + 1, level),
        DomNode::Element { children, .. } => max_depth_of(children@, level + 1, level),
        _ => level,
    }
}

/// The larger of `floor` and the depths of the nodes `cs` at `level`.
pub open spec fn max_depth_of(cs: Seq<DomNode>, level: nat, floor: nat) -> nat
    decreases cs,
{
    if cs.len() == 0 {
        floor
    } else {
        let m = max_depth_of(cs.drop_last(), level, floor);
        let d = depth_from(cs.last(), level);
        if d > m {
            d
        } else {
            m
        }
    }
}

/// The depth of a document: its top-level nodes are at depth one; an empty
/// document has depth zero.
pub open spec fn dom_depth(root: DomNode) -> nat {
    max_depth_of(children_of(root), 1, 0)
}

/// UTF-8 length of an attribute's value (as `str::len` gives it).
pub open spec fn value_bytes(a: Attribute) -> nat {
    (vstd::utf8::encode_utf8(a.value@).len() as usize) as nat
}

/// The longest attribute value (in bytes) among `attrs`, at least `floor`.
pub open spec fn max_value_len(attrs: Seq<Attribute>, floor: nat) -> nat
    decreases attrs.len(),
{
    if attrs.len() == 0 {
        floor
    } else {
        let m = max_value_len(attrs.drop_last(), floor);
        if value_bytes(attrs.last()) > m {
            value_bytes(attrs.last())
        } else {
            m
        }
    }
}

/// The longest attribute value under `n`, at least `floor`.
pub open spec fn attr_len_under(n: DomNode, floor: nat) -> nat
    decreases n,
{
    match n {
        DomNode::Document { children } => attr_len_list(children@, floor),
        DomNode::Element { attrs, children, .. } => attr_len_list(children@, max_value_len(attrs@, floor)),
        _ => floor,
    }
}

pub open spec fn attr_len_list(cs: Seq<DomNode>, floor: nat) -> nat
    decreases cs,
{
    if cs.len() == 0 {
        floor
    } else {
        attr_len_under(cs.last(), attr_len_list(cs.drop_last(), floor))
    }
}

/// The number of nodes in the tree, root included (saturating at the
/// largest `u64`).
pub fn count_nodes(n: &DomNode) -> (r: u64)
    ensures
        r == if node_count(*n) > u64::MAX {
            u64::MAX as nat
        } else {
            node_count(*n)
        },
    decreases n,
{
    match n {
        DomNode::Document { children } => {
            let c = count_list(children);
            if c == u64::MAX { u64::MAX } else { 1 + c }
        },
        DomNode::Element { children, .. } => {
            let c = count_list(children);
            if c == u64::MAX { u64::MAX } else { 1 + c }
        },
        _ => 1,
    }
}

fn count_list(cs: &Vec<DomNode>) -> (r: u64)
    ensures
        r == if nodes_count(cs@) > u64::MAX {
            u64::MAX as nat
        } else {
            nodes_count(cs@)
        },
    decreases cs,
{
    let mut total: u64 = 0;
    let mut i: usize = 0;
    while i < cs.len()
        invariant
            i <= cs@.len(),
            total == if nodes_count(cs@.take(i as int)) > u64::MAX {
                u64::MAX as nat
            } else {
                nodes_count(cs@.take(i as int))
            },
        decreases cs@.len() - i,
    {
        assert(cs@.take(i + 1).drop_last() == cs@.take(i as int));
        let c = count_nodes(&cs[i]);
        if total > u64::MAX - c {
            total = u64::MAX;
        } else {
            total = total + c;
        }
        i += 1;
    }
    assert(cs@.take(cs@.len() as int) == cs@);
    total
}

/// The depth of the tree (saturating at the largest `u32`).
pub fn max_dom_depth(root: &DomNode) -> (r: u32)
    ensures
        r == if dom_depth(*root) > u32::MAX {
            u32::MAX as nat
        } else {
            dom_depth(*root)
        },
{
    match root {
        DomNode::Document { children } => depth_list(children, 1, 0),
        DomNode::Element { children, .. } => depth_list(children, 1, 0),
        _ => 0,
    }
}

pub open spec fn cap32(x: nat) -> nat {
    if x > u32::MAX {
        u32::MAX as nat
    } else {
        x
    }
}

proof fn lemma_depth_monotone(cs: Seq<DomNode>, level: nat, floor: nat)
    ensures
        max_depth_of(cs, level, floor) >= floor,
    decreases cs,
{
    if cs.len() > 0 {
        lemma_depth_monotone(cs.drop_last(), level, floor);
    }
}

fn depth_of(n: &DomNode, level: u32) -> (r: u32)
    ensures
        r == cap32(depth_from(*n, level as nat)),
    decreases n,
{
    match n {
        DomNode::Document { children } => {
            if level == u32::MAX {
                proof {
                    lemma_depth_monotone(children@, level as nat + 1, level as nat);
                }
                u32::MAX
            } else {
                depth_list(children, level + 1, level)
            }
        },
        DomNode::Element { children, .. } => {
            if level == u32::MAX {
                proof {
                    lemma_depth_monotone(children@, level as nat + 1, level as nat);
                }
                u32::MAX
            } else {
                depth_list(children, level + 1, level)
            }
        },
        _ => level,
    }
}

fn depth_list(cs: &Vec<DomNode>, level: u32, floor: u32) -> (r: u32)
    ensures
        r == cap32(max_depth_of(cs@, level as nat, floor as nat)),
    decreases cs,
{
    let mut best = floor;
    let mut i: usize = 0;
    while i < cs.len()
        invariant
            i <= cs@.len(),
            best == cap32(max_depth_of(cs@.take(i as int), level as nat, floor as nat)),
        decreases cs@.len() - i,
    {
        assert(cs@.take(i + 1).drop_last() == cs@.take(i as int));
        let d = depth_of(&cs[i], level);
        if d > best {
            best = d;
        }
        i += 1;
    }
    assert(cs@.take(cs@.len() as int) == cs@);
    best
}

pub open spec fn cap64(x: nat) -> nat {
    if x > u64::MAX {
        u64::MAX as nat
    } else {
        x
    }
}

fn value_len_list(attrs: &Vec<Attribute>, floor: u64) -> (r: u64)
    ensures
        r == cap64(max_value_len(attrs@, floor as nat)),
{
    let mut best = floor;
    let mut i: usize = 0;
    while i < attrs.len()
        invariant
            i <= attrs@.len(),
            best == cap64(max_value_len(attrs@.take(i as int), floor as nat)),
        decreases attrs@.len() - i,
    {
        assert(attrs@.take(i + 1).drop_last() == attrs@.take(i as int));
        let sv = attrs[i].value.as_str();
        assert(sv@ == attrs@[i as int].value@);
        let l = sv.len() as u64;
        if l > best {
            best = l;
        }
        i += 1;
    }
    assert(attrs@.take(attrs@.len() as int) == attrs@);
    best
}

proof fn lemma_attr_len_floor(n: DomNode, floor: nat)
    ensures
        attr_len_under(n, floor) >= floor,
    decreases n,
{
    match n {
        DomNode::Document { children } => lemma_attr_list_floor(children@, floor),
        DomNode::Element { attrs, children, .. } => {
            lemma_value_len_floor(attrs@, floor);
            lemma_attr_list_floor(children@, max_value_len(attrs@, floor));
        },
        _ => {},
    }
}

proof fn lemma_attr_list_floor(cs: Seq<DomNode>, floor: nat)
    ensures
        attr_len_list(cs, floor) >= floor,
    decreases cs,
{
    if cs.len() > 0 {
        lemma_attr_list_floor(cs.drop_last(), floor);
        lemma_attr_len_floor(cs.last(), attr_len_list(cs.drop_last(), floor));
    }
}

proof fn lemma_value_len_floor(attrs: Seq<Attribute>, floor: nat)
    ensures
        max_value_len(attrs, floor) >= floor,
    decreases attrs.len(),
{
    if attrs.len() > 0 {
        lemma_value_len_floor(attrs.drop_last(), floor);
    }
}

/// The longest attribute value in the tree, in bytes (zero without
/// attributes).
pub fn max_attribute_len(root: &DomNode) -> (r: u64)
    ensures
        r == cap64(attr_len_under(*root, 0)),
{
    attr_len_of(root, 0)
}

fn attr_len_of(n: &DomNode, floor: u64) -> (r: u64)
    ensures
        r == cap64(attr_len_under(*n, floor as nat)),
    decreases n,
{
    match n {
        DomNode::Document { children } => attr_len_children(children, floor),
        DomNode::Element { attrs, children, .. } => {
            let f = value_len_list(attrs, floor);
            if f == u64::MAX {
                proof {
                    lemma_attr_list_floor(children@, max_value_len(attrs@, floor as nat));
                }
                u64::MAX
            } else {
                attr_len_children(children, f)
            }
        },
        _ => floor,
    }
}

fn attr_len_children(cs: &Vec<DomNode>, floor: u64) -> (r: u64)
    ensures
        r == cap64(attr_len_list(cs@, floor as nat)),
    decreases cs,
{
    let mut best = floor;
    let mut i: usize = 0;
    while i < cs.len()
        invariant
            i <= cs@.len(),
            best == cap64(attr_len_list(cs@.take(i as int), floor as nat)),
        decreases cs@.len() - i,
    {
        assert(cs@.take(i + 1).drop_last() == cs@.take(i as int));
        if best == u64::MAX {
            proof {
                lemma_attr_len_floor(cs@[i as int], attr_len_list(cs@.take(i as int), floor as nat));
            }
        } else {
            best = attr_len_of(&cs[i], best);
        }
        i += 1;
    }
    assert(cs@.take(cs@.len() as int) == cs@);
    best
}

} // verus!
