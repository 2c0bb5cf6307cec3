//! Reference-style links and images (`[text][ref1]` with `[ref1]: url`),
//! numbered in document order, with their definitions placed next to the
//! link, at the end of the section, or at the end of the document.

use vstd::prelude::*;
use crate::handlers::{outcome_view, HandlerOutcome};
use crate::options::ReferencePlacement;
use crate::text::{
    decimal, join, join_strings, push_char, push_str, replaced, str_replace, trim_both,
    trim_string, usize_to_string, TrimSet,
};

verus! {

/// The definitions waiting to be placed, and how many references were
/// numbered so far.
pub struct ReferenceState {
    pub pending: Vec<String>,
    pub counter: usize,
}

pub open spec fn pending_view(s: ReferenceState) -> Seq<Seq<char>> {
    s.pending@.map_values(|x: String| x@)
}

impl ReferenceState {
    pub fn new() -> (r: Self)
        ensures
            pending_view(r) == Seq::<Seq<char>>::empty(),
            r.counter == 0,
    {
        let r = ReferenceState { pending: Vec::new(), counter: 0 };
        assert(pending_view(r) =~= Seq::<Seq<char>>::empty());
        r
    }
}

/// The next reference number: one more than the last.
pub fn next_reference_id(state: &mut ReferenceState) -> (id: usize)
    requires
        old(state).counter < usize::MAX,
    ensures
        id == old(state).counter + 1,
        final(state).counter == id,
        final(state).pending == old(state).pending,
{
    state.counter = state.counter + 1;
    state.counter
}

/// The pending definitions as one block between blank lines, if any.
pub open spec fn definitions_text(defs: Seq<Seq<char>>) -> Option<Seq<char>> {
    if defs.len() == 0 {
        None
    } else {
        Some("\n\n"@ + join(defs, "\n"@) + "\n\n"@)
    }
}

/// Emits and clears the pending definitions (nothing to do when each
/// definition stands next to its link).
pub fn flush_pending_definitions(state: &mut ReferenceState, placement: ReferencePlacement) -> (r: Option<String>)
    ensures
        placement == ReferencePlacement::Adjacent ==> r.is_none() && *final(state) == *old(state),
        placement != ReferencePlacement::Adjacent ==> {
            &&& pending_view(*final(state)) == Seq::<Seq<char>>::empty()
            &&& final(state).counter == old(state).counter
            &&& match (r, definitions_text(pending_view(*old(state)))) {
                (Some(a), Some(b)) => a@ == b,
                (None, None) => true,
                _ => false,
            }
        },
{
    if placement == ReferencePlacement::Adjacent {
        return None;
    }
    let mut defs: Vec<String> = Vec::new();
    std::mem::swap(&mut defs, &mut state.pending);
    assert(pending_view(*state) =~= Seq::<Seq<char>>::empty());
    if defs.len() == 0 {
        return None;
    }
    let body = join_strings(&defs, "\n");
    let mut r = String::new();
    push_str(&mut r, "\n\n");
    push_str(&mut r, body.as_str());
    push_str(&mut r, "\n\n");
    Some(r)
}

/// A definition `[id]: url`, with ` "title"` for a non-empty title.
pub open spec fn definition(id: Seq<char>, url: Seq<char>, title: Option<Seq<char>>) -> Seq<char> {
    match title {
        Some(t) => if t.len() > 0 {
            seq!['['] + id + "]: "@ + url + " \""@ + t + seq!['"']
        } else {
            seq!['['] + id + "]: "@ + url
        },
        None => seq!['['] + id + "]: "@ + url,
    }
}

fn definition_exec(id: &str, url: &str, title: Option<&str>) -> (r: String)
    ensures
        r@ == definition(
            id@,
            url@,
            match title {
                Some(t) => Some(t@),
                None => None,
            },
        ),
{
    let mut r = String::new();
    push_char(&mut r, '[');
    push_str(&mut r, id);
    push_str(&mut r, "]: ");
    push_str(&mut r, url);
    match title {
        Some(t) => {
            if !t.is_empty() {
                push_str(&mut r, " \"");
                push_str(&mut r, t);
                push_char(&mut r, '"');
            }
        },
        None => {},
    }
    r
}

/// What a reference renders in place: next to the link the definition
/// follows between blank lines; otherwise it waits for the flush.
pub open spec fn placed(inline: Seq<char>, def: Seq<char>, placement: ReferencePlacement) -> Seq<char> {
    if placement == ReferencePlacement::Adjacent {
        inline + "\n\n"@ + def + "\n\n"@
    } else {
        inline
    }
}

/// The state after a reference with definition `def` was numbered.
pub open spec fn after_reference(old: ReferenceState, new: ReferenceState, def: Seq<char>, placement: ReferencePlacement) -> bool {
    &&& new.counter == old.counter + 1
    &&& pending_view(new) == if placement == ReferencePlacement::Adjacent {
        pending_view(old)
    } else {
        pending_view(old).push(def)
    }
}

fn place(state: &mut ReferenceState, inline: String, def: String, placement: ReferencePlacement) -> (r: String)
    ensures
        r@ == placed(inline@, def@, placement),
        final(state).counter == old(state).counter,
        pending_view(*final(state)) == if placement == ReferencePlacement::Adjacent {
            pending_view(*old(state))
        } else {
            pending_view(*old(state)).push(def@)
        },
{
    if placement == ReferencePlacement::Adjacent {
        let mut r = inline;
        push_str(&mut r, "\n\n");
        push_str(&mut r, def.as_str());
        push_str(&mut r, "\n\n");
        r
    } else {
        let ghost before = pending_view(*state);
        let ghost d = def@;
        state.pending.push(def);
        assert(pending_view(*state) =~= before.push(d));
        inline
    }
}

/// A reference link `[text][refN]`: the text is the link's trimmed
/// content with `]` escaped; a link without `href` renders as its content.
pub fn reference_link(
    state: &mut ReferenceState,
    placement: ReferencePlacement,
    href: Option<&str>,
    title: Option<&str>,
    walked: &str,
) -> (r: String)
    requires
        old(state).counter < usize::MAX,
    ensures
        match href {
            None => r@ == walked@ && *final(state) == *old(state),
            Some(h) => {
                let id = "ref"@ + decimal(old(state).counter as nat + 1);
                let text = replaced(trim_both(walked@, TrimSet::UnicodeWs), "]"@, "\\]"@);
                let def = definition(
                    id,
                    h@,
                    match title {
                        Some(t) => Some(t@),
                        None => None,
                    },
                );
                &&& r@ == placed(seq!['['] + text + "]["@ + id + seq![']'], def, placement)
                &&& after_reference(*old(state), *final(state), def, placement)
            },
        },
{
    let h = match href {
        Some(h) => h,
        None => return walked.to_owned(),
    };
    let trimmed = trim_string(walked, TrimSet::UnicodeWs);
    proof {
        reveal_strlit("]");
    }
    let text = str_replace(trimmed.as_str(), "]", "\\]");
    let n = next_reference_id(state);
    let mut id = String::new();
    push_str(&mut id, "ref");
    let digits = usize_to_string(n);
    push_str(&mut id, digits.as_str());
    let def = definition_exec(id.as_str(), h, title);
    let mut inline = String::new();
    push_char(&mut inline, '[');
    push_str(&mut inline, text.as_str());
    push_str(&mut inline, "][");
    push_str(&mut inline, id.as_str());
    push_char(&mut inline, ']');
    place(state, inline, def, placement)
}

/// A reference image `![alt][imgN]`: the alt text with `]` escaped; an
/// image without `src` renders as usual.
pub fn reference_image(
    state: &mut ReferenceState,
    placement: ReferencePlacement,
    src: Option<&str>,
    alt: Option<&str>,
    title: Option<&str>,
) -> (r: HandlerOutcome)
    requires
        old(state).counter < usize::MAX,
    ensures
        match src {
            None => outcome_view(r) == None::<Seq<char>> && *final(state) == *old(state),
            Some(s) => {
                let id = "img"@ + decimal(old(state).counter as nat + 1);
                let a = replaced(
                    match alt {
                        Some(a) => a@,
                        None => Seq::empty(),
                    },
                    "]"@,
                    "\\]"@,
                );
                let def = definition(
                    id,
                    s@,
                    match title {
                        Some(t) => Some(t@),
                        None => None,
                    },
                );
                &&& outcome_view(r) == Some(placed("!["@ + a + "]["@ + id + seq![']'], def, placement))
                &&& after_reference(*old(state), *final(state), def, placement)
            },
        },
{
    let s = match src {
        Some(s) => s,
        None => return HandlerOutcome::Fallback,
    };
    proof {
        reveal_strlit("]");
    }
    let empty = String::new();
    let alt_text = match alt {
        Some(a) => a,
        None => empty.as_str(),
    };
    let a = str_replace(alt_text, "]", "\\]");
    let n = next_reference_id(state);
    let mut id = String::new();
    push_str(&mut id, "img");
    let digits = usize_to_string(n);
    push_str(&mut id, digits.as_str());
    let def = definition_exec(id.as_str(), s, title);
    let mut inline = String::new();
    push_str(&mut inline, "![");
    push_str(&mut inline, a.as_str());
    push_str(&mut inline, "][");
    push_str(&mut inline, id.as_str());
    push_char(&mut inline, ']');
    HandlerOutcome::Markdown(place(state, inline, def, placement))
}

/// A heading that closes a section: the pending definitions go before it.
pub open spec fn flushed_heading(defs: Seq<Seq<char>>, heading: Seq<char>) -> Seq<char> {
    if defs.len() == 0 {
        heading
    } else {
        "\n\n"@ + join(defs, "\n"@) + "\n\n"@ + heading
    }
}

/// Places the pending definitions before a heading (rendered as
/// `heading`; a heading that renders to nothing stays nothing).
pub fn heading_flush(state: &mut ReferenceState, heading: Option<&str>) -> (r: Option<String>)
    ensures
        pending_view(*final(state)) == Seq::<Seq<char>>::empty(),
        final(state).counter == old(state).counter,
        match (r, heading) {
            (Some(a), Some(h)) => a@ == flushed_heading(pending_view(*old(state)), h@),
            (None, None) => true,
            _ => false,
        },
{
    let mut defs: Vec<String> = Vec::new();
    std::mem::swap(&mut defs, &mut state.pending);
    assert(pending_view(*state) =~= Seq::<Seq<char>>::empty());
    let h = match heading {
        Some(h) => h,
        None => return None,
    };
    if defs.len() == 0 {
        return Some(h.to_owned());
    }
    let body = join_strings(&defs, "\n");
    let mut r = String::new();
    push_str(&mut r, "\n\n");
    push_str(&mut r, body.as_str());
    push_str(&mut r, "\n\n");
    push_str(&mut r, h);
    Some(r)
}

} // verus!
