//! Anchors: the interpolation points of a template, with their spans,
//! optional index, fallback defaults and attribute list.

use vstd::prelude::*;
use crate::attr::{Attribute, AttributeView, AttributeKind};

verus! {

/// What a [`DefaultValue`] denotes.
#[verifier::ext_equal]
pub enum DefaultValueView {
    Literal(Seq<char>),
    Anchor { name: Seq<char>, index: Option<usize> },
}

/// A fallback for an anchor without a match: a quoted literal, or another
/// named capture (possibly indexed). A default never carries further
/// defaults.
#[derive(Debug)]
pub enum DefaultValue {
    Literal(String),
    /// Unlike a regular anchor, this one is unconcerned with position.
    Anchor { name: String, index: Option<usize> },
}

impl View for DefaultValue {
    type V = DefaultValueView;

    open spec fn view(&self) -> DefaultValueView {
        match self {
            DefaultValue::Literal(s) => DefaultValueView::Literal(s@),
            DefaultValue::Anchor { name, index } => DefaultValueView::Anchor {
                name: name@,
                index: *index,
            },
        }
    }
}

/// What an [`Anchor`] denotes.
#[verifier::ext_equal]
pub struct AnchorView {
    pub name: Seq<char>,
    pub start: usize,
    pub end: usize,
    pub index: Option<usize>,
    pub defaults: Seq<DefaultValueView>,
    pub attributes: Seq<AttributeView>,
    pub required: bool,
}

/// An interpolation point. `name` refers to the capture whose value replaces
/// the anchor; `start` and `end` delimit the anchor's textual span in the
/// template (in characters); `index` selects which of several captured
/// values to use (0 when absent); `defaults` are fallbacks tried in order;
/// `attributes` style the interpolated value; a `required` anchor without a
/// match suppresses the whole output.
///
/// `name` may be empty only when the defaults make the anchor a pure
/// literal.
#[derive(Debug)]
pub struct Anchor {
    pub name: String,
    pub start: usize,
    pub end: usize,
    pub index: Option<usize>,
    pub defaults: Vec<DefaultValue>,
    pub attributes: Vec<Attribute>,
    pub required: bool,
}

impl View for Anchor {
    type V = AnchorView;

    open spec fn view(&self) -> AnchorView {
        AnchorView {
            name: self.name@,
            start: self.start,
            end: self.end,
            index: self.index,
            defaults: self.defaults@.map_values(|d: DefaultValue| d@),
            attributes: self.attributes@.map_values(|a: Attribute| a@),
            required: self.required,
        }
    }
}

/// The views of a sequence of anchors.
pub open spec fn anchors_view(s: Seq<Anchor>) -> Seq<AnchorView> {
    s.map_values(|a: Anchor| a@)
}

/// Whether an attribute kind is an alignment.
pub open spec fn is_align(k: AttributeKind) -> bool {
    k is Align
}

/// The attributes of `s` whose alignment-ness equals `want`, in order,
/// starting at position `i`.
pub open spec fn select_aligns(s: Seq<AttributeView>, want: bool, i: int) -> Seq<AttributeView>
    decreases s.len() - i,
{
    if i < 0 || i >= s.len() {
        Seq::empty()
    } else if is_align(s[i].kind) == want {
        seq![s[i]] + select_aligns(s, want, i + 1)
    } else {
        select_aligns(s, want, i + 1)
    }
}

/// The attribute list reordered so alignment attributes come first; the
/// relative order within each group is preserved (a stable partition).
pub open spec fn partition_aligns(s: Seq<AttributeView>) -> Seq<AttributeView> {
    select_aligns(s, true, 0) + select_aligns(s, false, 0)
}

} // verus!
