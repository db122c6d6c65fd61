//! Terminal styling state and its rendering through crossterm.
//!
//! The style accumulated while applying attributes is plain data: an optional
//! foreground and background color index and four emphasis flags. Rendering
//! the styled text is done by crossterm, whose output also depends on the
//! process environment (the `NO_COLOR` convention and the forced-color
//! switch), so the rendered text is specified relationally: the content is
//! embedded verbatim between two styling affixes, and an empty style renders
//! the content unchanged.

use vstd::prelude::*;

verus! {

/// Accumulated styling: optional foreground/background color index and
/// emphasis flags. The eight base terminal colors are indexed 0 black,
/// 1 red, 2 green, 3 yellow, 4 blue, 5 magenta, 6 cyan, 7 white.
#[derive(Clone, Copy, Debug, PartialEq, Eq, Structural)]
pub struct StyleState {
    pub fg: Option<u8>,
    pub bg: Option<u8>,
    pub bold: bool,
    pub underlined: bool,
    pub reverse: bool,
    pub crossed_out: bool,
}

impl StyleState {
    /// No styling at all.
    pub open spec fn spec_empty() -> StyleState {
        StyleState { fg: None, bg: None, bold: false, underlined: false, reverse: false, crossed_out: false }
    }

    pub fn empty() -> (r: StyleState)
        ensures
            r == StyleState::spec_empty(),
    {
        StyleState { fg: None, bg: None, bold: false, underlined: false, reverse: false, crossed_out: false }
    }

    pub open spec fn is_empty_spec(self) -> bool {
        self == StyleState::spec_empty()
    }

    pub fn is_empty(&self) -> (r: bool)
        ensures
            r == self.is_empty_spec(),
    {
        self.fg.is_none() && self.bg.is_none() && !self.bold && !self.underlined && !self.reverse
            && !self.crossed_out
    }
}

/// How crossterm renders `text` under `style`: `out` is the content verbatim
/// between a styling prefix and suffix, and an empty style leaves it
/// unchanged. The affixes depend on the process environment, so nothing more
/// is stated of them.
pub open spec fn render_rel(style: StyleState, text: Seq<char>, out: Seq<char>) -> bool {
    &&& (style.is_empty_spec() ==> out == text)
    &&& exists|p: Seq<char>, q: Seq<char>| out == p + text + q
}

#[verifier::external_type_specification]
#[verifier::external_body]
pub struct ExColor(crossterm::style::Color);

/// Relies on crossterm's `Color`: maps a base color index to the color that
/// `Stylize`'s like-named method applies.
#[verifier::external_body]
fn color_of(idx: u8) -> crossterm::style::Color {
    match idx {
        0 => crossterm::style::Color::Black,
        1 => crossterm::style::Color::Red,
        2 => crossterm::style::Color::Green,
        3 => crossterm::style::Color::Yellow,
        4 => crossterm::style::Color::Blue,
        5 => crossterm::style::Color::Magenta,
        6 => crossterm::style::Color::Cyan,
        _ => crossterm::style::Color::White,
    }
}

/// Relies on crossterm's `StyledContent` rendering: it writes the styling
/// codes (if any), the content verbatim, then the reset codes; with no
/// colors and no attributes set it writes the content alone. Whether the
/// color codes are actually emitted also depends on the environment, so the
/// contract only pins the empty-style case and the verbatim embedding.
#[verifier::external_body]
pub fn render_styled(style: &StyleState, text: &str) -> (r: String)
    ensures
        render_rel(*style, text@, r@),
{
    let mut cs = crossterm::style::ContentStyle::new();
    cs.foreground_color = style.fg.map(color_of);
    cs.background_color = style.bg.map(color_of);
    if style.bold { cs.attributes.set(crossterm::style::Attribute::Bold); }
    if style.underlined { cs.attributes.set(crossterm::style::Attribute::Underlined); }
    if style.reverse { cs.attributes.set(crossterm::style::Attribute::Reverse); }
    if style.crossed_out { cs.attributes.set(crossterm::style::Attribute::CrossedOut); }
    crossterm::style::StyledContent::new(cs, text).to_string()
}

} // verus!
