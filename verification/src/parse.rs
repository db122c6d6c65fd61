//! The template parser: a character-cursor state machine that consumes a
//! template string and produces its ordered list of anchors, or the first
//! fatal syntax violation with its exact character index.
//!
//! The machine is specified by [`step`], one configuration transition per
//! character examined, and [`run`], its transitive closure; the executable
//! [`parse`] returns exactly what [`parse_spec`] prescribes.

use vstd::prelude::*;
use vstd::string::StringExecFns;
use crate::anchor::{Anchor, AnchorView, DefaultValue, DefaultValueView, anchors_view, is_align,
    select_aligns, partition_aligns};
use crate::attr::{Attribute, AttributeView, AttributeKind, AttrError, attr_parse_spec, attrs_view};
use crate::charset::{spec_ident_char, ident_char, spec_is_ws, is_ws, spec_name_valid, parse_index,
    parse_index_spec};
use crate::error::{ParseError, ParseErrorView, error_view, missing_escapee_msg,
    invalid_anchor_name_msg, unclosed_anchor_msg, invalid_index_msg,
    invalid_indexing_operation_msg, invalid_default_value_operation_msg,
    default_str_literal_missing_closing_quote_msg, default_parsing_disallowed_char_msg,
    index_parsing_eol_msg, default_parsing_eol_msg, default_disallowed_with_required_msg,
    string_parameter_missing_closing_quote_msg, attribute_unclosed_msg, attribute_end_msg};
use crate::strutil::{push_char, string_from_range, str_to_chars};
use crate::token::{ESCAPE, ANCHOR_OPEN, ANCHOR_CLOSE, REQUIRED, INDEX_OPEN, INDEX_CLOSE,
    DEFAULT_PIPE, LITERAL_SINGLE_QUOTE, LITERAL_DOUBLE_QUOTE, ATTRIBUTE_OPEN, ATTRIBUTE_CLOSE,
    ATTRIBUTE_DELIMETER, ATTRIBUTE_END, PARAM_OPEN, PARAM_CLOSE};

verus! {

/// What a raw attribute segment denotes: its name text and optional raw
/// argument text, as scanned from the attribute list.
#[verifier::ext_equal]
pub struct RawAttrView {
    pub name: Seq<char>,
    pub args: Option<Seq<char>>,
}

/// A raw attribute segment scanned from an attribute list, before being
/// resolved into an [`Attribute`].
pub struct RawAttr {
    pub name: String,
    pub args: Option<String>,
}

impl View for RawAttr {
    type V = RawAttrView;

    open spec fn view(&self) -> RawAttrView {
        RawAttrView {
            name: self.name@,
            args: match self.args {
                Some(s) => Some(s@),
                None => None,
            },
        }
    }
}

pub open spec fn raws_view(s: Seq<RawAttr>) -> Seq<RawAttrView> {
    s.map_values(|r: RawAttr| r@)
}

/// The parsing phase: which sub-grammar the cursor is currently inside.
#[verifier::ext_equal]
pub enum Phase {
    /// Walking ordinary characters outside any anchor.
    Base,
    /// Inside an anchor body, accumulating the name.
    Body,
    /// After `[` of a primary-anchor index, digits begin at `digit_start`.
    IndexScan { digit_start: int },
    /// After `||`, waiting for the first significant character of a default.
    DefaultDispatch,
    /// Inside a quoted default literal opened with `open`; the content
    /// begins at `content_start`.
    LiteralScan { open: char, content_start: int },
    /// Inside a default anchor name, accumulated in `dname`.
    DefaultAnchorScan { dname: Seq<char>, dindex: Option<usize> },
    /// After `[` of a default-anchor index, digits begin at `digit_start`.
    DefaultAnchorIndex { dname: Seq<char>, digit_start: int },
    /// Inside the attribute list; the current segment begins at `seg_start`.
    AttrScan { seg_start: int, raw: Seq<RawAttrView> },
    /// Inside the parenthesized arguments of the attribute named `aname`.
    AttrParamScan {
        aname: Seq<char>,
        param_start: int,
        open_quote: Option<char>,
        raw: Seq<RawAttrView>,
    },
    /// After the closing `)` of the attribute list: expect `:`, then resolve
    /// the collected raw attributes.
    AttrEnd { raw: Seq<RawAttrView> },
}

/// A machine configuration: the cursor, the anchor being built (meaningful
/// outside [`Phase::Base`]), the phase, and the anchors finished so far.
#[verifier::ext_equal]
pub struct Cfg {
    pub cursor: int,
    pub bound: AnchorView,
    pub phase: Phase,
    pub anchors: Seq<AnchorView>,
}

/// One transition's outcome.
#[verifier::ext_equal]
pub enum StepR {
    Next(Cfg),
    Done(Seq<AnchorView>),
    Fail(ParseErrorView),
}

/// The last valid character index, used by end-of-input errors.
pub open spec fn eol_idx(len: int) -> usize {
    if len >= 1 {
        (len - 1) as usize
    } else {
        0
    }
}

/// The index just before `cursor`, clamped at zero.
pub open spec fn idx_before(cursor: int) -> usize {
    if cursor >= 1 {
        (cursor - 1) as usize
    } else {
        0
    }
}

/// `p` clamped into the valid index range of a template of length `len`.
pub open spec fn clamp_idx(p: int, len: int) -> usize {
    if len <= 0 || p < 0 {
        0
    } else if p <= len - 1 {
        p as usize
    } else {
        (len - 1) as usize
    }
}

/// A fresh anchor opened at `start`.
pub open spec fn new_anchor(start: usize, required: bool) -> AnchorView {
    AnchorView {
        name: Seq::empty(),
        start,
        end: 0,
        index: None,
        defaults: Seq::empty(),
        attributes: Seq::empty(),
        required,
    }
}

/// Resolving the raw attribute segments in order; the first failure wins.
pub open spec fn attrs_parse_from(raw: Seq<RawAttrView>, i: int) -> Result<
    Seq<AttributeView>,
    Seq<char>,
>
    decreases raw.len() - i,
{
    if i < 0 || i >= raw.len() {
        Ok(Seq::empty())
    } else {
        match attr_parse_spec(raw[i].name, raw[i].args) {
            Err(m) => Err(m),
            Ok(a) => match attrs_parse_from(raw, i + 1) {
                Err(m) => Err(m),
                Ok(rest) => Ok(seq![a] + rest),
            },
        }
    }
}

/// One transition of the parser machine on `tokens` from configuration `c`.
pub open spec fn step(tokens: Seq<char>, c: Cfg) -> StepR {
    let len = tokens.len() as int;
    let cur = c.cursor;
    match c.phase {
        Phase::Base => {
            if cur >= len {
                StepR::Done(c.anchors)
            } else if tokens[cur] == ESCAPE {
                if cur + 1 < len {
                    StepR::Next(Cfg { cursor: cur + 2, ..c })
                } else {
                    StepR::Fail(error_view(missing_escapee_msg(), cur as usize, tokens))
                }
            } else if tokens[cur] == ANCHOR_OPEN {
                let required = cur + 1 < len && tokens[cur + 1] == REQUIRED;
                let head = if required {
                    cur + 2
                } else {
                    cur + 1
                };
                let b = new_anchor(cur as usize, required);
                if head < len && tokens[head] == ATTRIBUTE_OPEN {
                    StepR::Next(
                        Cfg {
                            cursor: head + 1,
                            bound: b,
                            phase: Phase::AttrScan { seg_start: head + 1, raw: Seq::empty() },
                            ..c
                        },
                    )
                } else {
                    StepR::Next(Cfg { cursor: head, bound: b, phase: Phase::Body, ..c })
                }
            } else {
                StepR::Next(Cfg { cursor: cur + 1, ..c })
            }
        },
        Phase::Body => {
            if cur >= len {
                StepR::Fail(error_view(unclosed_anchor_msg(), eol_idx(len), tokens))
            } else {
                let t = tokens[cur];
                if t == INDEX_OPEN {
                    if c.bound.name.len() == 0 || cur == 0 || tokens[cur - 1] != c.bound.name.last() {
                        StepR::Fail(
                            error_view(invalid_indexing_operation_msg(), idx_before(cur), tokens),
                        )
                    } else {
                        StepR::Next(
                            Cfg { cursor: cur + 1, phase: Phase::IndexScan { digit_start: cur + 1 }, ..c },
                        )
                    }
                } else if t == ANCHOR_CLOSE {
                    if (c.bound.name.len() == 0 || !spec_name_valid(c.bound.name))
                        && c.bound.defaults.len() == 0 {
                        StepR::Fail(error_view(invalid_anchor_name_msg(), idx_before(cur), tokens))
                    } else {
                        let done = AnchorView { end: (cur + 1) as usize, ..c.bound };
                        StepR::Next(
                            Cfg {
                                cursor: cur + 1,
                                bound: new_anchor(0, false),
                                phase: Phase::Base,
                                anchors: c.anchors.push(done),
                            },
                        )
                    }
                } else if t == DEFAULT_PIPE {
                    if c.bound.name.len() == 0 || cur + 1 >= len || tokens[cur + 1] != DEFAULT_PIPE {
                        StepR::Fail(
                            error_view(invalid_default_value_operation_msg(), cur as usize, tokens),
                        )
                    } else if c.bound.required {
                        StepR::Fail(
                            error_view(default_disallowed_with_required_msg(), cur as usize, tokens),
                        )
                    } else {
                        StepR::Next(Cfg { cursor: cur + 2, phase: Phase::DefaultDispatch, ..c })
                    }
                } else if t == LITERAL_SINGLE_QUOTE || t == LITERAL_DOUBLE_QUOTE {
                    StepR::Next(
                        Cfg {
                            cursor: cur + 1,
                            phase: Phase::LiteralScan { open: t, content_start: cur + 1 },
                            ..c
                        },
                    )
                } else if spec_is_ws(t) {
                    StepR::Next(Cfg { cursor: cur + 1, ..c })
                } else {
                    StepR::Next(
                        Cfg {
                            cursor: cur + 1,
                            bound: AnchorView { name: c.bound.name.push(t), ..c.bound },
                            ..c
                        },
                    )
                }
            }
        },
        Phase::IndexScan { digit_start } => {
            if cur >= len {
                let digits = tokens.subrange(digit_start, len);
                if parse_index_spec(digits) is Some {
                    StepR::Fail(error_view(unclosed_anchor_msg(), eol_idx(len), tokens))
                } else {
                    StepR::Fail(error_view(invalid_index_msg(), idx_before(len - 1), tokens))
                }
            } else if tokens[cur] == INDEX_CLOSE {
                let digits = tokens.subrange(digit_start, cur);
                match parse_index_spec(digits) {
                    Some(v) => StepR::Next(
                        Cfg {
                            cursor: cur + 1,
                            bound: AnchorView { index: Some(v), ..c.bound },
                            phase: Phase::Body,
                            ..c
                        },
                    ),
                    None => StepR::Fail(error_view(invalid_index_msg(), cur as usize, tokens)),
                }
            } else {
                StepR::Next(Cfg { cursor: cur + 1, ..c })
            }
        },
        Phase::DefaultDispatch => {
            if cur >= len {
                StepR::Fail(error_view(default_parsing_eol_msg(), eol_idx(len), tokens))
            } else {
                let t = tokens[cur];
                if spec_is_ws(t) {
                    StepR::Next(Cfg { cursor: cur + 1, ..c })
                } else if t == LITERAL_SINGLE_QUOTE || t == LITERAL_DOUBLE_QUOTE {
                    StepR::Next(
                        Cfg {
                            cursor: cur + 1,
                            phase: Phase::LiteralScan { open: t, content_start: cur + 1 },
                            ..c
                        },
                    )
                } else if spec_ident_char(t) {
                    StepR::Next(
                        Cfg {
                            cursor: cur + 1,
                            phase: Phase::DefaultAnchorScan { dname: seq![t], dindex: None },
                            ..c
                        },
                    )
                } else {
                    StepR::Fail(
                        error_view(default_parsing_disallowed_char_msg(), idx_before(cur), tokens),
                    )
                }
            }
        },
        Phase::LiteralScan { open, content_start } => {
            if cur >= len {
                StepR::Fail(
                    error_view(default_str_literal_missing_closing_quote_msg(), eol_idx(len), tokens),
                )
            } else {
                let t = tokens[cur];
                if t == ESCAPE {
                    if cur + 2 <= len {
                        StepR::Next(Cfg { cursor: cur + 2, ..c })
                    } else {
                        StepR::Fail(
                            error_view(
                                default_str_literal_missing_closing_quote_msg(),
                                eol_idx(len),
                                tokens,
                            ),
                        )
                    }
                } else if t == open {
                    let lit = DefaultValueView::Literal(tokens.subrange(content_start, cur));
                    StepR::Next(
                        Cfg {
                            cursor: cur + 1,
                            bound: AnchorView { defaults: c.bound.defaults.push(lit), ..c.bound },
                            phase: Phase::Body,
                            ..c
                        },
                    )
                } else {
                    StepR::Next(Cfg { cursor: cur + 1, ..c })
                }
            }
        },
        Phase::DefaultAnchorScan { dname, dindex } => {
            if cur >= len {
                StepR::Fail(error_view(default_parsing_eol_msg(), eol_idx(len), tokens))
            } else {
                let t = tokens[cur];
                if dindex is Some || spec_is_ws(t) || t == DEFAULT_PIPE || t == ANCHOR_CLOSE {
                    if !spec_name_valid(dname) {
                        StepR::Fail(error_view(invalid_anchor_name_msg(), idx_before(cur), tokens))
                    } else {
                        let d = DefaultValueView::Anchor { name: dname, index: dindex };
                        StepR::Next(
                            Cfg {
                                bound: AnchorView { defaults: c.bound.defaults.push(d), ..c.bound },
                                phase: Phase::Body,
                                ..c
                            },
                        )
                    }
                } else if t == INDEX_OPEN {
                    StepR::Next(
                        Cfg {
                            cursor: cur + 1,
                            phase: Phase::DefaultAnchorIndex { dname, digit_start: cur + 1 },
                            ..c
                        },
                    )
                } else {
                    StepR::Next(
                        Cfg {
                            cursor: cur + 1,
                            phase: Phase::DefaultAnchorScan { dname: dname.push(t), dindex },
                            ..c
                        },
                    )
                }
            }
        },
        Phase::DefaultAnchorIndex { dname, digit_start } => {
            if cur >= len {
                StepR::Fail(error_view(index_parsing_eol_msg(), eol_idx(len), tokens))
            } else if tokens[cur] == INDEX_CLOSE {
                let digits = tokens.subrange(digit_start, cur);
                match parse_index_spec(digits) {
                    Some(v) => StepR::Next(
                        Cfg {
                            cursor: cur + 1,
                            phase: Phase::DefaultAnchorScan { dname, dindex: Some(v) },
                            ..c
                        },
                    ),
                    None => StepR::Fail(error_view(invalid_index_msg(), idx_before(cur), tokens)),
                }
            } else {
                StepR::Next(Cfg { cursor: cur + 1, ..c })
            }
        },
        Phase::AttrScan { seg_start, raw } => {
            if cur >= len {
                StepR::Fail(error_view(attribute_unclosed_msg(), clamp_idx(seg_start, len), tokens))
            } else {
                let t = tokens[cur];
                if t == ATTRIBUTE_CLOSE {
                    let raw2 = if cur - seg_start > 1 {
                        raw.push(RawAttrView { name: tokens.subrange(seg_start, cur), args: None })
                    } else {
                        raw
                    };
                    StepR::Next(Cfg { cursor: cur + 1, phase: Phase::AttrEnd { raw: raw2 }, ..c })
                } else if t == ATTRIBUTE_DELIMETER || t == PARAM_OPEN {
                    if cur - seg_start <= 1 {
                        StepR::Next(
                            Cfg { cursor: cur + 1, phase: Phase::AttrScan { seg_start: cur + 1, raw }, ..c },
                        )
                    } else if t == ATTRIBUTE_DELIMETER {
                        let raw2 = raw.push(
                            RawAttrView { name: tokens.subrange(seg_start, cur), args: None },
                        );
                        StepR::Next(
                            Cfg {
                                cursor: cur + 1,
                                phase: Phase::AttrScan { seg_start: cur + 1, raw: raw2 },
                                ..c
                            },
                        )
                    } else {
                        StepR::Next(
                            Cfg {
                                cursor: cur + 1,
                                phase: Phase::AttrParamScan {
                                    aname: tokens.subrange(seg_start, cur),
                                    param_start: cur + 1,
                                    open_quote: None,
                                    raw,
                                },
                                ..c
                            },
                        )
                    }
                } else {
                    StepR::Next(Cfg { cursor: cur + 1, ..c })
                }
            }
        },
        Phase::AttrParamScan { aname, param_start, open_quote, raw } => {
            if cur >= len {
                StepR::Fail(error_view(attribute_unclosed_msg(), clamp_idx(param_start, len), tokens))
            } else {
                let t = tokens[cur];
                if t == PARAM_CLOSE && open_quote is None {
                    let raw2 = raw.push(
                        RawAttrView { name: aname, args: Some(tokens.subrange(param_start, cur)) },
                    );
                    StepR::Next(
                        Cfg { cursor: cur + 1, phase: Phase::AttrScan { seg_start: cur, raw: raw2 }, ..c },
                    )
                } else if t == ESCAPE {
                    if cur + 2 <= len {
                        StepR::Next(Cfg { cursor: cur + 2, ..c })
                    } else {
                        StepR::Fail(
                            error_view(attribute_unclosed_msg(), clamp_idx(param_start, len), tokens),
                        )
                    }
                } else if t == LITERAL_SINGLE_QUOTE || t == LITERAL_DOUBLE_QUOTE {
                    match open_quote {
                        None => StepR::Next(
                            Cfg {
                                cursor: cur + 1,
                                phase: Phase::AttrParamScan {
                                    aname,
                                    param_start,
                                    open_quote: Some(t),
                                    raw,
                                },
                                ..c
                            },
                        ),
                        Some(q) => {
                            if t == q {
                                StepR::Next(
                                    Cfg {
                                        cursor: cur + 1,
                                        phase: Phase::AttrParamScan {
                                            aname,
                                            param_start,
                                            open_quote: None,
                                            raw,
                                        },
                                        ..c
                                    },
                                )
                            } else {
                                StepR::Fail(
                                    error_view(
                                        string_parameter_missing_closing_quote_msg(),
                                        clamp_idx(param_start, len),
                                        tokens,
                                    ),
                                )
                            }
                        },
                    }
                } else {
                    StepR::Next(Cfg { cursor: cur + 1, ..c })
                }
            }
        },
        Phase::AttrEnd { raw } => {
            if cur >= len || tokens[cur] != ATTRIBUTE_END {
                StepR::Fail(error_view(attribute_end_msg(), idx_before(cur), tokens))
            } else {
                match attrs_parse_from(raw, 0) {
                    Err(m) => StepR::Fail(error_view(m, cur as usize, tokens)),
                    Ok(attrs) => StepR::Next(
                        Cfg {
                            cursor: cur + 1,
                            bound: AnchorView { attributes: partition_aligns(attrs), ..c.bound },
                            phase: Phase::Body,
                            ..c
                        },
                    ),
                }
            }
        },
    }
}

/// The phase rank orders the one transition that does not advance the
/// cursor (finishing a default anchor hands its delimiter back to the body).
pub open spec fn rank(p: Phase) -> nat {
    match p {
        Phase::DefaultAnchorScan { .. } => 1nat,
        _ => 0nat,
    }
}

/// The termination measure: twice the remaining input plus the phase rank.
pub open spec fn measure(len: int, c: Cfg) -> nat {
    (if 0 <= c.cursor && c.cursor <= len {
        ((len - c.cursor) * 2) as nat
    } else {
        0nat
    }) + rank(c.phase)
}

/// Running the machine from `c` to completion. Every reachable transition
/// strictly decreases [`measure`], which the executable parser proves step
/// by step; the guard only serves the termination checker.
pub open spec fn run(tokens: Seq<char>, c: Cfg) -> Result<Seq<AnchorView>, ParseErrorView>
    decreases measure(tokens.len() as int, c),
{
    match step(tokens, c) {
        StepR::Done(anchors) => Ok(anchors),
        StepR::Fail(e) => Err(e),
        StepR::Next(c2) => {
            if measure(tokens.len() as int, c2) < measure(tokens.len() as int, c) {
                run(tokens, c2)
            } else {
                Err(error_view(unclosed_anchor_msg(), 0, tokens))
            }
        },
    }
}

/// The initial configuration on a template.
pub open spec fn init_cfg() -> Cfg {
    Cfg { cursor: 0, bound: new_anchor(0, false), phase: Phase::Base, anchors: Seq::empty() }
}

/// What parsing a template denotes: the anchors of the template in order of
/// appearance, or the first fatal syntax violation.
pub open spec fn parse_spec(template: Seq<char>) -> Result<Seq<AnchorView>, ParseErrorView> {
    run(template, init_cfg())
}

/// Whether an executable parse result denotes the specified result.
pub open spec fn parse_result_matches(
    r: Result<Vec<Anchor>, ParseError>,
    s: Result<Seq<AnchorView>, ParseErrorView>,
) -> bool {
    match r {
        Ok(v) => s is Ok && anchors_view(v@) == s->Ok_0,
        Err(e) => s is Err && e@ == s->Err_0,
    }
}

} // verus!

verus! {

fn eol_idx_x(len: usize) -> (r: usize)
    ensures
        r == eol_idx(len as int),
{
    if len >= 1 {
        len - 1
    } else {
        0
    }
}

fn idx_before_x(cursor: usize) -> (r: usize)
    ensures
        r == idx_before(cursor as int),
{
    if cursor >= 1 {
        cursor - 1
    } else {
        0
    }
}

fn clamp_idx_x(p: usize, len: usize) -> (r: usize)
    ensures
        r == clamp_idx(p as int, len as int),
{
    if len == 0 {
        0
    } else if p <= len - 1 {
        p
    } else {
        len - 1
    }
}

fn empty_anchor() -> (a: Anchor)
    ensures
        a@ == new_anchor(0, false),
{
    let a = Anchor {
        name: String::new(),
        start: 0,
        end: 0,
        index: None,
        defaults: Vec::new(),
        attributes: Vec::new(),
        required: false,
    };
    proof {
        assert(a@ =~= new_anchor(0, false));
    }
    a
}

/// The parsing mode the executable machine is in; its view is the [`Phase`].
pub enum Mode {
    Base,
    Body,
    IndexScan { digit_start: usize },
    DefaultDispatch,
    LiteralScan { open: char, content_start: usize },
    DefaultAnchorScan { dname: String, dindex: Option<usize> },
    DefaultAnchorIndex { dname: String, digit_start: usize },
    AttrScan { seg_start: usize, raw: Vec<RawAttr> },
    AttrParamScan { aname: String, param_start: usize, open_quote: Option<char>, raw: Vec<RawAttr> },
    AttrEnd { raw: Vec<RawAttr> },
}

impl View for Mode {
    type V = Phase;

    open spec fn view(&self) -> Phase {
        match self {
            Mode::Base => Phase::Base,
            Mode::Body => Phase::Body,
            Mode::IndexScan { digit_start } => Phase::IndexScan { digit_start: *digit_start as int },
            Mode::DefaultDispatch => Phase::DefaultDispatch,
            Mode::LiteralScan { open, content_start } => Phase::LiteralScan {
                open: *open,
                content_start: *content_start as int,
            },
            Mode::DefaultAnchorScan { dname, dindex } => Phase::DefaultAnchorScan {
                dname: dname@,
                dindex: *dindex,
            },
            Mode::DefaultAnchorIndex { dname, digit_start } => Phase::DefaultAnchorIndex {
                dname: dname@,
                digit_start: *digit_start as int,
            },
            Mode::AttrScan { seg_start, raw } => Phase::AttrScan {
                seg_start: *seg_start as int,
                raw: raws_view(raw@),
            },
            Mode::AttrParamScan { aname, param_start, open_quote, raw } => Phase::AttrParamScan {
                aname: aname@,
                param_start: *param_start as int,
                open_quote: *open_quote,
                raw: raws_view(raw@),
            },
            Mode::AttrEnd { raw } => Phase::AttrEnd { raw: raws_view(raw@) },
        }
    }
}

/// Composing already-resolved attributes with the outcome for the rest.
pub open spec fn compose_attrs(
    pre: Seq<AttributeView>,
    rest: Result<Seq<AttributeView>, Seq<char>>,
) -> Result<Seq<AttributeView>, Seq<char>> {
    match rest {
        Ok(r) => Ok(pre + r),
        Err(m) => Err(m),
    }
}

/// Resolves the raw attribute segments in order; the first failure wins.
fn parse_raw_attrs(raw: &Vec<RawAttr>) -> (r: Result<Vec<Attribute>, AttrError>)
    ensures
        match r {
            Ok(v) => attrs_parse_from(raws_view(raw@), 0) == Ok::<Seq<AttributeView>, Seq<char>>(
                attrs_view(v@),
            ),
            Err(e) => attrs_parse_from(raws_view(raw@), 0) == Err::<Seq<AttributeView>, Seq<char>>(
                e@,
            ),
        },
{
    let ghost rv = raws_view(raw@);
    let mut built: Vec<Attribute> = Vec::new();
    let mut i: usize = 0;
    proof {
        assert(attrs_view(built@) =~= Seq::<AttributeView>::empty());
    }
    while i < raw.len()
        invariant
            0 <= i <= rv.len(),
            rv == raws_view(raw@),
            rv.len() == raw@.len(),
            attrs_parse_from(rv, 0) == compose_attrs(
                attrs_view(built@),
                attrs_parse_from(rv, i as int),
            ),
        decreases raw@.len() - i,
    {
        let a = &raw[i];
        proof {
            assert(a@ == rv[i as int]);
        }
        let name = a.name.clone();
        let args: Option<String> = match &a.args {
            Some(s) => Some(s.clone()),
            None => None,
        };
        let ghost argsv = match &args {
            Some(s) => Some(s@),
            None => None::<Seq<char>>,
        };
        proof {
            assert(name@ == rv[i as int].name);
            assert(argsv == rv[i as int].args);
        }
        let parsed = Attribute::parse(name, args);
        match parsed {
            Err(e) => {
                proof {
                    assert(attrs_parse_from(rv, i as int) == Err::<Seq<AttributeView>, Seq<char>>(
                        e@,
                    ));
                }
                return Err(e);
            },
            Ok(at) => {
                let ghost atv = at@;
                let ghost old_built = attrs_view(built@);
                built.push(at);
                proof {
                    assert(attrs_view(built@) =~= old_built.push(atv));
                    assert(attrs_parse_from(rv, i as int) == match attrs_parse_from(rv, i + 1) {
                        Err(m) => Err::<Seq<AttributeView>, Seq<char>>(m),
                        Ok(rest) => Ok(seq![atv] + rest),
                    });
                    match attrs_parse_from(rv, i + 1) {
                        Err(m) => {
                        },
                        Ok(rest) => {
                            assert(old_built + (seq![atv] + rest) =~= old_built.push(atv) + rest);
                        },
                    }
                }
                i += 1;
            },
        }
    }
    proof {
        assert(attrs_parse_from(rv, i as int) == Ok::<Seq<AttributeView>, Seq<char>>(Seq::empty()));
        assert(attrs_view(built@) + Seq::<AttributeView>::empty() =~= attrs_view(built@));
    }
    Ok(built)
}

fn is_align_x(k: &AttributeKind) -> (r: bool)
    ensures
        r == is_align(*k),
{
    match k {
        AttributeKind::Align { .. } => true,
        _ => false,
    }
}

/// Reorders the attribute list so alignment attributes come first, keeping
/// the relative order within each group (a stable partition).
fn partition_attrs(attrs: Vec<Attribute>) -> (r: Vec<Attribute>)
    ensures
        attrs_view(r@) == partition_aligns(attrs_view(attrs@)),
{
    let ghost orig = attrs_view(attrs@);
    let mut work = attrs;
    let mut aligns: Vec<Attribute> = Vec::new();
    let mut others: Vec<Attribute> = Vec::new();
    let ghost mut i: int = 0;
    proof {
        assert(raws_view(Seq::empty()) =~= Seq::<RawAttrView>::empty());
        assert(attrs_view(work@).skip(0) =~= orig.skip(0));
        assert(orig.skip(0) =~= orig);
        assert(attrs_view(aligns@) =~= Seq::<AttributeView>::empty());
        assert(attrs_view(others@) =~= Seq::<AttributeView>::empty());
    }
    while work.len() > 0
        invariant
            0 <= i <= orig.len(),
            attrs_view(work@) == orig.skip(i),
            select_aligns(orig, true, 0) == attrs_view(aligns@) + select_aligns(orig, true, i),
            select_aligns(orig, false, 0) == attrs_view(others@) + select_aligns(orig, false, i),
        decreases work@.len(),
    {
        let ghost old_work = attrs_view(work@);
        proof {
            assert(old_work.len() == work@.len());
            assert(orig.skip(i).len() == orig.len() - i);
            assert(i < orig.len());
        }
        let a = work.remove(0);
        proof {
            assert(a@ == orig.skip(i)[0]);
            assert(orig.skip(i)[0] == orig[i]);
            assert(attrs_view(work@) =~= old_work.drop_first());
            assert(old_work.drop_first() =~= orig.skip(i + 1));
        }
        let ghost av = a@;
        if is_align_x(&a.kind) {
            let ghost old_al = attrs_view(aligns@);
            aligns.push(a);
            proof {
                assert(attrs_view(aligns@) =~= old_al.push(av));
                assert(select_aligns(orig, true, i) == seq![orig[i]] + select_aligns(orig, true, i + 1));
                assert(old_al + (seq![av] + select_aligns(orig, true, i + 1)) =~= old_al.push(av)
                    + select_aligns(orig, true, i + 1));
                assert(select_aligns(orig, false, i) == select_aligns(orig, false, i + 1));
                i = i + 1;
            }
        } else {
            let ghost old_ot = attrs_view(others@);
            others.push(a);
            proof {
                assert(attrs_view(others@) =~= old_ot.push(av));
                assert(select_aligns(orig, false, i) == seq![orig[i]] + select_aligns(
                    orig,
                    false,
                    i + 1,
                ));
                assert(old_ot + (seq![av] + select_aligns(orig, false, i + 1)) =~= old_ot.push(av)
                    + select_aligns(orig, false, i + 1));
                assert(select_aligns(orig, true, i) == select_aligns(orig, true, i + 1));
                i = i + 1;
            }
        }
    }
    proof {
        assert(select_aligns(orig, true, i) =~= Seq::<AttributeView>::empty());
        assert(select_aligns(orig, false, i) =~= Seq::<AttributeView>::empty());
        assert(select_aligns(orig, true, 0) =~= attrs_view(aligns@));
        assert(select_aligns(orig, false, 0) =~= attrs_view(others@));
    }
    let mut out = aligns;
    while others.len() > 0
        invariant
            attrs_view(out@) + attrs_view(others@) == partition_aligns(orig),
        decreases others@.len(),
    {
        let ghost old_ot = attrs_view(others@);
        let ghost old_out = attrs_view(out@);
        let a = others.remove(0);
        let ghost av = a@;
        out.push(a);
        proof {
            assert(attrs_view(others@) =~= old_ot.drop_first());
            assert(attrs_view(out@) =~= old_out.push(av));
            assert(av == old_ot[0]);
            assert(old_out.push(av) + old_ot.drop_first() =~= old_out + old_ot);
        }
    }
    proof {
        assert(attrs_view(out@) + attrs_view(others@) =~= attrs_view(out@));
    }
    out
}

} // verus!

verus! {

/// Positions carried by a phase never run ahead of the cursor.
pub open spec fn phase_wf(p: Phase, cursor: int) -> bool {
    match p {
        Phase::IndexScan { digit_start } => 0 <= digit_start <= cursor,
        Phase::LiteralScan { content_start, .. } => 0 <= content_start <= cursor,
        Phase::DefaultAnchorIndex { digit_start, .. } => 0 <= digit_start <= cursor,
        Phase::AttrScan { seg_start, .. } => 0 <= seg_start <= cursor,
        Phase::AttrParamScan { param_start, .. } => 0 <= param_start <= cursor,
        _ => true,
    }
}

/// The advance lemma: a transition that steps to `post` and decreases the
/// measure carries the run outcome over.
proof fn lemma_advance(t: Seq<char>, pre: Cfg, post: Cfg)
    requires
        step(t, pre) == StepR::Next(post),
        measure(t.len() as int, post) < measure(t.len() as int, pre),
    ensures
        run(t, pre) == run(t, post),
{
}

/// Parses a template string into its ordered list of anchors. Returns
/// exactly what [`parse_spec`] prescribes: the anchors of the template with
/// their names, spans, indexes, defaults and attributes, or the first fatal
/// syntax violation with its message and character index.
pub fn parse(template: &str) -> (r: Result<Vec<Anchor>, ParseError>)
    ensures
        parse_result_matches(r, parse_spec(template@)),
{
    let tokens = str_to_chars(template);
    let len = tokens.len();
    let mut cursor: usize = 0;
    let mut bound = empty_anchor();
    let mut mode = Mode::Base;
    let mut anchors: Vec<Anchor> = Vec::new();
    proof {
        assert(anchors_view(anchors@) =~= Seq::<AnchorView>::empty());
        assert(Cfg {
            cursor: 0,
            bound: bound@,
            phase: mode@,
            anchors: anchors_view(anchors@),
        } =~= init_cfg());
    }
    loop
        invariant
            tokens@ == template@,
            len == tokens@.len(),
            cursor <= len,
            phase_wf(mode@, cursor as int),
            run(template@, init_cfg()) == run(
                template@,
                Cfg {
                    cursor: cursor as int,
                    bound: bound@,
                    phase: mode@,
                    anchors: anchors_view(anchors@),
                },
            ),
        decreases measure(
            len as int,
            Cfg {
                cursor: cursor as int,
                bound: bound@,
                phase: mode@,
                anchors: anchors_view(anchors@),
            },
        ),
    {
        let ghost pre = Cfg {
            cursor: cursor as int,
            bound: bound@,
            phase: mode@,
            anchors: anchors_view(anchors@),
        };
        match mode {
            Mode::Base => {
                if cursor >= len {
                    proof {
                        assert(step(template@, pre) == StepR::Done(pre.anchors));
                    }
                    return Ok(anchors);
                }
                let t = tokens[cursor];
                if t == ESCAPE {
                    if cursor + 1 < len {
                        cursor = cursor + 2;
                        mode = Mode::Base;
                    } else {
                        let e = ParseError::missing_escapee(cursor, tokens.as_slice());
                        proof {
                            assert(step(template@, pre) == StepR::Fail(e@));
                        }
                        return Err(e);
                    }
                } else if t == ANCHOR_OPEN {
                    let required = cursor + 1 < len && tokens[cursor + 1] == REQUIRED;
                    let head: usize = if required {
                        cursor + 2
                    } else {
                        cursor + 1
                    };
                    bound = empty_anchor();
                    bound.start = cursor;
                    bound.required = required;
                    proof {
                        assert(bound@ =~= new_anchor(cursor as usize, required));
                    }
                    if head < len && tokens[head] == ATTRIBUTE_OPEN {
                        cursor = head + 1;
                        mode = Mode::AttrScan { seg_start: head + 1, raw: Vec::new() };
                        proof {
                            assert(raws_view(Seq::<RawAttr>::empty()) =~= Seq::<RawAttrView>::empty());
                        }
                    } else {
                        cursor = head;
                        mode = Mode::Body;
                    }
                } else {
                    cursor = cursor + 1;
                    mode = Mode::Base;
                }
            },
            Mode::Body => {
                if cursor >= len {
                    let e = ParseError::unclosed_anchor(eol_idx_x(len), tokens.as_slice());
                    proof {
                        assert(step(template@, pre) == StepR::Fail(e@));
                    }
                    return Err(e);
                }
                let t = tokens[cursor];
                if t == INDEX_OPEN {
                    let name_ok = !bound.name.as_str().is_empty() && cursor >= 1 && {
                        let nchars = bound.name.as_str().unicode_len();
                        bound.name.as_str().get_char(nchars - 1) == tokens[cursor - 1]
                    };
                    if !name_ok {
                        let e = ParseError::invalid_indexing_operation(
                            idx_before_x(cursor),
                            tokens.as_slice(),
                        );
                        proof {
                            assert(step(template@, pre) == StepR::Fail(e@));
                        }
                        return Err(e);
                    }
                    cursor = cursor + 1;
                    mode = Mode::IndexScan { digit_start: cursor };
                } else if t == ANCHOR_CLOSE {
                    let name_bad = bound.name.as_str().is_empty() || !name_valid_x(&bound.name);
                    if name_bad && bound.defaults.len() == 0 {
                        let e = ParseError::invalid_anchor_name(
                            idx_before_x(cursor),
                            tokens.as_slice(),
                        );
                        proof {
                            assert(step(template@, pre) == StepR::Fail(e@));
                        }
                        return Err(e);
                    }
                    bound.end = cursor + 1;
                    let ghost donev = bound@;
                    let ghost old_anchors = anchors_view(anchors@);
                    anchors.push(bound);
                    bound = empty_anchor();
                    cursor = cursor + 1;
                    mode = Mode::Base;
                    proof {
                        assert(anchors_view(anchors@) =~= old_anchors.push(donev));
                        assert(donev =~= AnchorView { end: cursor as usize, ..pre.bound });
                    }
                } else if t == DEFAULT_PIPE {
                    let pair_ok = !bound.name.as_str().is_empty() && cursor + 1 < len
                        && tokens[cursor + 1] == DEFAULT_PIPE;
                    if !pair_ok {
                        let e = ParseError::invalid_default_value_operation(
                            cursor,
                            tokens.as_slice(),
                        );
                        proof {
                            assert(step(template@, pre) == StepR::Fail(e@));
                        }
                        return Err(e);
                    }
                    if bound.required {
                        let e = ParseError::default_disallowed_with_required(
                            cursor,
                            tokens.as_slice(),
                        );
                        proof {
                            assert(step(template@, pre) == StepR::Fail(e@));
                        }
                        return Err(e);
                    }
                    cursor = cursor + 2;
                    mode = Mode::DefaultDispatch;
                } else if t == LITERAL_SINGLE_QUOTE || t == LITERAL_DOUBLE_QUOTE {
                    cursor = cursor + 1;
                    mode = Mode::LiteralScan { open: t, content_start: cursor };
                } else if is_ws(t) {
                    cursor = cursor + 1;
                    mode = Mode::Body;
                } else {
                    push_char(&mut bound.name, t);
                    cursor = cursor + 1;
                    mode = Mode::Body;
                    proof {
                        assert(bound@ =~= AnchorView { name: pre.bound.name.push(t), ..pre.bound });
                    }
                }
            },
            Mode::IndexScan { digit_start } => {
                if cursor >= len {
                    let digits = char_range(&tokens, digit_start, len);
                    let e = match parse_index(&digits) {
                        Some(_) => ParseError::unclosed_anchor(eol_idx_x(len), tokens.as_slice()),
                        None => ParseError::invalid_index(
                            idx_before_x(eol_idx_x(len)),
                            tokens.as_slice(),
                        ),
                    };
                    proof {
                        assert(idx_before(eol_idx(len as int) as int) == idx_before(len as int - 1));
                        assert(step(template@, pre) == StepR::Fail(e@));
                    }
                    return Err(e);
                }
                if tokens[cursor] == INDEX_CLOSE {
                    let digits = char_range(&tokens, digit_start, cursor);
                    match parse_index(&digits) {
                        Some(v) => {
                            bound.index = Some(v);
                            cursor = cursor + 1;
                            mode = Mode::Body;
                            proof {
                                assert(bound@ =~= AnchorView { index: Some(v), ..pre.bound });
                            }
                        },
                        None => {
                            let e = ParseError::invalid_index(cursor, tokens.as_slice());
                            proof {
                                assert(step(template@, pre) == StepR::Fail(e@));
                            }
                            return Err(e);
                        },
                    }
                } else {
                    cursor = cursor + 1;
                    mode = Mode::IndexScan { digit_start };
                }
            },
            Mode::DefaultDispatch => {
                if cursor >= len {
                    let e = ParseError::default_parsing_eol(eol_idx_x(len), tokens.as_slice());
                    proof {
                        assert(step(template@, pre) == StepR::Fail(e@));
                    }
                    return Err(e);
                }
                let t = tokens[cursor];
                if is_ws(t) {
                    cursor = cursor + 1;
                    mode = Mode::DefaultDispatch;
                } else if t == LITERAL_SINGLE_QUOTE || t == LITERAL_DOUBLE_QUOTE {
                    cursor = cursor + 1;
                    mode = Mode::LiteralScan { open: t, content_start: cursor };
                } else if ident_char(t) {
                    let mut dname = String::new();
                    push_char(&mut dname, t);
                    cursor = cursor + 1;
                    mode = Mode::DefaultAnchorScan { dname, dindex: None };
                    proof {
                        assert(Seq::<char>::empty().push(t) =~= seq![t]);
                    }
                } else {
                    let e = ParseError::default_parsing_disallowed_char(
                        idx_before_x(cursor),
                        tokens.as_slice(),
                    );
                    proof {
                        assert(step(template@, pre) == StepR::Fail(e@));
                    }
                    return Err(e);
                }
            },
            Mode::LiteralScan { open, content_start } => {
                if cursor >= len {
                    let e = ParseError::default_str_literal_missing_closing_quote(
                        eol_idx_x(len),
                        tokens.as_slice(),
                    );
                    proof {
                        assert(step(template@, pre) == StepR::Fail(e@));
                    }
                    return Err(e);
                }
                let t = tokens[cursor];
                if t == ESCAPE {
                    if cursor + 1 < len {
                        cursor = cursor + 2;
                        mode = Mode::LiteralScan { open, content_start };
                    } else {
                        let e = ParseError::default_str_literal_missing_closing_quote(
                            eol_idx_x(len),
                            tokens.as_slice(),
                        );
                        proof {
                            assert(step(template@, pre) == StepR::Fail(e@));
                        }
                        return Err(e);
                    }
                } else if t == open {
                    let lit = string_from_range(&tokens, content_start, cursor);
                    bound.defaults.push(DefaultValue::Literal(lit));
                    cursor = cursor + 1;
                    mode = Mode::Body;
                    proof {
                        assert(bound@.defaults =~= pre.bound.defaults.push(
                            DefaultValueView::Literal(
                                template@.subrange(content_start as int, (cursor - 1) as int),
                            ),
                        ));
                        assert(bound@ =~= AnchorView {
                            defaults: pre.bound.defaults.push(
                                DefaultValueView::Literal(
                                    template@.subrange(content_start as int, (cursor - 1) as int),
                                ),
                            ),
                            ..pre.bound
                        });
                    }
                } else {
                    cursor = cursor + 1;
                    mode = Mode::LiteralScan { open, content_start };
                }
            },
            Mode::DefaultAnchorScan { dname, dindex } => {
                if cursor >= len {
                    let e = ParseError::default_parsing_eol(eol_idx_x(len), tokens.as_slice());
                    proof {
                        assert(step(template@, pre) == StepR::Fail(e@));
                    }
                    return Err(e);
                }
                let t = tokens[cursor];
                if dindex.is_some() || is_ws(t) || t == DEFAULT_PIPE || t == ANCHOR_CLOSE {
                    if !name_valid_x(&dname) {
                        let e = ParseError::invalid_anchor_name(
                            idx_before_x(cursor),
                            tokens.as_slice(),
                        );
                        proof {
                            assert(step(template@, pre) == StepR::Fail(e@));
                        }
                        return Err(e);
                    }
                    let ghost dnv = dname@;
                    bound.defaults.push(DefaultValue::Anchor { name: dname, index: dindex });
                    mode = Mode::Body;
                    proof {
                        assert(bound@.defaults =~= pre.bound.defaults.push(
                            DefaultValueView::Anchor { name: dnv, index: dindex },
                        ));
                        assert(bound@ =~= AnchorView {
                            defaults: pre.bound.defaults.push(
                                DefaultValueView::Anchor { name: dnv, index: dindex },
                            ),
                            ..pre.bound
                        });
                    }
                } else if t == INDEX_OPEN && dindex.is_none() {
                    cursor = cursor + 1;
                    mode = Mode::DefaultAnchorIndex { dname, digit_start: cursor };
                } else {
                    let mut dn = dname;
                    let ghost dnv = dn@;
                    push_char(&mut dn, t);
                    cursor = cursor + 1;
                    mode = Mode::DefaultAnchorScan { dname: dn, dindex };
                }
            },
            Mode::DefaultAnchorIndex { dname, digit_start } => {
                if cursor >= len {
                    let e = ParseError::index_parsing_eol(eol_idx_x(len), tokens.as_slice());
                    proof {
                        assert(step(template@, pre) == StepR::Fail(e@));
                    }
                    return Err(e);
                }
                if tokens[cursor] == INDEX_CLOSE {
                    let digits = char_range(&tokens, digit_start, cursor);
                    match parse_index(&digits) {
                        Some(v) => {
                            cursor = cursor + 1;
                            mode = Mode::DefaultAnchorScan { dname, dindex: Some(v) };
                        },
                        None => {
                            let e = ParseError::invalid_index(
                                idx_before_x(cursor),
                                tokens.as_slice(),
                            );
                            proof {
                                assert(step(template@, pre) == StepR::Fail(e@));
                            }
                            return Err(e);
                        },
                    }
                } else {
                    cursor = cursor + 1;
                    mode = Mode::DefaultAnchorIndex { dname, digit_start };
                }
            },
            Mode::AttrScan { seg_start, raw } => {
                if cursor >= len {
                    let e = ParseError::attribute_unclosed(
                        clamp_idx_x(seg_start, len),
                        tokens.as_slice(),
                    );
                    proof {
                        assert(step(template@, pre) == StepR::Fail(e@));
                    }
                    return Err(e);
                }
                let t = tokens[cursor];
                if t == ATTRIBUTE_CLOSE {
                    let mut raw2 = raw;
                    if cursor - seg_start > 1 {
                        let nm = string_from_range(&tokens, seg_start, cursor);
                        let ghost old_raw = raws_view(raw2@);
                        raw2.push(RawAttr { name: nm, args: None });
                        proof {
                            assert(raws_view(raw2@) =~= old_raw.push(
                                RawAttrView {
                                    name: template@.subrange(seg_start as int, cursor as int),
                                    args: None,
                                },
                            ));
                        }
                    }
                    cursor = cursor + 1;
                    mode = Mode::AttrEnd { raw: raw2 };
                } else if t == ATTRIBUTE_DELIMETER || t == PARAM_OPEN {
                    if cursor - seg_start <= 1 {
                        cursor = cursor + 1;
                        mode = Mode::AttrScan { seg_start: cursor, raw };
                    } else if t == ATTRIBUTE_DELIMETER {
                        let nm = string_from_range(&tokens, seg_start, cursor);
                        let mut raw2 = raw;
                        let ghost old_raw = raws_view(raw2@);
                        raw2.push(RawAttr { name: nm, args: None });
                        proof {
                            assert(raws_view(raw2@) =~= old_raw.push(
                                RawAttrView {
                                    name: template@.subrange(seg_start as int, cursor as int),
                                    args: None,
                                },
                            ));
                        }
                        cursor = cursor + 1;
                        mode = Mode::AttrScan { seg_start: cursor, raw: raw2 };
                    } else {
                        let nm = string_from_range(&tokens, seg_start, cursor);
                        cursor = cursor + 1;
                        mode = Mode::AttrParamScan {
                            aname: nm,
                            param_start: cursor,
                            open_quote: None,
                            raw,
                        };
                    }
                } else {
                    cursor = cursor + 1;
                    mode = Mode::AttrScan { seg_start, raw };
                }
            },
            Mode::AttrParamScan { aname, param_start, open_quote, raw } => {
                if cursor >= len {
                    let e = ParseError::attribute_unclosed(
                        clamp_idx_x(param_start, len),
                        tokens.as_slice(),
                    );
                    proof {
                        assert(step(template@, pre) == StepR::Fail(e@));
                    }
                    return Err(e);
                }
                let t = tokens[cursor];
                if t == PARAM_CLOSE && open_quote.is_none() {
                    let args = string_from_range(&tokens, param_start, cursor);
                    let mut raw2 = raw;
                    let ghost old_raw = raws_view(raw2@);
                    let ghost anv = aname@;
                    raw2.push(RawAttr { name: aname, args: Some(args) });
                    proof {
                        assert(raws_view(raw2@) =~= old_raw.push(
                            RawAttrView {
                                name: anv,
                                args: Some(template@.subrange(param_start as int, cursor as int)),
                            },
                        ));
                    }
                    let seg = cursor;
                    cursor = cursor + 1;
                    mode = Mode::AttrScan { seg_start: seg, raw: raw2 };
                } else if t == ESCAPE {
                    if cursor + 1 < len {
                        cursor = cursor + 2;
                        mode = Mode::AttrParamScan { aname, param_start, open_quote, raw };
                    } else {
                        let e = ParseError::attribute_unclosed(
                            clamp_idx_x(param_start, len),
                            tokens.as_slice(),
                        );
                        proof {
                            assert(step(template@, pre) == StepR::Fail(e@));
                        }
                        return Err(e);
                    }
                } else if t == LITERAL_SINGLE_QUOTE || t == LITERAL_DOUBLE_QUOTE {
                    match open_quote {
                        None => {
                            cursor = cursor + 1;
                            mode = Mode::AttrParamScan {
                                aname,
                                param_start,
                                open_quote: Some(t),
                                raw,
                            };
                        },
                        Some(q) => {
                            if t == q {
                                cursor = cursor + 1;
                                mode = Mode::AttrParamScan {
                                    aname,
                                    param_start,
                                    open_quote: None,
                                    raw,
                                };
                            } else {
                                let e = ParseError::string_parameter_missing_closing_quote(
                                    clamp_idx_x(param_start, len),
                                    tokens.as_slice(),
                                );
                                proof {
                                    assert(step(template@, pre) == StepR::Fail(e@));
                                }
                                return Err(e);
                            }
                        },
                    }
                } else {
                    cursor = cursor + 1;
                    mode = Mode::AttrParamScan { aname, param_start, open_quote, raw };
                }
            },
            Mode::AttrEnd { raw } => {
                if cursor >= len || tokens[cursor] != ATTRIBUTE_END {
                    let e = ParseError::attribute_end(idx_before_x(cursor), tokens.as_slice());
                    proof {
                        assert(step(template@, pre) == StepR::Fail(e@));
                    }
                    return Err(e);
                }
                match parse_raw_attrs(&raw) {
                    Err(ae) => {
                        let e = ParseError::invalid_attribute(
                            cursor,
                            tokens.as_slice(),
                            ae.into_message(),
                        );
                        proof {
                            assert(step(template@, pre) == StepR::Fail(e@));
                        }
                        return Err(e);
                    },
                    Ok(attrs) => {
                        let sorted = partition_attrs(attrs);
                        let ghost sortedv = attrs_view(sorted@);
                        bound.attributes = sorted;
                        cursor = cursor + 1;
                        mode = Mode::Body;
                        proof {
                            assert(bound@ =~= AnchorView { attributes: sortedv, ..pre.bound });
                        }
                    },
                }
            },
        }
        proof {
            let post = Cfg {
                cursor: cursor as int,
                bound: bound@,
                phase: mode@,
                anchors: anchors_view(anchors@),
            };
            assert(step(template@, pre) == StepR::Next(post));
            assert(measure(len as int, post) < measure(len as int, pre));
            lemma_advance(template@, pre, post);
        }
    }
}

/// The characters `v[a..b]` as a fresh vector.
fn char_range(v: &Vec<char>, a: usize, b: usize) -> (r: Vec<char>)
    requires
        a <= b <= v@.len(),
    ensures
        r@ == v@.subrange(a as int, b as int),
{
    let mut r: Vec<char> = Vec::new();
    let mut i: usize = a;
    while i < b
        invariant
            a <= i <= b <= v@.len(),
            r@ == v@.subrange(a as int, i as int),
        decreases b - i,
    {
        r.push(v[i]);
        proof {
            assert(r@ =~= v@.subrange(a as int, i + 1));
        }
        i += 1;
    }
    r
}

/// Whether `name` is a valid anchor name.
fn name_valid_x(name: &String) -> (r: bool)
    ensures
        r == spec_name_valid(name@),
{
    crate::charset::Rules::new().name_is_valid(name.as_str())
}

} // verus!

verus! {

/// The end of the last finished anchor.
pub open spec fn last_end(anchors: Seq<AnchorView>) -> int {
    if anchors.len() == 0 {
        0
    } else {
        anchors.last().end as int
    }
}

/// Alignment attributes form a prefix of the list: whenever a later entry is
/// an alignment, every earlier entry is one too.
pub open spec fn align_first(attrs: Seq<AttributeView>) -> bool {
    forall|i: int, j: int|
        0 <= i < j < attrs.len() && is_align(attrs[j].kind) ==> is_align(attrs[i].kind)
}

/// The anchor list is well formed for a template of length `len`: spans are
/// within bounds, non-empty, in ascending order without overlap, and every
/// attribute list has its alignments first.
pub open spec fn anchors_wf(anchors: Seq<AnchorView>, len: int) -> bool {
    &&& forall|i: int|
        0 <= i < anchors.len() ==> (#[trigger] anchors[i]).start < anchors[i].end <= len
    &&& forall|i: int, j: int|
        0 <= i < j < anchors.len() ==> (#[trigger] anchors[i]).end <= (#[trigger] anchors[j]).start
    &&& forall|i: int| 0 <= i < anchors.len() ==> align_first((#[trigger] anchors[i]).attributes)
}

/// The reachability invariant of the machine: finished anchors are ordered
/// and bounded, and the anchor under construction starts after them and
/// before the cursor.
pub open spec fn cfg_wf(tokens: Seq<char>, c: Cfg) -> bool {
    let len = tokens.len() as int;
    &&& len <= usize::MAX
    &&& 0 <= c.cursor <= len
    &&& anchors_wf(c.anchors, len)
    &&& align_first(c.bound.attributes)
    &&& match c.phase {
        Phase::Base => last_end(c.anchors) <= c.cursor,
        _ => last_end(c.anchors) <= c.bound.start && (c.bound.start as int) < c.cursor,
    }
}

/// Everything `select_aligns` keeps has the wanted alignment-ness.
proof fn lemma_select_aligns_all(s: Seq<AttributeView>, want: bool, i: int)
    ensures
        forall|j: int|
            0 <= j < select_aligns(s, want, i).len() ==> is_align(
                #[trigger] select_aligns(s, want, i)[j].kind,
            ) == want,
    decreases s.len() - i,
{
    if 0 <= i < s.len() {
        lemma_select_aligns_all(s, want, i + 1);
    }
}

/// A stable partition with alignments first satisfies [`align_first`].
proof fn lemma_partition_align_first(s: Seq<AttributeView>)
    ensures
        align_first(partition_aligns(s)),
{
    lemma_select_aligns_all(s, true, 0);
    lemma_select_aligns_all(s, false, 0);
    let p = partition_aligns(s);
    let a = select_aligns(s, true, 0);
    let b = select_aligns(s, false, 0);
    assert forall|i: int, j: int|
        0 <= i < j < p.len() && is_align(p[j].kind) implies is_align(p[i].kind) by {
        if j < a.len() {
            assert(p[j] == a[j]);
            assert(p[i] == a[i]);
        } else {
            assert(p[j] == b[j - a.len()]);
            assert(!is_align(p[j].kind));
        }
    }
}

/// Appending a later, well-formed anchor keeps the list well formed.
#[verifier::rlimit(50)]
#[verifier::spinoff_prover]
proof fn lemma_anchors_wf_push(anchors: Seq<AnchorView>, a: AnchorView, len: int)
    requires
        anchors_wf(anchors, len),
        last_end(anchors) <= a.start,
        a.start < a.end <= len,
        align_first(a.attributes),
    ensures
        anchors_wf(anchors.push(a), len),
{
    let p = anchors.push(a);
    assert forall|i: int| 0 <= i < p.len() implies (#[trigger] p[i]).start < p[i].end <= len by {
        if i < anchors.len() {
            assert(p[i] == anchors[i]);
        } else {
            assert(p[i] == a);
        }
    }
    assert forall|i: int, j: int|
        0 <= i < j < p.len() implies (#[trigger] p[i]).end <= (#[trigger] p[j]).start by {
        assert(p[i] == anchors[i]);
        if j < anchors.len() {
            assert(p[j] == anchors[j]);
        } else {
            assert(p[j] == a);
            if i < anchors.len() - 1 {
                assert(anchors[i].end <= anchors[anchors.len() - 1].start);
                assert(anchors[anchors.len() - 1].start < anchors[anchors.len() - 1].end);
            } else {
                assert(anchors[i].end == last_end(anchors));
            }
        }
    }
    assert forall|i: int| 0 <= i < p.len() implies align_first((#[trigger] p[i]).attributes) by {
        if i < anchors.len() {
            assert(p[i] == anchors[i]);
        } else {
            assert(p[i] == a);
        }
    }
}

/// A transition from a well-formed configuration yields a well-formed one,
/// and a finished run from it yields a well-formed anchor list.
#[verifier::rlimit(100)]
#[verifier::spinoff_prover]
proof fn lemma_run_wf(tokens: Seq<char>, c: Cfg)
    requires
        cfg_wf(tokens, c),
    ensures
        run(tokens, c) is Ok ==> anchors_wf(run(tokens, c)->Ok_0, tokens.len() as int),
    decreases measure(tokens.len() as int, c),
{
    let len = tokens.len() as int;
    match step(tokens, c) {
        StepR::Done(anchors) => {
        },
        StepR::Fail(e) => {
        },
        StepR::Next(c2) => {
            if measure(len, c2) < measure(len, c) {
                assert(cfg_wf(tokens, c2)) by {
                    match c.phase {
                        Phase::Base => {
                            assert(align_first(Seq::<AttributeView>::empty()));
                        },
                        Phase::Body => {
                            if c.cursor < len && tokens[c.cursor] == ANCHOR_CLOSE && !((
                            c.bound.name.len() == 0 || !spec_name_valid(c.bound.name))
                                && c.bound.defaults.len() == 0) {
                                let done = AnchorView { end: (c.cursor + 1) as usize, ..c.bound };
                                assert(done.start < done.end <= len);
                                assert(last_end(c.anchors) <= done.start);
                                lemma_anchors_wf_push(c.anchors, done, len);
                                assert(last_end(c.anchors.push(done)) == done.end as int);
                                assert(align_first(Seq::<AttributeView>::empty()));
                            }
                        },
                        Phase::AttrEnd { raw } => {
                            if !(c.cursor >= len || tokens[c.cursor] != ATTRIBUTE_END) {
                                match attrs_parse_from(raw, 0) {
                                    Err(m) => {
                                    },
                                    Ok(attrs) => {
                                        lemma_partition_align_first(attrs);
                                    },
                                }
                            }
                        },
                        _ => {
                        },
                    }
                }
                lemma_run_wf(tokens, c2);
            }
        },
    }
}

/// For every template that parses, the anchors come in ascending span order,
/// never overlap, their spans lie within the template, and every anchor's
/// attribute list has its alignment attributes first.
pub proof fn lemma_parse_anchors_wf(template: Seq<char>)
    requires
        template.len() <= usize::MAX,
    ensures
        parse_spec(template) is Ok ==> anchors_wf(
            parse_spec(template)->Ok_0,
            template.len() as int,
        ),
{
    lemma_run_wf(template, init_cfg());
}

} // verus!
