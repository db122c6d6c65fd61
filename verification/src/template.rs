//! The output template: the compiled form of a template string as a tiling
//! sequence of literal and anchor segments, and the transform engine that
//! binds the anchors against a per-line interpolation map.

use vstd::prelude::*;
use vstd::string::StringExecFns;
use crate::anchor::{Anchor, AnchorView, DefaultValue, DefaultValueView, anchors_view};
use crate::attr::{Attribute, apply_rel, attrs_view};
use crate::error::{ParseError, ParseErrorView};
use crate::parse::{parse, parse_spec, lemma_parse_anchors_wf, anchors_wf};
use crate::strutil::{string_from_range, str_to_chars};
use crate::style::StyleState;

verus! {

/// What an [`InterpolationTarget`] denotes.
#[verifier::ext_equal]
pub enum TargetView {
    Literal(Seq<char>),
    Anchor(AnchorView),
}

/// A segment of the output: literal text copied verbatim, or an anchor
/// interpolated at transform time.
#[derive(Debug)]
pub enum InterpolationTarget {
    Literal(String),
    Anchor(Anchor),
}

impl View for InterpolationTarget {
    type V = TargetView;

    open spec fn view(&self) -> TargetView {
        match self {
            InterpolationTarget::Literal(s) => TargetView::Literal(s@),
            InterpolationTarget::Anchor(a) => TargetView::Anchor(a@),
        }
    }
}

pub open spec fn targets_view(s: Seq<InterpolationTarget>) -> Seq<TargetView> {
    s.map_values(|t: InterpolationTarget| t@)
}

/// The per-line mapping from capture name to its ordered list of matched
/// values. Later insertions of the same name replace earlier ones.
#[derive(Debug)]
pub struct InterpolationMap {
    entries: Vec<(String, Vec<String>)>,
}

/// The map an entry list denotes: entries applied left to right, later
/// entries overriding earlier ones.
pub open spec fn map_of(entries: Seq<(Seq<char>, Seq<Seq<char>>)>) -> Map<Seq<char>, Seq<Seq<char>>>
    decreases entries.len(),
{
    if entries.len() == 0 {
        Map::empty()
    } else {
        map_of(entries.drop_last()).insert(entries.last().0, entries.last().1)
    }
}

pub open spec fn entries_view(s: Seq<(String, Vec<String>)>) -> Seq<(Seq<char>, Seq<Seq<char>>)> {
    s.map_values(|e: (String, Vec<String>)| (e.0@, e.1.deep_view()))
}

impl View for InterpolationMap {
    type V = Map<Seq<char>, Seq<Seq<char>>>;

    closed spec fn view(&self) -> Map<Seq<char>, Seq<Seq<char>>> {
        map_of(entries_view(self.entries@))
    }
}

impl InterpolationMap {
    /// An empty interpolation map.
    pub fn new() -> (r: InterpolationMap)
        ensures
            r@ == Map::<Seq<char>, Seq<Seq<char>>>::empty(),
    {
        let r = InterpolationMap { entries: Vec::new() };
        proof {
            assert(entries_view(r.entries@) =~= Seq::<(Seq<char>, Seq<Seq<char>>)>::empty());
        }
        r
    }

    /// Binds `name` to `values`, replacing any earlier binding.
    pub fn insert(&mut self, name: &str, values: Vec<String>)
        ensures
            final(self)@ == old(self)@.insert(name@, values.deep_view()),
    {
        let ghost old_entries = entries_view(self.entries@);
        let ghost vdv = values.deep_view();
        self.entries.push((name.to_owned(), values));
        proof {
            assert(entries_view(self.entries@) =~= old_entries.push((name@, vdv)));
            assert(entries_view(self.entries@).drop_last() =~= old_entries);
        }
    }

    /// The values bound to `name`, if any.
    pub(crate) fn get_values(&self, name: &String) -> (r: Option<&Vec<String>>)
        ensures
            match r {
                Some(v) => self@.dom().contains(name@) && v.deep_view() == self@[name@],
                None => !self@.dom().contains(name@),
            },
    {
        let ghost ev = entries_view(self.entries@);
        let mut i: usize = self.entries.len();
        proof {
            assert(ev.take(i as int) =~= ev);
        }
        while i > 0
            invariant
                0 <= i <= self.entries@.len(),
                ev == entries_view(self.entries@),
                ev.len() == self.entries@.len(),
                self@.dom().contains(name@) == map_of(ev.take(i as int)).dom().contains(name@),
                self@.dom().contains(name@) ==> self@[name@] == map_of(ev.take(i as int))[name@],
            decreases i,
        {
            i = i - 1;
            let e = &self.entries[i];
            proof {
                assert(ev[i as int] == (e.0@, e.1.deep_view()));
                assert(ev.take(i + 1).drop_last() =~= ev.take(i as int));
                assert(ev.take(i + 1).last() == ev[i as int]);
            }
            if e.0 == *name {
                return Some(&e.1);
            }
        }
        proof {
            assert(ev.take(0) =~= Seq::<(Seq<char>, Seq<Seq<char>>)>::empty());
        }
        None
    }
}

/// The index an anchor selects: its index when present, zero otherwise.
pub open spec fn index_of(idx: Option<usize>) -> usize {
    match idx {
        Some(i) => i,
        None => 0,
    }
}

/// The value the map holds for a name and index, if present.
pub open spec fn resolve_lookup(
    m: Map<Seq<char>, Seq<Seq<char>>>,
    name: Seq<char>,
    idx: Option<usize>,
) -> Option<Seq<char>> {
    if m.dom().contains(name) && index_of(idx) < m[name].len() {
        Some(m[name][index_of(idx) as int])
    } else {
        None
    }
}

/// The first default that yields a value: a literal always does, a default
/// anchor only when its name and index are present in the map.
pub open spec fn resolve_defaults(
    defaults: Seq<DefaultValueView>,
    m: Map<Seq<char>, Seq<Seq<char>>>,
) -> Option<Seq<char>>
    decreases defaults.len(),
{
    if defaults.len() == 0 {
        None
    } else {
        match defaults[0] {
            DefaultValueView::Literal(v) => Some(v),
            DefaultValueView::Anchor { name, index } => match resolve_lookup(m, name, index) {
                Some(v) => Some(v),
                None => resolve_defaults(defaults.drop_first(), m),
            },
        }
    }
}

/// Whether a target aborts the transform: a required anchor with no match.
pub open spec fn aborts(t: TargetView, m: Map<Seq<char>, Seq<Seq<char>>>) -> bool {
    match t {
        TargetView::Literal(_) => false,
        TargetView::Anchor(a) => a.required && resolve_lookup(m, a.name, a.index) is None,
    }
}

/// How an anchor's chosen value relates to the piece appended for it:
/// verbatim without attributes, else through the attribute fold.
pub open spec fn styled_ok(a: AnchorView, v: Seq<char>, piece: Seq<char>) -> bool {
    if a.attributes.len() == 0 {
        piece == v
    } else {
        apply_rel(v, v, StyleState::spec_empty(), a.attributes, piece)
    }
}

/// How the piece appended for one target relates to the target and the map.
pub open spec fn target_chunk_ok(
    t: TargetView,
    m: Map<Seq<char>, Seq<Seq<char>>>,
    piece: Seq<char>,
) -> bool {
    match t {
        TargetView::Literal(s) => piece == s,
        TargetView::Anchor(a) => match resolve_lookup(m, a.name, a.index) {
            Some(v) => styled_ok(a, v, piece),
            None => match resolve_defaults(a.defaults, m) {
                Some(v) => styled_ok(a, v, piece),
                None => piece == Seq::<char>::empty(),
            },
        },
    }
}

/// The concatenation of the pieces.
pub open spec fn concat_pieces(pieces: Seq<Seq<char>>) -> Seq<char>
    decreases pieces.len(),
{
    if pieces.len() == 0 {
        Seq::empty()
    } else {
        pieces[0] + concat_pieces(pieces.drop_first())
    }
}

proof fn lemma_concat_push(pieces: Seq<Seq<char>>, p: Seq<char>)
    ensures
        concat_pieces(pieces.push(p)) == concat_pieces(pieces) + p,
    decreases pieces.len(),
{
    if pieces.len() == 0 {
        assert(pieces.push(p)[0] == p);
        assert(pieces.push(p).drop_first() =~= Seq::<Seq<char>>::empty());
        assert(concat_pieces(Seq::<Seq<char>>::empty()) == Seq::<char>::empty());
        assert(concat_pieces(pieces.push(p)) == p + Seq::<char>::empty());
        assert(concat_pieces(pieces) == Seq::<char>::empty());
        assert(p + Seq::<char>::empty() =~= Seq::<char>::empty() + p);
    } else {
        assert(pieces.push(p).drop_first() =~= pieces.drop_first().push(p));
        lemma_concat_push(pieces.drop_first(), p);
        assert(pieces.push(p)[0] == pieces[0]);
        assert(concat_pieces(pieces.push(p)) == pieces[0] + (concat_pieces(pieces.drop_first())
            + p));
        assert(pieces[0] + (concat_pieces(pieces.drop_first()) + p) =~= (pieces[0] + concat_pieces(
            pieces.drop_first(),
        )) + p);
    }
}

/// How a transform result relates to the targets and the map: if any target
/// is a required anchor without a match, the whole output is empty;
/// otherwise the output is the concatenation of one piece per target, each
/// related to its target by [`target_chunk_ok`].
pub open spec fn transform_matches(
    targets: Seq<TargetView>,
    m: Map<Seq<char>, Seq<Seq<char>>>,
    out: Seq<char>,
) -> bool {
    if exists|i: int| 0 <= i < targets.len() && aborts(#[trigger] targets[i], m) {
        out == Seq::<char>::empty()
    } else {
        exists|pieces: Seq<Seq<char>>|
            {
                &&& pieces.len() == targets.len()
                &&& forall|i: int|
                    0 <= i < targets.len() ==> target_chunk_ok(targets[i], m, #[trigger] pieces[i])
                &&& out == concat_pieces(pieces)
            }
    }
}

/// The compiled template: an ordered sequence of literal and anchor
/// segments that tiles the original template text.
#[derive(Debug)]
pub struct OutputTemplate {
    pub targets: Vec<InterpolationTarget>,
}

/// The target sequence built from ordered anchors: the literal text before
/// each anchor (when non-empty), the anchor itself, and the trailing literal.
pub open spec fn build_targets(templ: Seq<char>, anchors: Seq<AnchorView>, pos: int) -> Seq<
    TargetView,
>
    decreases anchors.len(),
{
    if anchors.len() == 0 {
        if pos < templ.len() {
            seq![TargetView::Literal(templ.subrange(pos, templ.len() as int))]
        } else {
            Seq::empty()
        }
    } else {
        let a = anchors[0];
        let lit: Seq<TargetView> = if pos < a.start {
            seq![TargetView::Literal(templ.subrange(pos, a.start as int))]
        } else {
            Seq::empty()
        };
        lit + seq![TargetView::Anchor(a)] + build_targets(templ, anchors.drop_first(), a.end as int)
    }
}

/// What compiling a template denotes: the built target sequence, or the
/// parse failure.
pub open spec fn output_template_spec(templ: Seq<char>) -> Result<Seq<TargetView>, ParseErrorView> {
    match parse_spec(templ) {
        Err(e) => Err(e),
        Ok(anchors) => Ok(build_targets(templ, anchors, 0)),
    }
}

proof fn lemma_anchors_wf_drop_first(anchors: Seq<AnchorView>, len: int)
    requires
        anchors_wf(anchors, len),
        anchors.len() > 0,
    ensures
        anchors_wf(anchors.drop_first(), len),
{
    let d = anchors.drop_first();
    assert(forall|i: int| 0 <= i < d.len() ==> d[i] == anchors[i + 1]);
}

impl OutputTemplate {
    /// Compiles a template string: parses its anchors and slices the
    /// literal text around them, so that the targets tile the template.
    pub fn parse(template: &str) -> (r: Result<OutputTemplate, ParseError>)
        ensures
            match r {
                Ok(ot) => output_template_spec(template@) == Ok::<Seq<TargetView>, ParseErrorView>(
                    targets_view(ot.targets@),
                ),
                Err(e) => output_template_spec(template@) == Err::<
                    Seq<TargetView>,
                    ParseErrorView,
                >(e@),
            },
    {
        let tokens = str_to_chars(template);
        let len = tokens.len();
        let mut anchors = match parse(template) {
            Err(e) => {
                return Err(e);
            },
            Ok(a) => a,
        };
        let ghost all = anchors_view(anchors@);
        proof {
            lemma_parse_anchors_wf(template@);
            assert(anchors_wf(all, len as int));
        }
        let mut targets: Vec<InterpolationTarget> = Vec::new();
        let mut pos: usize = 0;
        proof {
            assert(targets_view(targets@) =~= Seq::<TargetView>::empty());
            assert(anchors_view(anchors@) =~= all);
        }
        while anchors.len() > 0
            invariant
                tokens@ == template@,
                len == tokens@.len(),
                anchors_wf(anchors_view(anchors@), len as int),
                0 <= pos <= len,
                anchors_view(anchors@).len() > 0 ==> pos <= anchors_view(anchors@)[0].start,
                build_targets(template@, all, 0) == targets_view(targets@) + build_targets(
                    template@,
                    anchors_view(anchors@),
                    pos as int,
                ),
            decreases anchors@.len(),
        {
            let ghost rem = anchors_view(anchors@);
            let a = anchors.remove(0);
            proof {
                assert(a@ == rem[0]);
                assert(anchors_view(anchors@) =~= rem.drop_first());
                lemma_anchors_wf_drop_first(rem, len as int);
            }
            let a_start = a.start;
            let a_end = a.end;
            let ghost av = a@;
            let ghost old_tv = targets_view(targets@);
            if pos < a_start {
                let lit = string_from_range(&tokens, pos, a_start);
                targets.push(InterpolationTarget::Literal(lit));
                proof {
                    assert(targets_view(targets@) =~= old_tv.push(
                        TargetView::Literal(template@.subrange(pos as int, av.start as int)),
                    ));
                }
            }
            let ghost mid_tv = targets_view(targets@);
            targets.push(InterpolationTarget::Anchor(a));
            proof {
                assert(targets_view(targets@) =~= mid_tv.push(TargetView::Anchor(av)));
                let lit: Seq<TargetView> = if pos < av.start {
                    seq![TargetView::Literal(template@.subrange(pos as int, av.start as int))]
                } else {
                    Seq::empty()
                };
                assert(build_targets(template@, rem, pos as int) == lit + seq![
                    TargetView::Anchor(av),
                ] + build_targets(template@, rem.drop_first(), av.end as int));
                assert(old_tv + (lit + seq![TargetView::Anchor(av)] + build_targets(
                    template@,
                    rem.drop_first(),
                    av.end as int,
                )) =~= targets_view(targets@) + build_targets(
                    template@,
                    rem.drop_first(),
                    av.end as int,
                ));
                if rem.drop_first().len() > 0 {
                    assert(rem[1] == rem.drop_first()[0]);
                    assert(av.end <= rem[1].start);
                }
            }
            pos = a_end;
        }
        if pos < len {
            let lit = string_from_range(&tokens, pos, len);
            let ghost old_tv = targets_view(targets@);
            targets.push(InterpolationTarget::Literal(lit));
            proof {
                assert(targets_view(targets@) =~= old_tv.push(
                    TargetView::Literal(template@.subrange(pos as int, len as int)),
                ));
                assert(old_tv + build_targets(template@, anchors_view(anchors@), pos as int)
                    =~= targets_view(targets@));
            }
        } else {
            proof {
                assert(targets_view(targets@) + build_targets(
                    template@,
                    anchors_view(anchors@),
                    pos as int,
                ) =~= targets_view(targets@));
            }
        }
        Ok(OutputTemplate { targets })
    }

    /// Transforms one line's interpolation map into the output text, as
    /// [`transform_matches`] relates: literal segments are copied verbatim;
    /// an anchor takes the value its name and index select, or the first
    /// default that yields one, styled by its attributes; a required anchor
    /// without a match empties the entire output.
    pub fn transform(&self, interpolation_map: &InterpolationMap) -> (r: String)
        ensures
            transform_matches(targets_view(self.targets@), interpolation_map@, r@),
    {
        let ghost tv = targets_view(self.targets@);
        let ghost m = interpolation_map@;
        let mut out = String::new();
        let ghost mut pieces: Seq<Seq<char>> = Seq::empty();
        let mut i: usize = 0;
        while i < self.targets.len()
            invariant
                0 <= i <= self.targets@.len(),
                tv == targets_view(self.targets@),
                tv.len() == self.targets@.len(),
                m == interpolation_map@,
                pieces.len() == i,
                forall|j: int| 0 <= j < i ==> !aborts(#[trigger] tv[j], m),
                forall|j: int| 0 <= j < i ==> target_chunk_ok(tv[j], m, #[trigger] pieces[j]),
                out@ == concat_pieces(pieces),
            decreases self.targets@.len() - i,
        {
            let target = &self.targets[i];
            proof {
                assert(target@ == tv[i as int]);
            }
            match target {
                InterpolationTarget::Literal(s) => {
                    out.append(s.as_str());
                    proof {
                        lemma_concat_push(pieces, s@);
                        pieces = pieces.push(s@);
                    }
                },
                InterpolationTarget::Anchor(anchor) => {
                    let ghost av = anchor@;
                    let idx: usize = match anchor.index {
                        Some(v) => v,
                        None => 0,
                    };
                    let mut piece: Option<String> = None;
                    match interpolation_map.get_values(&anchor.name) {
                        Some(vals) => {
                            if idx < vals.len() {
                                let val = &vals[idx];
                                proof {
                                    assert(vals.deep_view()[idx as int] =~= vals@[idx as int]@);
                                    assert(resolve_lookup(m, av.name, av.index) == Some(val@));
                                }
                                piece = Some(styled_piece(val, anchor));
                            }
                        },
                        None => {
                        },
                    }
                    if piece.is_none() {
                        proof {
                            assert(resolve_lookup(m, av.name, av.index) is None);
                        }
                        if anchor.required {
                            proof {
                                assert(aborts(tv[i as int], m));
                            }
                            return String::new();
                        }
                        piece = resolve_default_piece(anchor, interpolation_map);
                    }
                    match piece {
                        Some(p) => {
                            out.append(p.as_str());
                            proof {
                                lemma_concat_push(pieces, p@);
                                pieces = pieces.push(p@);
                            }
                        },
                        None => {
                            proof {
                                lemma_concat_push(pieces, Seq::<char>::empty());
                                pieces = pieces.push(Seq::<char>::empty());
                                assert(out@ + Seq::<char>::empty() =~= out@);
                            }
                        },
                    }
                },
            }
            i += 1;
        }
        proof {
            assert(!(exists|k: int| 0 <= k < tv.len() && aborts(#[trigger] tv[k], m)));
        }
        out
    }
}

/// The value an anchor appends for `val`: verbatim without attributes, else
/// styled through the attribute fold.
fn styled_piece(val: &String, anchor: &Anchor) -> (r: String)
    ensures
        styled_ok(anchor@, val@, r@),
{
    if anchor.attributes.len() == 0 {
        val.clone()
    } else {
        let r = Attribute::apply(val.as_str(), anchor.attributes.as_slice());
        proof {
            assert(attrs_view(anchor.attributes@) =~= anchor@.attributes);
        }
        r
    }
}

/// Walks the defaults in order and returns the styled piece of the first
/// one that yields a value, per [`resolve_defaults`].
fn resolve_default_piece(anchor: &Anchor, interpolation_map: &InterpolationMap) -> (r: Option<
    String,
>)
    ensures
        match r {
            Some(p) => resolve_defaults(anchor@.defaults, interpolation_map@) is Some && styled_ok(
                anchor@,
                resolve_defaults(anchor@.defaults, interpolation_map@)->Some_0,
                p@,
            ),
            None => resolve_defaults(anchor@.defaults, interpolation_map@) is None,
        },
{
    let ghost dv = anchor@.defaults;
    let ghost m = interpolation_map@;
    let mut j: usize = 0;
    proof {
        assert(dv.skip(0) =~= dv);
    }
    while j < anchor.defaults.len()
        invariant
            0 <= j <= anchor.defaults@.len(),
            dv == anchor@.defaults,
            dv.len() == anchor.defaults@.len(),
            m == interpolation_map@,
            resolve_defaults(dv, m) == resolve_defaults(dv.skip(j as int), m),
        decreases anchor.defaults@.len() - j,
    {
        let d = &anchor.defaults[j];
        proof {
            assert(d@ == dv[j as int]);
            assert(dv.skip(j as int)[0] == dv[j as int]);
            assert(dv.skip(j as int).drop_first() =~= dv.skip(j + 1));
        }
        match d {
            DefaultValue::Literal(v) => {
                return Some(styled_piece(v, anchor));
            },
            DefaultValue::Anchor { name, index } => {
                let idx: usize = match index {
                    Some(v) => *v,
                    None => 0,
                };
                match interpolation_map.get_values(name) {
                    Some(vals) => {
                        if idx < vals.len() {
                            let val = &vals[idx];
                            proof {
                                assert(vals.deep_view()[idx as int] =~= vals@[idx as int]@);
                                assert(resolve_lookup(m, name@, *index) == Some(val@));
                            }
                            return Some(styled_piece(val, anchor));
                        }
                        proof {
                            assert(resolve_lookup(m, name@, *index) is None);
                        }
                    },
                    None => {
                        proof {
                            assert(resolve_lookup(m, name@, *index) is None);
                        }
                    },
                }
            },
        }
        j += 1;
    }
    proof {
        assert(dv.skip(dv.len() as int) =~= Seq::<DefaultValueView>::empty());
    }
    None
}

} // verus!

verus! {

/// The text a target sequence stands for: literal text as is, anchors as
/// their spans in the template.
pub open spec fn targets_text(targets: Seq<TargetView>, templ: Seq<char>) -> Seq<char>
    decreases targets.len(),
{
    if targets.len() == 0 {
        Seq::empty()
    } else {
        (match targets[0] {
            TargetView::Literal(s) => s,
            TargetView::Anchor(a) => templ.subrange(a.start as int, a.end as int),
        }) + targets_text(targets.drop_first(), templ)
    }
}

proof fn lemma_targets_text_concat(s1: Seq<TargetView>, s2: Seq<TargetView>, templ: Seq<char>)
    ensures
        targets_text(s1 + s2, templ) == targets_text(s1, templ) + targets_text(s2, templ),
    decreases s1.len(),
{
    if s1.len() == 0 {
        assert(s1 + s2 =~= s2);
        assert(targets_text(s1, templ) + targets_text(s2, templ) =~= targets_text(s2, templ));
    } else {
        assert((s1 + s2).drop_first() =~= s1.drop_first() + s2);
        assert((s1 + s2)[0] == s1[0]);
        lemma_targets_text_concat(s1.drop_first(), s2, templ);
        let h = match s1[0] {
            TargetView::Literal(s) => s,
            TargetView::Anchor(a) => templ.subrange(a.start as int, a.end as int),
        };
        assert(h + (targets_text(s1.drop_first(), templ) + targets_text(s2, templ)) =~= (h
            + targets_text(s1.drop_first(), templ)) + targets_text(s2, templ));
    }
}

proof fn lemma_build_tiles(templ: Seq<char>, anchors: Seq<AnchorView>, pos: int)
    requires
        anchors_wf(anchors, templ.len() as int),
        0 <= pos <= templ.len(),
        anchors.len() > 0 ==> pos <= anchors[0].start,
    ensures
        targets_text(build_targets(templ, anchors, pos), templ) == templ.subrange(
            pos,
            templ.len() as int,
        ),
    decreases anchors.len(),
{
    let len = templ.len() as int;
    if anchors.len() == 0 {
        if pos < len {
            let b = seq![TargetView::Literal(templ.subrange(pos, len))];
            assert(b[0] == TargetView::Literal(templ.subrange(pos, len)));
            assert(b.drop_first() =~= Seq::<TargetView>::empty());
            assert(targets_text(Seq::<TargetView>::empty(), templ) == Seq::<char>::empty());
            assert(targets_text(b, templ) == templ.subrange(pos, len) + Seq::<char>::empty());
            assert(templ.subrange(pos, len) + Seq::<char>::empty() =~= templ.subrange(pos, len));
        } else {
            assert(templ.subrange(pos, len) =~= Seq::<char>::empty());
        }
    } else {
        let a = anchors[0];
        let rest = anchors.drop_first();
        assert(forall|i: int| 0 <= i < rest.len() ==> rest[i] == anchors[i + 1]);
        if rest.len() > 0 {
            assert(anchors[0].end <= anchors[1].start);
        }
        lemma_build_tiles(templ, rest, a.end as int);
        let lit: Seq<TargetView> = if pos < a.start {
            seq![TargetView::Literal(templ.subrange(pos, a.start as int))]
        } else {
            Seq::empty()
        };
        let mid = seq![TargetView::Anchor(a)];
        lemma_targets_text_concat(lit + mid, build_targets(templ, rest, a.end as int), templ);
        lemma_targets_text_concat(lit, mid, templ);
        assert(mid[0] == TargetView::Anchor(a));
        assert(mid.drop_first() =~= Seq::<TargetView>::empty());
        assert(targets_text(Seq::<TargetView>::empty(), templ) == Seq::<char>::empty());
        assert(targets_text(mid, templ) == templ.subrange(a.start as int, a.end as int) + Seq::<
            char,
        >::empty());
        if pos < a.start {
            assert(lit[0] == TargetView::Literal(templ.subrange(pos, a.start as int)));
            assert(lit.drop_first() =~= Seq::<TargetView>::empty());
            assert(targets_text(Seq::<TargetView>::empty(), templ) == Seq::<char>::empty());
            assert(targets_text(lit, templ) == templ.subrange(pos, a.start as int) + Seq::<
                char,
            >::empty());
        } else {
            assert(targets_text(lit, templ) == Seq::<char>::empty());
        }
        assert(targets_text(build_targets(templ, anchors, pos), templ) =~= templ.subrange(
            pos,
            len,
        ));
    }
}

/// The tiling law: for every template that parses, the compiled targets,
/// concatenated (literals as their text, anchors as their spans in the
/// template), reconstruct the template exactly.
pub proof fn lemma_template_tiling(templ: Seq<char>)
    requires
        templ.len() <= usize::MAX,
    ensures
        output_template_spec(templ) is Ok ==> targets_text(
            output_template_spec(templ)->Ok_0,
            templ,
        ) == templ,
{
    if output_template_spec(templ) is Ok {
        lemma_parse_anchors_wf(templ);
        let anchors = parse_spec(templ)->Ok_0;
        if anchors.len() > 0 {
            assert(anchors[0].start >= 0);
        }
        lemma_build_tiles(templ, anchors, 0);
        assert(templ.subrange(0, templ.len() as int) =~= templ);
    }
}

/// The idempotence law: parsing is a function of the template text alone,
/// so two parses of the same template yield equal outcomes — in particular,
/// structurally equal anchor lists.
pub proof fn lemma_parse_idempotent(
    templ: Seq<char>,
    r1: Result<Seq<AnchorView>, ParseErrorView>,
    r2: Result<Seq<AnchorView>, ParseErrorView>,
)
    requires
        r1 == parse_spec(templ),
        r2 == parse_spec(templ),
    ensures
        r1 == r2,
{
}

} // verus!

verus! {

/// The value an unstyled target contributes: literal text, the looked-up
/// value, the first default, or nothing.
pub open spec fn plain_piece(t: TargetView, m: Map<Seq<char>, Seq<Seq<char>>>) -> Seq<char> {
    match t {
        TargetView::Literal(s) => s,
        TargetView::Anchor(a) => match resolve_lookup(m, a.name, a.index) {
            Some(v) => v,
            None => match resolve_defaults(a.defaults, m) {
                Some(v) => v,
                None => Seq::empty(),
            },
        },
    }
}

/// No anchor in the target list carries attributes.
pub open spec fn unstyled(targets: Seq<TargetView>) -> bool {
    forall|i: int|
        0 <= i < targets.len() ==> match #[trigger] targets[i] {
            TargetView::Anchor(a) => a.attributes.len() == 0,
            TargetView::Literal(_) => true,
        }
}

/// On templates without attributes the transform is an exact function of the
/// targets and the map: every value is appended verbatim, and a required
/// anchor without a match empties the whole output.
pub proof fn lemma_transform_unstyled(
    targets: Seq<TargetView>,
    m: Map<Seq<char>, Seq<Seq<char>>>,
    out: Seq<char>,
)
    requires
        transform_matches(targets, m, out),
        unstyled(targets),
    ensures
        out == if exists|i: int| 0 <= i < targets.len() && aborts(#[trigger] targets[i], m) {
            Seq::<char>::empty()
        } else {
            concat_pieces(Seq::new(targets.len(), |i: int| plain_piece(targets[i], m)))
        },
{
    if !(exists|i: int| 0 <= i < targets.len() && aborts(#[trigger] targets[i], m)) {
        let pieces = choose|pieces: Seq<Seq<char>>|
            {
                &&& pieces.len() == targets.len()
                &&& forall|i: int|
                    0 <= i < targets.len() ==> target_chunk_ok(targets[i], m, #[trigger] pieces[i])
                &&& out == concat_pieces(pieces)
            };
        assert forall|i: int| 0 <= i < targets.len() implies #[trigger] pieces[i] == plain_piece(
            targets[i],
            m,
        ) by {
            assert(target_chunk_ok(targets[i], m, pieces[i]));
        }
        assert(pieces =~= Seq::new(targets.len(), |i: int| plain_piece(targets[i], m)));
    }
}

} // verus!
