//! Per-line processing: compiled patterns with their cached capture-group
//! names, the required-capture filter, and the transformation of one input
//! line through every template.

use vstd::prelude::*;
use vstd::string::StringExecFns;
use crate::error::ParseError;
use crate::pattern::{CompiledPattern, regex_valid, captured_values, group_names};
use crate::template::{OutputTemplate, InterpolationMap, TargetView, targets_view,
    output_template_spec, transform_matches};

verus! {

/// How the required capture names gate a line: all of them must have a
/// match, or at least one of them.
#[derive(Debug, Clone, Copy, PartialEq, Eq, PartialOrd, Ord, Structural)]
pub enum RequireMode {
    /// Require every listed capture name to be matched for an input line to
    /// be processed.
    All,
    /// Require at least one listed capture name to be matched for an input
    /// line to be processed.
    Any,
}

impl Default for RequireMode {
    fn default() -> (r: RequireMode)
        ensures
            r == RequireMode::All,
    {
        RequireMode::All
    }
}

impl RequireMode {
    /// The mode's textual name.
    pub fn as_str(&self) -> (r: &'static str)
        ensures
            *self == RequireMode::All ==> r@ == "all"@,
            *self == RequireMode::Any ==> r@ == "any"@,
    {
        match self {
            RequireMode::All => "all",
            RequireMode::Any => "any",
        }
    }
}

/// Why a line processor could not be built.
#[derive(Debug)]
pub enum LineProcessorError {
    /// A template failed to parse.
    InvalidTemplate(ParseError),
    /// A pattern was rejected by the regex engine; carries the pattern text.
    InvalidPattern(String),
    /// None of the patterns contains a named capture group.
    NoNamedCaptures,
}

/// The values of the `Some` entries, in order.
pub open spec fn somes(s: Seq<Option<Seq<char>>>) -> Seq<Seq<char>>
    decreases s.len(),
{
    if s.len() == 0 {
        Seq::empty()
    } else {
        match s[0] {
            Some(v) => seq![v] + somes(s.drop_first()),
            None => somes(s.drop_first()),
        }
    }
}

/// What a [`LineProcessor`] denotes.
pub struct LineProcessorView {
    pub patterns: Seq<Seq<char>>,
    pub names: Seq<Seq<Seq<char>>>,
    pub templates: Seq<Seq<TargetView>>,
    pub filters: Seq<Seq<char>>,
    pub require_mode: RequireMode,
    pub separator: Seq<char>,
}

/// Compiled patterns with their cached capture-group names, the compiled
/// templates, and the required-capture filter, ready to process lines.
#[derive(Debug)]
pub struct LineProcessor {
    patterns: Vec<CompiledPattern>,
    names: Vec<Vec<String>>,
    templates: Vec<OutputTemplate>,
    filters: Vec<String>,
    require_mode: RequireMode,
    separator: String,
}

impl LineProcessor {
    #[verifier::type_invariant]
    closed spec fn inv(self) -> bool {
        self.patterns@.len() == self.names@.len()
    }
}

impl View for LineProcessor {
    type V = LineProcessorView;

    closed spec fn view(&self) -> LineProcessorView {
        LineProcessorView {
            patterns: self.patterns@.map_values(|p: CompiledPattern| p@),
            names: self.names@.map_values(|ns: Vec<String>| ns.deep_view()),
            templates: self.templates@.map_values(
                |t: OutputTemplate| targets_view(t.targets@),
            ),
            filters: self.filters.deep_view(),
            require_mode: self.require_mode,
            separator: self.separator@,
        }
    }
}

/// The values already bound to `name`, or none.
pub open spec fn bound_values(m: Map<Seq<char>, Seq<Seq<char>>>, name: Seq<char>) -> Seq<Seq<char>> {
    if m.dom().contains(name) {
        m[name]
    } else {
        Seq::empty()
    }
}

/// Appending one capture group's values for one pattern to the map.
pub open spec fn upd_map(
    m: Map<Seq<char>, Seq<Seq<char>>>,
    pattern: Seq<char>,
    line: Seq<char>,
    name: Seq<char>,
) -> Map<Seq<char>, Seq<Seq<char>>> {
    m.insert(name, bound_values(m, name) + somes(captured_values(pattern, line, name)))
}

/// Folding one pattern's capture names, from position `k`, into the map.
pub open spec fn add_names(
    m: Map<Seq<char>, Seq<Seq<char>>>,
    pattern: Seq<char>,
    names: Seq<Seq<char>>,
    line: Seq<char>,
    k: int,
) -> Map<Seq<char>, Seq<Seq<char>>>
    decreases names.len() - k,
{
    if k < 0 || k >= names.len() {
        m
    } else {
        add_names(upd_map(m, pattern, line, names[k]), pattern, names, line, k + 1)
    }
}

/// Folding the patterns, from position `i`, into the map.
pub open spec fn add_patterns(
    m: Map<Seq<char>, Seq<Seq<char>>>,
    patterns: Seq<Seq<char>>,
    names: Seq<Seq<Seq<char>>>,
    line: Seq<char>,
    i: int,
) -> Map<Seq<char>, Seq<Seq<char>>>
    decreases patterns.len() - i,
{
    if i < 0 || i >= patterns.len() || patterns.len() != names.len() {
        m
    } else {
        add_patterns(add_names(m, patterns[i], names[i], line, 0), patterns, names, line, i + 1)
    }
}

/// The interpolation map one line yields: every capture name of every
/// pattern bound to the values it captured across the line's matches, in
/// pattern order.
pub open spec fn line_map(v: LineProcessorView, line: Seq<char>) -> Map<Seq<char>, Seq<Seq<char>>> {
    add_patterns(Map::empty(), v.patterns, v.names, line, 0)
}

/// Whether a capture name has at least one matched value in the map.
pub open spec fn has_match(m: Map<Seq<char>, Seq<Seq<char>>>, name: Seq<char>) -> bool {
    m.dom().contains(name) && m[name].len() > 0
}

/// Whether the required-capture filter lets a line through.
pub open spec fn filters_pass(
    mode: RequireMode,
    filters: Seq<Seq<char>>,
    m: Map<Seq<char>, Seq<Seq<char>>>,
) -> bool {
    match mode {
        RequireMode::All => forall|i: int| 0 <= i < filters.len() ==> has_match(m, #[trigger] filters[i]),
        RequireMode::Any => exists|i: int| 0 <= i < filters.len() && has_match(m, #[trigger] filters[i]),
    }
}

/// The transform outputs joined with the separator.
pub open spec fn join_spec(outs: Seq<Seq<char>>, sep: Seq<char>) -> Seq<char>
    decreases outs.len(),
{
    if outs.len() == 0 {
        Seq::empty()
    } else if outs.len() == 1 {
        outs[0]
    } else {
        join_spec(outs.drop_last(), sep) + sep + outs.last()
    }
}

/// How processing one line relates to the result: the per-line map is
/// built, the filter decides whether the line qualifies, each template
/// transforms the map, and the joined output is returned unless empty.
/// One admissible vector of per-template outputs, and the result it yields.
pub open spec fn outs_ok(
    v: LineProcessorView,
    m: Map<Seq<char>, Seq<Seq<char>>>,
    outs: Seq<Seq<char>>,
    r: Option<Seq<char>>,
) -> bool {
    &&& outs.len() == v.templates.len()
    &&& forall|i: int|
        0 <= i < v.templates.len() ==> transform_matches(v.templates[i], m, #[trigger] outs[i])
    &&& {
        let joined = join_spec(outs, v.separator);
        if joined.len() == 0 {
            r is None
        } else {
            r == Some(joined)
        }
    }
}

pub open spec fn process_line_matches(
    v: LineProcessorView,
    line: Seq<char>,
    r: Option<Seq<char>>,
) -> bool {
    let m = line_map(v, line);
    if !filters_pass(v.require_mode, v.filters, m) {
        r is None
    } else {
        exists|outs: Seq<Seq<char>>| #[trigger] outs_ok(v, m, outs, r)
    }
}

/// Whether any pattern has a named capture group.
pub open spec fn any_named_group(patterns: Seq<Seq<char>>) -> bool {
    exists|i: int, k: int|
        0 <= i < patterns.len() && 0 <= k < group_names(patterns[i]).len() && (#[trigger] group_names(
            patterns[i],
        )[k]) is Some
}

/// The `Some` entries of an optional-string list, in order.
fn collect_somes(v: &Vec<Option<String>>) -> (r: Vec<String>)
    ensures
        r.deep_view() == somes(v.deep_view()),
{
    let ghost dv = v.deep_view();
    let mut out: Vec<String> = Vec::new();
    let mut i: usize = 0;
    proof {
        assert(dv.skip(0) =~= dv);
        assert(out.deep_view() =~= Seq::<Seq<char>>::empty());
    }
    while i < v.len()
        invariant
            0 <= i <= v@.len(),
            dv == v.deep_view(),
            dv.len() == v@.len(),
            somes(dv) == out.deep_view() + somes(dv.skip(i as int)),
        decreases v@.len() - i,
    {
        proof {
            assert(dv.skip(i as int)[0] == dv[i as int]);
            assert(dv.skip(i as int).drop_first() =~= dv.skip(i + 1));
            assert(dv[i as int] == match v@[i as int] {
                Some(s) => Some(s@),
                None => None::<Seq<char>>,
            });
        }
        match &v[i] {
            Some(s) => {
                let ghost old_out = out.deep_view();
                out.push(s.clone());
                proof {
                    assert(out.deep_view() =~= old_out.push(s@));
                    assert(old_out + (seq![s@] + somes(dv.skip(i + 1))) =~= old_out.push(s@)
                        + somes(dv.skip(i + 1)));
                }
            },
            None => {
            },
        }
        i += 1;
    }
    proof {
        assert(dv.skip(dv.len() as int) =~= Seq::<Option<Seq<char>>>::empty());
        assert(out.deep_view() + Seq::<Seq<char>>::empty() =~= out.deep_view());
    }
    out
}

impl LineProcessor {
    /// Builds a processor: parses every template, compiles every pattern,
    /// caches each pattern's capture-group names, and refuses a
    /// configuration in which no pattern has a named capture group.
    pub fn new(
        patterns: Vec<String>,
        templates: Vec<String>,
        filters: Vec<String>,
        require_mode: RequireMode,
        separator: String,
    ) -> (r: Result<LineProcessor, LineProcessorError>)
        ensures
            match r {
                Ok(p) => {
                    &&& p@.patterns == patterns.deep_view()
                    &&& p@.patterns.len() == patterns@.len()
                    &&& forall|i: int|
                        0 <= i < patterns@.len() ==> regex_valid(#[trigger] patterns.deep_view()[i])
                    &&& forall|i: int|
                        0 <= i < patterns@.len() ==> p@.names[i] == somes(
                            group_names(#[trigger] patterns.deep_view()[i]),
                        )
                    &&& p@.names.len() == patterns@.len()
                    &&& any_named_group(patterns.deep_view())
                    &&& p@.templates.len() == templates@.len()
                    &&& forall|i: int|
                        0 <= i < templates@.len() ==> output_template_spec(
                            #[trigger] templates.deep_view()[i],
                        ) == Ok::<Seq<TargetView>, crate::error::ParseErrorView>(p@.templates[i])
                    &&& p@.filters == filters.deep_view()
                    &&& p@.require_mode == require_mode
                    &&& p@.separator == separator@
                },
                Err(e) => match e {
                    LineProcessorError::InvalidTemplate(pe) => exists|i: int|
                        0 <= i < templates@.len() && output_template_spec(
                            #[trigger] templates.deep_view()[i],
                        ) == Err::<Seq<TargetView>, crate::error::ParseErrorView>(pe@),
                    LineProcessorError::InvalidPattern(t) => exists|i: int|
                        0 <= i < patterns@.len() && #[trigger] patterns.deep_view()[i] == t@
                            && !regex_valid(t@),
                    LineProcessorError::NoNamedCaptures => !any_named_group(patterns.deep_view()),
                },
            },
    {
        let mut compiled_templates: Vec<OutputTemplate> = Vec::new();
        let mut ti: usize = 0;
        while ti < templates.len()
            invariant
                0 <= ti <= templates@.len(),
                compiled_templates@.len() == ti,
                forall|i: int|
                    0 <= i < ti ==> output_template_spec(#[trigger] templates.deep_view()[i])
                        == Ok::<Seq<TargetView>, crate::error::ParseErrorView>(
                        targets_view(compiled_templates@[i].targets@),
                    ),
            decreases templates@.len() - ti,
        {
            proof {
                assert(templates.deep_view()[ti as int] =~= templates@[ti as int]@);
            }
            match OutputTemplate::parse(templates[ti].as_str()) {
                Ok(t) => {
                    compiled_templates.push(t);
                },
                Err(e) => {
                    return Err(LineProcessorError::InvalidTemplate(e));
                },
            }
            ti += 1;
        }
        let mut compiled_patterns: Vec<CompiledPattern> = Vec::new();
        let mut names: Vec<Vec<String>> = Vec::new();
        let mut any_named = false;
        let mut pi: usize = 0;
        while pi < patterns.len()
            invariant
                0 <= pi <= patterns@.len(),
                compiled_patterns@.len() == pi,
                names@.len() == pi,
                forall|i: int|
                    0 <= i < pi ==> (#[trigger] compiled_patterns@[i])@ == patterns.deep_view()[i],
                forall|i: int|
                    0 <= i < pi ==> regex_valid(#[trigger] patterns.deep_view()[i]),
                forall|i: int|
                    0 <= i < pi ==> (#[trigger] names@[i]).deep_view() == somes(
                        group_names(patterns.deep_view()[i]),
                    ),
                any_named == exists|i: int, k: int|
                    0 <= i < pi && 0 <= k < group_names(patterns.deep_view()[i]).len()
                        && (#[trigger] group_names(patterns.deep_view()[i])[k]) is Some,
            decreases patterns@.len() - pi,
        {
            proof {
                assert(patterns.deep_view()[pi as int] =~= patterns@[pi as int]@);
            }
            let cp = match CompiledPattern::compile(patterns[pi].as_str()) {
                Some(cp) => cp,
                None => {
                    return Err(LineProcessorError::InvalidPattern(patterns[pi].clone()));
                },
            };
            let raw_names = cp.group_names();
            let named = collect_somes(&raw_names);
            let ghost gd = group_names(patterns.deep_view()[pi as int]);
            if named.len() > 0 {
                proof {
                    assert(somes(gd).len() > 0);
                    lemma_somes_nonempty(gd);
                }
                any_named = true;
            } else {
                proof {
                    assert(somes(gd).len() == 0);
                    lemma_somes_empty(gd);
                }
            }
            compiled_patterns.push(cp);
            names.push(named);
            pi += 1;
        }
        if !any_named {
            return Err(LineProcessorError::NoNamedCaptures);
        }
        let r = LineProcessor {
            patterns: compiled_patterns,
            names,
            templates: compiled_templates,
            filters,
            require_mode,
            separator,
        };
        proof {
            assert(r@.patterns =~= patterns.deep_view());
            assert forall|i: int| 0 <= i < templates@.len() implies output_template_spec(
                #[trigger] templates.deep_view()[i],
            ) == Ok::<Seq<TargetView>, crate::error::ParseErrorView>(r@.templates[i]) by {
                assert(r@.templates[i] == targets_view(compiled_templates@[i].targets@));
            }
            assert forall|i: int| 0 <= i < patterns@.len() implies r@.names[i] == somes(
                group_names(#[trigger] patterns.deep_view()[i]),
            ) by {
                assert(r@.names[i] == names@[i].deep_view());
            }
        }
        Ok(r)
    }

    /// Processes one input line: builds the per-line interpolation map from
    /// every pattern's captures, applies the required-capture filter,
    /// transforms every template and joins the results with the separator.
    /// Returns `None` when the filter rejects the line or the joined output
    /// is empty.
    pub fn process_line(&self, line: &str) -> (r: Option<String>)
        ensures
            process_line_matches(
                self@,
                line@,
                match r {
                    Some(s) => Some(s@),
                    None => None,
                },
            ),
    {
        let ghost v = self@;
        let mut map = InterpolationMap::new();
        let mut i: usize = 0;
        proof {
            use_type_invariant(self);
            assert(v.patterns.len() == self.patterns@.len());
            assert(v.names.len() == self.names@.len());
        }
        while i < self.patterns.len()
            invariant
                0 <= i <= self.patterns@.len(),
                v == self@,
                v.patterns.len() == self.patterns@.len(),
                v.names.len() == self.patterns@.len(),
                line_map(v, line@) == add_patterns(map@, v.patterns, v.names, line@, i as int),
            decreases self.patterns@.len() - i,
        {
            let cp = &self.patterns[i];
            let ns = &self.names[i];
            proof {
                assert(cp@ == v.patterns[i as int]);
                assert(ns.deep_view() == v.names[i as int]);
            }
            let mut k: usize = 0;
            while k < ns.len()
                invariant
                    0 <= k <= ns@.len(),
                    v == self@,
                    0 <= i < self.patterns@.len(),
                    v.patterns.len() == self.patterns@.len(),
                    v.names.len() == self.patterns@.len(),
                    cp@ == v.patterns[i as int],
                    ns.deep_view() == v.names[i as int],
                    ns.deep_view().len() == ns@.len(),
                    line_map(v, line@) == add_patterns(
                        add_names(map@, v.patterns[i as int], v.names[i as int], line@, k as int),
                        v.patterns,
                        v.names,
                        line@,
                        i + 1,
                    ),
                decreases ns@.len() - k,
            {
                let name = &ns[k];
                proof {
                    assert(name@ =~= v.names[i as int][k as int]);
                }
                let captured = cp.captures_of_group(line, name.as_str());
                let found = collect_somes(&captured);
                let mut vals: Vec<String> = Vec::new();
                proof {
                    assert(vals.deep_view() =~= Seq::<Seq<char>>::empty());
                }
                match map.get_values(name) {
                    Some(existing) => {
                        append_all(&mut vals, existing);
                        proof {
                            assert(Seq::<Seq<char>>::empty() + existing.deep_view()
                                =~= existing.deep_view());
                        }
                    },
                    None => {
                    },
                }
                proof {
                    assert(vals.deep_view() =~= bound_values(map@, name@));
                }
                append_all(&mut vals, &found);
                proof {
                    assert(vals.deep_view() =~= bound_values(map@, name@) + somes(
                        captured_values(v.patterns[i as int], line@, name@),
                    ));
                }
                let ghost old_map = map@;
                map.insert(name.as_str(), vals);
                proof {
                    assert(map@ =~= upd_map(old_map, v.patterns[i as int], line@, name@));
                    assert(add_names(old_map, v.patterns[i as int], v.names[i as int], line@, k as int)
                        == add_names(map@, v.patterns[i as int], v.names[i as int], line@, k + 1));
                }
                k += 1;
            }
            proof {
                assert(add_names(map@, v.patterns[i as int], v.names[i as int], line@, ns@.len() as int)
                    == map@);
            }
            i += 1;
        }
        proof {
            assert(add_patterns(map@, v.patterns, v.names, line@, v.patterns.len() as int) == map@);
            assert(map@ == line_map(v, line@));
        }
        if !self.filters_allow(&map) {
            return None;
        }
        let mut outs: Vec<String> = Vec::new();
        let ghost mut outsv: Seq<Seq<char>> = Seq::empty();
        let mut t: usize = 0;
        while t < self.templates.len()
            invariant
                0 <= t <= self.templates@.len(),
                v == self@,
                v.templates.len() == self.templates@.len(),
                map@ == line_map(v, line@),
                outsv.len() == t,
                outs@.len() == t,
                forall|j: int| 0 <= j < t ==> outs@[j]@ == outsv[j],
                forall|j: int|
                    0 <= j < t ==> transform_matches(v.templates[j], map@, #[trigger] outsv[j]),
            decreases self.templates@.len() - t,
        {
            let out = self.templates[t].transform(&map);
            proof {
                assert(targets_view(self.templates@[t as int].targets@) == v.templates[t as int]);
                outsv = outsv.push(out@);
            }
            outs.push(out);
            t += 1;
        }
        let mut joined = String::new();
        let mut j: usize = 0;
        while j < outs.len()
            invariant
                0 <= j <= outs@.len(),
                outsv.len() == outs@.len(),
                forall|q: int| 0 <= q < outs@.len() ==> outs@[q]@ == outsv[q],
                joined@ == join_spec(outsv.take(j as int), self.separator@),
                v.separator == self.separator@,
            decreases outs@.len() - j,
        {
            if j > 0 {
                joined.append(self.separator.as_str());
            }
            joined.append(outs[j].as_str());
            proof {
                let tk = outsv.take(j + 1);
                assert(tk.drop_last() =~= outsv.take(j as int));
                assert(tk.last() == outsv[j as int]);
                if j == 0 {
                    assert(join_spec(tk, v.separator) == tk[0]);
                    assert(tk[0] == outsv[0]);
                }
            }
            j += 1;
        }
        proof {
            assert(outsv.take(outsv.len() as int) =~= outsv);
        }
        if joined.as_str().is_empty() {
            proof {
                assert(outs_ok(v, map@, outsv, None::<Seq<char>>));
            }
            return None;
        }
        proof {
            assert(outs_ok(v, map@, outsv, Some(joined@)));
        }
        Some(joined)
    }

    /// Whether the required-capture filter lets this map through.
    fn filters_allow(&self, map: &InterpolationMap) -> (r: bool)
        ensures
            r == filters_pass(self@.require_mode, self@.filters, map@),
    {
        let ghost fv = self@.filters;
        let mode = self.require_mode;
        match mode {
            RequireMode::All => {
                let mut i: usize = 0;
                while i < self.filters.len()
                    invariant
                        0 <= i <= self.filters@.len(),
                        self@.require_mode == RequireMode::All,
                        fv == self@.filters,
                        fv.len() == self.filters@.len(),
                        forall|j: int| 0 <= j < i ==> has_match(map@, #[trigger] fv[j]),
                    decreases self.filters@.len() - i,
                {
                    proof {
                        assert(fv[i as int] =~= self.filters@[i as int]@);
                    }
                let ok = match map.get_values(&self.filters[i]) {
                        Some(vals) => {
                            proof {
                                assert(vals.deep_view().len() == vals@.len());
                            }
                            vals.len() > 0
                        },
                        None => false,
                    };
                    if !ok {
                        proof {
                            assert(!has_match(map@, fv[i as int]));
                            assert(!filters_pass(RequireMode::All, fv, map@)) by {
                                if filters_pass(RequireMode::All, fv, map@) {
                                    assert(has_match(map@, fv[i as int]));
                                }
                            }
                        }
                        return false;
                    }
                    i += 1;
                }
                true
            },
            RequireMode::Any => {
                let mut i: usize = 0;
                while i < self.filters.len()
                    invariant
                        0 <= i <= self.filters@.len(),
                        self@.require_mode == RequireMode::Any,
                        fv == self@.filters,
                        fv.len() == self.filters@.len(),
                        forall|j: int| 0 <= j < i ==> !has_match(map@, #[trigger] fv[j]),
                    decreases self.filters@.len() - i,
                {
                    proof {
                        assert(fv[i as int] =~= self.filters@[i as int]@);
                    }
                let ok = match map.get_values(&self.filters[i]) {
                        Some(vals) => {
                            proof {
                                assert(vals.deep_view().len() == vals@.len());
                            }
                            vals.len() > 0
                        },
                        None => false,
                    };
                    if ok {
                        proof {
                            assert(has_match(map@, fv[i as int]));
                            assert(filters_pass(RequireMode::Any, fv, map@));
                        }
                        return true;
                    }
                    i += 1;
                }
                false
            },
        }
    }
}

/// Appends clones of all of `src` onto `dst`.
fn append_all(dst: &mut Vec<String>, src: &Vec<String>)
    ensures
        final(dst).deep_view() == old(dst).deep_view() + src.deep_view(),
{
    let ghost base = old(dst).deep_view();
    let mut e: usize = 0;
    proof {
        assert(dst.deep_view() =~= base + src.deep_view().take(0));
    }
    while e < src.len()
        invariant
            0 <= e <= src@.len(),
            src.deep_view().len() == src@.len(),
            dst.deep_view() == base + src.deep_view().take(e as int),
        decreases src@.len() - e,
    {
        let ghost prev = dst.deep_view();
        dst.push(src[e].clone());
        proof {
            assert(dst.deep_view() =~= prev.push(src.deep_view()[e as int]));
            assert(dst.deep_view() =~= base + src.deep_view().take(e + 1));
        }
        e += 1;
    }
    proof {
        assert(src.deep_view().take(src@.len() as int) =~= src.deep_view());
    }
}

/// A non-empty `somes` means some entry is `Some`.
proof fn lemma_somes_nonempty(s: Seq<Option<Seq<char>>>)
    requires
        somes(s).len() > 0,
    ensures
        exists|k: int| 0 <= k < s.len() && s[k] is Some,
    decreases s.len(),
{
    if s.len() > 0 {
        match s[0] {
            Some(v) => {
            },
            None => {
                lemma_somes_nonempty(s.drop_first());
                let k = choose|k: int| 0 <= k < s.drop_first().len() && s.drop_first()[k] is Some;
                assert(s[k + 1] is Some);
            },
        }
    }
}

/// An empty `somes` means no entry is `Some`.
proof fn lemma_somes_empty(s: Seq<Option<Seq<char>>>)
    requires
        somes(s).len() == 0,
    ensures
        forall|k: int| 0 <= k < s.len() ==> !(s[k] is Some),
    decreases s.len(),
{
    if s.len() > 0 {
        match s[0] {
            Some(v) => {
                assert(false);
            },
            None => {
                lemma_somes_empty(s.drop_first());
                assert forall|k: int| 0 <= k < s.len() implies !(s[k] is Some) by {
                    if k > 0 {
                        assert(s.drop_first()[k - 1] == s[k]);
                    }
                }
            },
        }
    }
}

} // verus!
