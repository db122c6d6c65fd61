//! Attributes: styling and layout operations applicable to an interpolated
//! value. An attribute is parsed from a raw name with optional parenthesized
//! arguments, and applied by folding the attribute list over the value.

use vstd::prelude::*;
use vstd::string::StringExecFns;
use vstd::string::StrSliceExecFns;
use crate::charset::{parse_index, parse_index_spec, spec_is_ws, is_ws};
use crate::pattern::{CompiledPattern, regex_valid, regex_match};
use crate::style::{StyleState, render_rel, render_styled};
use crate::strutil::{push_char, string_from_range, str_to_chars};

verus! {

/// Alignment direction for the `lalign`, `ralign` and `calign` attributes.
#[derive(Debug, Clone, Copy, Eq, PartialEq, Structural)]
pub enum Alignment {
    Left,
    Right,
    Center,
}

/// The closed set of attribute operations: eight foreground colors, eight
/// background colors, four emphasis styles, and alignment to a width.
#[derive(Debug, Clone, Copy, Eq, PartialEq, Structural)]
pub enum AttributeKind {
    Black,
    Red,
    Green,
    Yellow,
    Blue,
    Magenta,
    Cyan,
    White,
    BgBlack,
    BgRed,
    BgGreen,
    BgYellow,
    BgBlue,
    BgMagenta,
    BgCyan,
    BgWhite,
    Bold,
    Underlined,
    Reverse,
    CrossedOut,
    /// Pad the value to `width` without truncation. Comes in three flavors:
    /// `lalign(10)`, `ralign(10)`, `calign(10)`.
    Align { direction: Alignment, width: usize },
}

/// What an [`Attribute`] denotes: its kind and, for conditional attributes,
/// the text of the pattern the value must match.
pub struct AttributeView {
    pub kind: AttributeKind,
    pub must_match: Option<Seq<char>>,
}

/// A styling or layout operation, optionally gated by a pattern that the
/// unstyled value must match for the attribute to take effect.
#[derive(Debug)]
pub struct Attribute {
    pub kind: AttributeKind,
    pub must_match: Option<CompiledPattern>,
}

impl View for Attribute {
    type V = AttributeView;

    open spec fn view(&self) -> AttributeView {
        AttributeView {
            kind: self.kind,
            must_match: match self.must_match {
                Some(cp) => Some(cp@),
                None => None,
            },
        }
    }
}

/// An attribute specification that failed to parse, with its message.
#[derive(Debug)]
pub struct AttrError {
    message: String,
}

impl View for AttrError {
    type V = Seq<char>;

    closed spec fn view(&self) -> Seq<char> {
        self.message@
    }
}

impl AttrError {
    fn new(message: String) -> (r: AttrError)
        ensures
            r@ == message@,
    {
        AttrError { message }
    }

    pub fn message(&self) -> (r: &String)
        ensures
            r@ == self@,
    {
        &self.message
    }

    pub fn into_message(self) -> (r: String)
        ensures
            r@ == self@,
    {
        self.message
    }
}

/// Lowercasing of one ASCII letter; other characters are untouched.
pub open spec fn lower_char(c: char) -> char {
    if 'A' <= c && c <= 'Z' {
        (((c as u8) + 32) as char)
    } else {
        c
    }
}

pub open spec fn lower_seq(s: Seq<char>) -> Seq<char> {
    s.map_values(|c: char| lower_char(c))
}

fn lower_char_x(c: char) -> (r: char)
    ensures
        r == lower_char(c),
{
    if 'A' <= c && c <= 'Z' {
        ((c as u8) + 32) as char
    } else {
        c
    }
}

pub open spec fn ws_pred() -> spec_fn(char) -> bool {
    |c: char| spec_is_ws(c)
}

pub open spec fn eq_pred(q: char) -> spec_fn(char) -> bool {
    |c: char| c == q
}

/// The sequence with its leading characters matching `p` removed.
pub open spec fn trim_start_matching(s: Seq<char>, p: spec_fn(char) -> bool) -> Seq<char>
    decreases s.len(),
{
    if s.len() > 0 && p(s[0]) {
        trim_start_matching(s.drop_first(), p)
    } else {
        s
    }
}

/// The sequence with its trailing characters matching `p` removed.
pub open spec fn trim_end_matching(s: Seq<char>, p: spec_fn(char) -> bool) -> Seq<char>
    decreases s.len(),
{
    if s.len() > 0 && p(s.last()) {
        trim_end_matching(s.drop_last(), p)
    } else {
        s
    }
}

/// How a raw attribute argument is cleaned: whitespace trimmed from both
/// ends, then quote characters stripped from both ends (single before
/// double).
pub open spec fn clean_arg(s: Seq<char>) -> Seq<char> {
    let t = trim_end_matching(trim_start_matching(s, ws_pred()), ws_pred());
    let u = trim_start_matching(trim_start_matching(t, eq_pred('\'')), eq_pred('"'));
    trim_end_matching(trim_end_matching(u, eq_pred('\'')), eq_pred('"'))
}

/// Splitting `s` on `sep`, scanning from `cur` with the current piece
/// beginning at `start`.
pub open spec fn split_from(s: Seq<char>, sep: char, start: int, cur: int) -> Seq<Seq<char>>
    decreases s.len() - cur,
{
    if cur < 0 || start < 0 || start > cur {
        Seq::empty()
    } else if cur >= s.len() {
        seq![s.subrange(start, s.len() as int)]
    } else if s[cur] == sep {
        seq![s.subrange(start, cur)] + split_from(s, sep, cur + 1, cur + 1)
    } else {
        split_from(s, sep, start, cur + 1)
    }
}

/// The pieces of `s` between occurrences of `sep` (as `str::split` yields
/// them: an empty input gives one empty piece).
pub open spec fn split_chars(s: Seq<char>, sep: char) -> Seq<Seq<char>> {
    split_from(s, sep, 0, 0)
}

/// The cleaned argument list an attribute receives: the raw argument text
/// split on commas, each piece cleaned.
pub open spec fn spec_args_of(raw: Option<Seq<char>>) -> Seq<Seq<char>> {
    match raw {
        None => Seq::empty(),
        Some(r) => split_chars(r, ',').map_values(|p: Seq<char>| clean_arg(p)),
    }
}

pub open spec fn cond_needs_arg_msg() -> Seq<char> {
    "Expected conditional attribute to have at least 1 argument."@
}

pub open spec fn invalid_cond_pattern_msg(pattern: Seq<char>) -> Seq<char> {
    "expected first argument of conditional attribute to be a valid regular expression: "@ + pattern
}

pub open spec fn align_needs_arg_msg(name: Seq<char>) -> Seq<char> {
    "expected at least one argument for '"@ + name + "'"@
}

pub open spec fn align_arg_not_number_msg(name: Seq<char>) -> Seq<char> {
    "expected first argument to '"@ + name + "' to be a number"@
}

pub open spec fn unrecognized_attr_msg(name: Seq<char>) -> Seq<char> {
    "unrecognized attribute '"@ + name + "'"@
}

/// The kind a lowercased attribute name resolves to, for names that take no
/// arguments.
pub open spec fn plain_kind_of(n: Seq<char>) -> Option<AttributeKind> {
    if n == "black"@ {
        Some(AttributeKind::Black)
    } else if n == "red"@ {
        Some(AttributeKind::Red)
    } else if n == "green"@ {
        Some(AttributeKind::Green)
    } else if n == "yellow"@ {
        Some(AttributeKind::Yellow)
    } else if n == "blue"@ {
        Some(AttributeKind::Blue)
    } else if n == "magenta"@ {
        Some(AttributeKind::Magenta)
    } else if n == "cyan"@ {
        Some(AttributeKind::Cyan)
    } else if n == "white"@ {
        Some(AttributeKind::White)
    } else if n == "bg_black"@ || n == "bg-black"@ {
        Some(AttributeKind::BgBlack)
    } else if n == "bg_red"@ || n == "bg-red"@ {
        Some(AttributeKind::BgRed)
    } else if n == "bg_green"@ || n == "bg-green"@ {
        Some(AttributeKind::BgGreen)
    } else if n == "bg_yellow"@ || n == "bg-yellow"@ {
        Some(AttributeKind::BgYellow)
    } else if n == "bg_blue"@ || n == "bg-blue"@ {
        Some(AttributeKind::BgBlue)
    } else if n == "bg_magenta"@ || n == "bg-magenta"@ {
        Some(AttributeKind::BgMagenta)
    } else if n == "bg_cyan"@ || n == "bg-cyan"@ {
        Some(AttributeKind::BgCyan)
    } else if n == "bg_white"@ || n == "bg-white"@ {
        Some(AttributeKind::BgWhite)
    } else if n == "bold"@ {
        Some(AttributeKind::Bold)
    } else if n == "underlined"@ {
        Some(AttributeKind::Underlined)
    } else if n == "reverse"@ {
        Some(AttributeKind::Reverse)
    } else if n == "crossedout"@ || n == "crossed_out"@ || n == "crossed-out"@ {
        Some(AttributeKind::CrossedOut)
    } else {
        None
    }
}

/// The alignment direction an align attribute name selects, if any.
pub open spec fn align_dir_of(n: Seq<char>) -> Option<Alignment> {
    if n == "lalign"@ {
        Some(Alignment::Left)
    } else if n == "calign"@ {
        Some(Alignment::Center)
    } else if n == "ralign"@ {
        Some(Alignment::Right)
    } else {
        None
    }
}

/// What parsing an attribute specification yields: the attribute, or the
/// message of the failure. The name is case-insensitive; a leading `?` marks
/// the attribute conditional, and its first argument must then be a valid
/// pattern; align attributes take a numeric width argument next.
pub open spec fn attr_parse_spec(name: Seq<char>, raw_args: Option<Seq<char>>) -> Result<
    AttributeView,
    Seq<char>,
> {
    let conditional = name.len() > 0 && name[0] == '?';
    let base = if conditional { name.drop_first() } else { name };
    let lower = lower_seq(base);
    let args = spec_args_of(raw_args);
    if conditional && args.len() == 0 {
        Err(cond_needs_arg_msg())
    } else if conditional && !regex_valid(args[0]) {
        Err(invalid_cond_pattern_msg(args[0]))
    } else {
        let mm = if conditional { Some(args[0]) } else { None };
        let k: int = if conditional { 1 } else { 0 };
        if plain_kind_of(lower) is Some {
            Ok(AttributeView { kind: plain_kind_of(lower).unwrap(), must_match: mm })
        } else if align_dir_of(lower) is Some {
            if args.len() <= k {
                Err(align_needs_arg_msg(lower))
            } else {
                match parse_index_spec(args[k]) {
                    Some(w) => Ok(
                        AttributeView {
                            kind: AttributeKind::Align { direction: align_dir_of(lower).unwrap(), width: w },
                            must_match: mm,
                        },
                    ),
                    None => Err(align_arg_not_number_msg(lower)),
                }
            }
        } else {
            Err(unrecognized_attr_msg(name))
        }
    }
}

/// Whether an executable parse result denotes the given specified result.
pub open spec fn attr_result_matches(
    r: Result<Attribute, AttrError>,
    s: Result<AttributeView, Seq<char>>,
) -> bool {
    match r {
        Ok(a) => s is Ok && a@ == s->Ok_0,
        Err(e) => s is Err && e@ == s->Err_0,
    }
}

proof fn lemma_trim_start(s: Seq<char>, p: spec_fn(char) -> bool, k: int)
    requires
        0 <= k <= s.len(),
        forall|j: int| 0 <= j < k ==> p(s[j]),
        k == s.len() || !p(s[k]),
    ensures
        trim_start_matching(s, p) == s.skip(k),
    decreases k,
{
    if k == 0 {
        assert(s.skip(0) =~= s);
    } else {
        lemma_trim_start(s.drop_first(), p, k - 1);
        assert(s.drop_first().skip(k - 1) =~= s.skip(k));
    }
}

proof fn lemma_trim_end(s: Seq<char>, p: spec_fn(char) -> bool, k: int)
    requires
        0 <= k <= s.len(),
        forall|j: int| k <= j < s.len() ==> p(s[j]),
        k == 0 || !p(s[k - 1]),
    ensures
        trim_end_matching(s, p) == s.take(k),
    decreases s.len() - k,
{
    if k == s.len() {
        assert(s.take(k) =~= s);
        if s.len() > 0 && p(s.last()) {
            assert(false);
        }
    } else {
        assert(p(s.last()));
        lemma_trim_end(s.drop_last(), p, k);
    }
}

/// The characters of `v` with leading `q` characters removed.
fn trim_start_char(v: &Vec<char>, q: char) -> (r: Vec<char>)
    ensures
        r@ == trim_start_matching(v@, eq_pred(q)),
{
    let n = v.len();
    let mut k: usize = 0;
    while k < n && v[k] == q
        invariant
            0 <= k <= n,
            n == v@.len(),
            forall|j: int| 0 <= j < k ==> eq_pred(q)(v@[j]),
        decreases n - k,
    {
        k += 1;
    }
    proof {
        lemma_trim_start(v@, eq_pred(q), k as int);
    }
    vec_range(v, k, n)
}

/// The characters of `v` with trailing `q` characters removed.
fn trim_end_char(v: &Vec<char>, q: char) -> (r: Vec<char>)
    ensures
        r@ == trim_end_matching(v@, eq_pred(q)),
{
    let mut k: usize = v.len();
    while k > 0 && v[k - 1] == q
        invariant
            0 <= k <= v@.len(),
            forall|j: int| k <= j < v@.len() ==> eq_pred(q)(v@[j]),
        decreases k,
    {
        k -= 1;
    }
    proof {
        lemma_trim_end(v@, eq_pred(q), k as int);
    }
    vec_range(v, 0, k)
}

/// The characters of `v` with whitespace removed from both ends.
fn trim_ws(v: &Vec<char>) -> (r: Vec<char>)
    ensures
        r@ == trim_end_matching(trim_start_matching(v@, ws_pred()), ws_pred()),
{
    let n = v.len();
    let mut k: usize = 0;
    while k < n && is_ws(v[k])
        invariant
            0 <= k <= n,
            n == v@.len(),
            forall|j: int| 0 <= j < k ==> ws_pred()(v@[j]),
        decreases n - k,
    {
        k += 1;
    }
    proof {
        lemma_trim_start(v@, ws_pred(), k as int);
    }
    let start = vec_range(v, k, n);
    let mut m: usize = start.len();
    while m > 0 && is_ws(start[m - 1])
        invariant
            0 <= m <= start@.len(),
            forall|j: int| m <= j < start@.len() ==> ws_pred()(start@[j]),
        decreases m,
    {
        m -= 1;
    }
    proof {
        lemma_trim_end(start@, ws_pred(), m as int);
    }
    vec_range(&start, 0, m)
}

/// The cleaned form of one raw argument piece.
fn clean_arg_x(v: &Vec<char>) -> (r: Vec<char>)
    ensures
        r@ == clean_arg(v@),
{
    let t = trim_ws(v);
    let u = trim_start_char(&trim_start_char(&t, '\''), '"');
    trim_end_char(&trim_end_char(&u, '\''), '"')
}

/// The subrange `v[a..b]` as a fresh vector.
fn vec_range(v: &Vec<char>, a: usize, b: usize) -> (r: Vec<char>)
    requires
        a <= b <= v@.len(),
    ensures
        r@ == v@.subrange(a as int, b as int),
{
    let mut r: Vec<char> = Vec::new();
    let mut i: usize = a;
    while i < b
        invariant
            a <= i <= b <= v@.len(),
            r@ == v@.subrange(a as int, i as int),
        decreases b - i,
    {
        r.push(v[i]);
        proof {
            assert(r@ =~= v@.subrange(a as int, i + 1));
        }
        i += 1;
    }
    r
}

/// Splits `v` on `sep`, as `str::split` would.
fn split_chars_x(v: &Vec<char>, sep: char) -> (r: Vec<Vec<char>>)
    ensures
        r.deep_view() == split_chars(v@, sep),
{
    let n = v.len();
    let mut pieces: Vec<Vec<char>> = Vec::new();
    let mut start: usize = 0;
    let mut cur: usize = 0;
    while cur < n
        invariant
            0 <= start <= cur <= n,
            n == v@.len(),
            split_chars(v@, sep) == pieces.deep_view() + split_from(v@, sep, start as int, cur as int),
        decreases n - cur,
    {
        if v[cur] == sep {
            let piece = vec_range(v, start, cur);
            let ghost old_dv = pieces.deep_view();
            pieces.push(piece);
            proof {
                assert(pieces.deep_view() =~~= old_dv.push(v@.subrange(start as int, cur as int)));
                assert(split_from(v@, sep, start as int, cur as int) == seq![
                    v@.subrange(start as int, cur as int),
                ] + split_from(v@, sep, cur + 1, cur + 1));
                assert(old_dv + split_from(v@, sep, start as int, cur as int) =~~= pieces.deep_view()
                    + split_from(v@, sep, cur + 1, cur + 1));
            }
            start = cur + 1;
        }
        cur += 1;
    }
    let piece = vec_range(v, start, n);
    let ghost old_dv = pieces.deep_view();
    pieces.push(piece);
    proof {
        assert(pieces.deep_view() =~~= old_dv.push(v@.subrange(start as int, n as int)));
        assert(split_from(v@, sep, start as int, n as int) == seq![
            v@.subrange(start as int, n as int),
        ]);
        assert(split_chars(v@, sep) =~~= pieces.deep_view());
    }
    pieces
}

/// Builds the cleaned argument list from the raw argument text.
fn args_of(raw_args: &Option<String>) -> (r: Vec<Vec<char>>)
    ensures
        r.deep_view() == spec_args_of(
            match raw_args {
                Some(s) => Some(s@),
                None => None,
            },
        ),
{
    match raw_args {
        None => {
            let r: Vec<Vec<char>> = Vec::new();
            proof {
                assert(r.deep_view() =~~= Seq::<Seq<char>>::empty());
            }
            r
        },
        Some(s) => {
            let chars = str_to_chars(s.as_str());
            let pieces = split_chars_x(&chars, ',');
            let mut cleaned: Vec<Vec<char>> = Vec::new();
            let mut i: usize = 0;
            while i < pieces.len()
                invariant
                    0 <= i <= pieces@.len(),
                    cleaned@.len() == i,
                    forall|j: int|
                        0 <= j < i ==> cleaned.deep_view()[j] == clean_arg(pieces.deep_view()[j]),
                decreases pieces@.len() - i,
            {
                let c = clean_arg_x(&pieces[i]);
                proof {
                    assert(pieces.deep_view()[i as int] =~= pieces@[i as int]@);
                    assert(c@ == clean_arg(pieces.deep_view()[i as int]));
                }
                let ghost oldc = cleaned.deep_view();
                cleaned.push(c);
                proof {
                    assert(cleaned.deep_view()[i as int] =~= c@);
                    assert forall|j: int| 0 <= j < i + 1 implies cleaned.deep_view()[j] == clean_arg(
                        pieces.deep_view()[j],
                    ) by {
                        if j < i {
                            assert(cleaned.deep_view()[j] == oldc[j]);
                        }
                    }
                }
                i += 1;
            }
            proof {
                let f = |p: Seq<char>| clean_arg(p);
                assert forall|j: int|
                    0 <= j < pieces.deep_view().len() implies pieces.deep_view().map_values(f)[j]
                    == cleaned.deep_view()[j] by {
                    assert(pieces.deep_view().map_values(f)[j] == f(pieces.deep_view()[j]));
                }
                assert(cleaned.deep_view() =~~= spec_args_of(Some(s@)));
            }
            cleaned
        },
    }
}

impl Attribute {
    /// Resolves a raw attribute name with optional raw arguments into an
    /// attribute. Returns exactly what [`attr_parse_spec`] prescribes: the
    /// attribute on recognized names with well-formed arguments, and the
    /// corresponding message otherwise.
    pub fn parse(val: String, raw_args: Option<String>) -> (r: Result<Attribute, AttrError>)
        ensures
            attr_result_matches(
                r,
                attr_parse_spec(
                    val@,
                    match raw_args {
                        Some(s) => Some(s@),
                        None => None,
                    },
                ),
            ),
    {
        let chars = str_to_chars(val.as_str());
        let conditional = chars.len() > 0 && chars[0] == '?';
        let base_start: usize = if conditional { 1 } else { 0 };

        let mut lower = String::new();
        let mut i: usize = base_start;
        while i < chars.len()
            invariant
                base_start <= i <= chars@.len(),
                lower@ == lower_seq(chars@.skip(base_start as int).take(i - base_start)),
            decreases chars@.len() - i,
        {
            push_char(&mut lower, lower_char_x(chars[i]));
            proof {
                assert(lower@ =~= lower_seq(chars@.skip(base_start as int).take(i + 1 - base_start)));
            }
            i += 1;
        }
        proof {
            assert(chars@.skip(base_start as int).take(chars@.len() - base_start) =~= chars@.skip(
                base_start as int,
            ));
            if conditional {
                assert(chars@.skip(1) =~= val@.drop_first());
            } else {
                assert(chars@.skip(0) =~= val@);
            }
        }

        let args = args_of(&raw_args);
        proof {
            assert(args.deep_view().len() == args@.len());
        }

        let mut must_match: Option<CompiledPattern> = None;
        let mut arg_cursor: usize = 0;
        if conditional {
            if args.len() == 0 {
                return Err(AttrError::new("Expected conditional attribute to have at least 1 argument.".to_owned()));
            }
            let pattern = string_from_range(&args[0], 0, args[0].len());
            proof {
                assert(args.deep_view()[0] =~= args@[0]@);
                assert(pattern@ =~= args@[0]@);
            }
            match CompiledPattern::compile(pattern.as_str()) {
                Some(cp) => {
                    must_match = Some(cp);
                    arg_cursor = 1;
                },
                None => {
                    let mut m = "expected first argument of conditional attribute to be a valid regular expression: ".to_owned();
                    m.append(pattern.as_str());
                    return Err(AttrError::new(m));
                },
            }
        }

        let kind_plain = lookup_plain_kind(&lower);
        if let Some(kind) = kind_plain {
            return Ok(Attribute { kind, must_match });
        }
        let dir = lookup_align_dir(&lower);
        if let Some(direction) = dir {
            if args.len() <= arg_cursor {
                let mut m = "expected at least one argument for '".to_owned();
                m.append(lower.as_str());
                m.append("'");
                return Err(AttrError::new(m));
            }
            proof {
                assert(args.deep_view()[arg_cursor as int] =~= args@[arg_cursor as int]@);
            }
            match parse_index(&args[arg_cursor]) {
                Some(width) => {
                    return Ok(Attribute { kind: AttributeKind::Align { direction, width }, must_match });
                },
                None => {
                    let mut m = "expected first argument to '".to_owned();
                    m.append(lower.as_str());
                    m.append("' to be a number");
                    return Err(AttrError::new(m));
                },
            }
        }
        let mut m = "unrecognized attribute '".to_owned();
        m.append(val.as_str());
        m.append("'");
        Err(AttrError::new(m))
    }
}

/// Looks up an argument-free attribute kind by its lowercased name.
fn lookup_plain_kind(lower: &String) -> (r: Option<AttributeKind>)
    ensures
        r == plain_kind_of(lower@),
{
    if *lower == "black".to_owned() {
        Some(AttributeKind::Black)
    } else if *lower == "red".to_owned() {
        Some(AttributeKind::Red)
    } else if *lower == "green".to_owned() {
        Some(AttributeKind::Green)
    } else if *lower == "yellow".to_owned() {
        Some(AttributeKind::Yellow)
    } else if *lower == "blue".to_owned() {
        Some(AttributeKind::Blue)
    } else if *lower == "magenta".to_owned() {
        Some(AttributeKind::Magenta)
    } else if *lower == "cyan".to_owned() {
        Some(AttributeKind::Cyan)
    } else if *lower == "white".to_owned() {
        Some(AttributeKind::White)
    } else if *lower == "bg_black".to_owned() || *lower == "bg-black".to_owned() {
        Some(AttributeKind::BgBlack)
    } else if *lower == "bg_red".to_owned() || *lower == "bg-red".to_owned() {
        Some(AttributeKind::BgRed)
    } else if *lower == "bg_green".to_owned() || *lower == "bg-green".to_owned() {
        Some(AttributeKind::BgGreen)
    } else if *lower == "bg_yellow".to_owned() || *lower == "bg-yellow".to_owned() {
        Some(AttributeKind::BgYellow)
    } else if *lower == "bg_blue".to_owned() || *lower == "bg-blue".to_owned() {
        Some(AttributeKind::BgBlue)
    } else if *lower == "bg_magenta".to_owned() || *lower == "bg-magenta".to_owned() {
        Some(AttributeKind::BgMagenta)
    } else if *lower == "bg_cyan".to_owned() || *lower == "bg-cyan".to_owned() {
        Some(AttributeKind::BgCyan)
    } else if *lower == "bg_white".to_owned() || *lower == "bg-white".to_owned() {
        Some(AttributeKind::BgWhite)
    } else if *lower == "bold".to_owned() {
        Some(AttributeKind::Bold)
    } else if *lower == "underlined".to_owned() {
        Some(AttributeKind::Underlined)
    } else if *lower == "reverse".to_owned() {
        Some(AttributeKind::Reverse)
    } else if *lower == "crossedout".to_owned() || *lower == "crossed_out".to_owned() || *lower
        == "crossed-out".to_owned() {
        Some(AttributeKind::CrossedOut)
    } else {
        None
    }
}

/// Looks up an alignment direction by its lowercased attribute name.
fn lookup_align_dir(lower: &String) -> (r: Option<Alignment>)
    ensures
        r == align_dir_of(lower@),
{
    if *lower == "lalign".to_owned() {
        Some(Alignment::Left)
    } else if *lower == "calign".to_owned() {
        Some(Alignment::Center)
    } else if *lower == "ralign".to_owned() {
        Some(Alignment::Right)
    } else {
        None
    }
}

} // verus!

verus! {

/// `n` spaces.
pub open spec fn spaces(n: nat) -> Seq<char> {
    Seq::new(n, |i: int| ' ')
}

/// Padding a value to `width` characters without truncation: left alignment
/// appends spaces, right alignment prepends them, centering splits them with
/// the smaller half on the left.
pub open spec fn pad_spec(s: Seq<char>, direction: Alignment, width: usize) -> Seq<char> {
    if s.len() >= width {
        s
    } else {
        let fill = (width - s.len()) as nat;
        match direction {
            Alignment::Left => s + spaces(fill),
            Alignment::Right => spaces(fill) + s,
            Alignment::Center => spaces((fill / 2) as nat) + s + spaces((fill - fill / 2) as nat),
        }
    }
}

/// Pads `s` to `width` characters in the given direction; text longer than
/// the width is returned unchanged.
pub fn pad(s: &str, direction: Alignment, width: usize) -> (r: String)
    ensures
        r@ == pad_spec(s@, direction, width),
{
    let n = s.unicode_len();
    if n >= width {
        return s.to_owned();
    }
    let fill = width - n;
    let left: usize = match direction {
        Alignment::Left => 0,
        Alignment::Right => fill,
        Alignment::Center => fill / 2,
    };
    let right: usize = fill - left;
    let mut out = String::new();
    let mut i: usize = 0;
    while i < left
        invariant
            0 <= i <= left,
            out@ == spaces(i as nat),
        decreases left - i,
    {
        push_char(&mut out, ' ');
        proof {
            assert(out@ =~= spaces((i + 1) as nat));
        }
        i += 1;
    }
    out.append(s);
    let mut j: usize = 0;
    while j < right
        invariant
            0 <= j <= right,
            out@ == spaces(left as nat) + s@ + spaces(j as nat),
        decreases right - j,
    {
        push_char(&mut out, ' ');
        proof {
            assert(out@ =~= spaces(left as nat) + s@ + spaces((j + 1) as nat));
        }
        j += 1;
    }
    proof {
        if direction is Left {
            assert(out@ =~= s@ + spaces(fill as nat));
        }
        if direction is Right {
            assert(out@ =~= spaces(fill as nat) + s@);
        }
    }
    out
}

/// How one non-align attribute kind updates the accumulated style.
pub open spec fn spec_style_with(s: StyleState, k: AttributeKind) -> StyleState {
    match k {
        AttributeKind::Black => StyleState { fg: Some(0u8), ..s },
        AttributeKind::Red => StyleState { fg: Some(1u8), ..s },
        AttributeKind::Green => StyleState { fg: Some(2u8), ..s },
        AttributeKind::Yellow => StyleState { fg: Some(3u8), ..s },
        AttributeKind::Blue => StyleState { fg: Some(4u8), ..s },
        AttributeKind::Magenta => StyleState { fg: Some(5u8), ..s },
        AttributeKind::Cyan => StyleState { fg: Some(6u8), ..s },
        AttributeKind::White => StyleState { fg: Some(7u8), ..s },
        AttributeKind::BgBlack => StyleState { bg: Some(0u8), ..s },
        AttributeKind::BgRed => StyleState { bg: Some(1u8), ..s },
        AttributeKind::BgGreen => StyleState { bg: Some(2u8), ..s },
        AttributeKind::BgYellow => StyleState { bg: Some(3u8), ..s },
        AttributeKind::BgBlue => StyleState { bg: Some(4u8), ..s },
        AttributeKind::BgMagenta => StyleState { bg: Some(5u8), ..s },
        AttributeKind::BgCyan => StyleState { bg: Some(6u8), ..s },
        AttributeKind::BgWhite => StyleState { bg: Some(7u8), ..s },
        AttributeKind::Bold => StyleState { bold: true, ..s },
        AttributeKind::Underlined => StyleState { underlined: true, ..s },
        AttributeKind::Reverse => StyleState { reverse: true, ..s },
        AttributeKind::CrossedOut => StyleState { crossed_out: true, ..s },
        AttributeKind::Align { .. } => s,
    }
}

fn style_with(s: StyleState, k: AttributeKind) -> (r: StyleState)
    ensures
        r == spec_style_with(s, k),
{
    match k {
        AttributeKind::Black => StyleState { fg: Some(0u8), ..s },
        AttributeKind::Red => StyleState { fg: Some(1u8), ..s },
        AttributeKind::Green => StyleState { fg: Some(2u8), ..s },
        AttributeKind::Yellow => StyleState { fg: Some(3u8), ..s },
        AttributeKind::Blue => StyleState { fg: Some(4u8), ..s },
        AttributeKind::Magenta => StyleState { fg: Some(5u8), ..s },
        AttributeKind::Cyan => StyleState { fg: Some(6u8), ..s },
        AttributeKind::White => StyleState { fg: Some(7u8), ..s },
        AttributeKind::BgBlack => StyleState { bg: Some(0u8), ..s },
        AttributeKind::BgRed => StyleState { bg: Some(1u8), ..s },
        AttributeKind::BgGreen => StyleState { bg: Some(2u8), ..s },
        AttributeKind::BgYellow => StyleState { bg: Some(3u8), ..s },
        AttributeKind::BgBlue => StyleState { bg: Some(4u8), ..s },
        AttributeKind::BgMagenta => StyleState { bg: Some(5u8), ..s },
        AttributeKind::BgCyan => StyleState { bg: Some(6u8), ..s },
        AttributeKind::BgWhite => StyleState { bg: Some(7u8), ..s },
        AttributeKind::Bold => StyleState { bold: true, ..s },
        AttributeKind::Underlined => StyleState { underlined: true, ..s },
        AttributeKind::Reverse => StyleState { reverse: true, ..s },
        AttributeKind::CrossedOut => StyleState { crossed_out: true, ..s },
        AttributeKind::Align { .. } => s,
    }
}

/// Whether an attribute is skipped for this value: it carries a pattern that
/// the original, unstyled value fails to match.
pub open spec fn skip_attr(a: AttributeView, orig: Seq<char>) -> bool {
    match a.must_match {
        Some(p) => !regex_match(p, orig),
        None => false,
    }
}

/// How applying `attrs` over the state `(content, style)` relates to the
/// final output `out`, for the original value `orig` (which conditional
/// attributes test). Align attributes render the accumulated state, pad the
/// rendered text and reset the style; other attributes update the style; the
/// final state is rendered. Rendering is relational (see
/// [`crate::style::render_rel`]), so the relation pins `out` exactly
/// wherever no color or emphasis is left in effect.
pub open spec fn apply_rel(
    orig: Seq<char>,
    content: Seq<char>,
    style: StyleState,
    attrs: Seq<AttributeView>,
    out: Seq<char>,
) -> bool
    decreases attrs.len(),
{
    if attrs.len() == 0 {
        render_rel(style, content, out)
    } else {
        let a = attrs[0];
        let rest = attrs.drop_first();
        if skip_attr(a, orig) {
            apply_rel(orig, content, style, rest, out)
        } else {
            match a.kind {
                AttributeKind::Align { direction, width } => exists|rend: Seq<char>|
                    render_rel(style, content, rend) && apply_rel(
                        orig,
                        pad_spec(rend, direction, width),
                        StyleState::spec_empty(),
                        rest,
                        out,
                    ),
                _ => apply_rel(orig, content, spec_style_with(style, a.kind), rest, out),
            }
        }
    }
}

/// The views of a sequence of attributes.
pub open spec fn attrs_view(s: Seq<Attribute>) -> Seq<AttributeView> {
    s.map_values(|a: Attribute| a@)
}

impl Attribute {
    /// Applies the attributes to `txt` left to right, as [`apply_rel`]
    /// relates: conditional attributes whose pattern the original value does
    /// not match are skipped; alignment pads the text rendered so far and
    /// resets the styling; color and emphasis accumulate and wrap the final
    /// text through the terminal renderer.
    pub fn apply(txt: &str, attributes: &[Attribute]) -> (r: String)
        ensures
            apply_rel(txt@, txt@, StyleState::spec_empty(), attrs_view(attributes@), r@),
    {
        let ghost atv = attrs_view(attributes@);
        let mut content = txt.to_owned();
        let mut style = StyleState::empty();
        proof {
            assert(atv.skip(0) =~= atv);
        }
        let mut i: usize = 0;
        while i < attributes.len()
            invariant
                0 <= i <= attributes@.len(),
                atv == attrs_view(attributes@),
                atv.len() == attributes@.len(),
                forall|out: Seq<char>|
                    apply_rel(txt@, content@, style, #[trigger] atv.skip(i as int), out)
                        ==> apply_rel(txt@, txt@, StyleState::spec_empty(), atv, out),
            decreases attributes@.len() - i,
        {
            let ghost old_content = content@;
            let ghost old_style = style;
            let a = &attributes[i];
            proof {
                assert(atv.skip(i as int)[0] == a@);
                assert(atv.skip(i as int).drop_first() =~= atv.skip(i + 1));
            }
            let mut skipped = false;
            if let Some(cp) = &a.must_match {
                if !cp.is_match(txt) {
                    skipped = true;
                }
            }
            if !skipped {
                match a.kind {
                    AttributeKind::Align { direction, width } => {
                        let rend = render_styled(&style, content.as_str());
                        content = pad(rend.as_str(), direction, width);
                        style = StyleState::empty();
                        proof {
                            assert forall|out: Seq<char>|
                                #[trigger] apply_rel(txt@, content@, style, atv.skip(i + 1), out)
                                    implies apply_rel(
                                txt@,
                                old_content,
                                old_style,
                                atv.skip(i as int),
                                out,
                            ) by {
                                assert(render_rel(old_style, old_content, rend@) && apply_rel(
                                    txt@,
                                    pad_spec(rend@, direction, width),
                                    StyleState::spec_empty(),
                                    atv.skip(i as int).drop_first(),
                                    out,
                                ));
                            }
                        }
                    },
                    _ => {
                        style = style_with(style, a.kind);
                    },
                }
            }
            proof {
                assert forall|out: Seq<char>|
                    #[trigger] apply_rel(txt@, content@, style, atv.skip(i + 1), out) implies apply_rel(
                    txt@,
                    txt@,
                    StyleState::spec_empty(),
                    atv,
                    out,
                ) by {
                    assert(apply_rel(txt@, old_content, old_style, atv.skip(i as int), out));
                }
            }
            i += 1;
        }
        proof {
            assert(atv.skip(atv.len() as int) =~= Seq::<AttributeView>::empty());
        }
        let out = render_styled(&style, content.as_str());
        out
    }
}

} // verus!
