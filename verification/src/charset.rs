//! Character-level grammar rules: the identifier charset for anchor names,
//! whitespace classification, and decimal index parsing.

use vstd::prelude::*;

verus! {

/// A character that may appear in an anchor name.
pub open spec fn spec_ident_char(c: char) -> bool {
    ('a' <= c && c <= 'z') || ('A' <= c && c <= 'Z') || ('0' <= c && c <= '9') || c == '_'
}

/// A valid anchor name: non-empty and made of identifier characters only.
pub open spec fn spec_name_valid(s: Seq<char>) -> bool {
    s.len() > 0 && forall|i: int| 0 <= i < s.len() ==> spec_ident_char(s[i])
}

/// ASCII whitespace, as the parser skips it inside anchor bodies.
pub open spec fn spec_is_ws(c: char) -> bool {
    c == ' ' || c == '\t' || c == '\n' || c == '\r' || c == '\x0c'
}

#[verifier::when_used_as_spec(spec_ident_char)]
pub fn ident_char(c: char) -> (r: bool)
    ensures
        r == spec_ident_char(c),
{
    ('a' <= c && c <= 'z') || ('A' <= c && c <= 'Z') || ('0' <= c && c <= '9') || c == '_'
}

#[verifier::when_used_as_spec(spec_is_ws)]
pub fn is_ws(c: char) -> (r: bool)
    ensures
        r == spec_is_ws(c),
{
    c == ' ' || c == '\t' || c == '\n' || c == '\r' || c == '\x0c'
}

/// Validates properties computed during parsing, such as anchor names.
pub struct Rules {}

impl Rules {
    pub fn new() -> (r: Rules) {
        Rules {  }
    }

    /// Is the anchor name valid: non-empty and within the identifier charset.
    pub fn name_is_valid(&self, name: &str) -> (r: bool)
        ensures
            r == spec_name_valid(name@),
    {
        let n = name.unicode_len();
        if n == 0 {
            return false;
        }
        let mut i: usize = 0;
        while i < n
            invariant
                0 <= i <= n,
                n == name@.len(),
                forall|j: int| 0 <= j < i ==> spec_ident_char(name@[j]),
            decreases n - i,
        {
            if !ident_char(name.get_char(i)) {
                return false;
            }
            i += 1;
        }
        true
    }
}

/// The numeric value of a sequence of decimal digits, most significant first.
pub open spec fn digits_val(s: Seq<char>) -> int
    decreases s.len(),
{
    if s.len() == 0 {
        0
    } else {
        digits_val(s.drop_last()) * 10 + (s.last() as int - '0' as int)
    }
}

pub open spec fn spec_is_digit(c: char) -> bool {
    '0' <= c && c <= '9'
}

pub open spec fn all_digits(s: Seq<char>) -> bool {
    forall|i: int| 0 <= i < s.len() ==> spec_is_digit(s[i])
}

/// What a decimal index token denotes: `Some` exactly for non-empty,
/// all-digit sequences whose value fits in `usize`.
pub open spec fn parse_index_spec(s: Seq<char>) -> Option<usize> {
    if s.len() > 0 && all_digits(s) && digits_val(s) <= usize::MAX {
        Some(digits_val(s) as usize)
    } else {
        None
    }
}

proof fn lemma_digits_val_nonneg(s: Seq<char>)
    requires
        all_digits(s),
    ensures
        digits_val(s) >= 0,
    decreases s.len(),
{
    if s.len() > 0 {
        assert(all_digits(s.drop_last()));
        lemma_digits_val_nonneg(s.drop_last());
    }
}

/// Once a digit prefix exceeds any bound, the full number does too.
proof fn lemma_digits_val_prefix(s: Seq<char>, i: int)
    requires
        all_digits(s),
        0 <= i <= s.len(),
    ensures
        digits_val(s) >= digits_val(s.take(i)),
    decreases s.len() - i,
{
    if i < s.len() {
        lemma_digits_val_prefix(s, i + 1);
        let t1 = s.take(i + 1);
        assert(t1.drop_last() =~= s.take(i));
        assert(digits_val(t1) == digits_val(s.take(i)) * 10 + (s[i] as int - '0' as int));
        assert(all_digits(s.take(i)));
        lemma_digits_val_nonneg(s.take(i));
    } else {
        assert(s.take(i) =~= s);
    }
}

/// Parses a decimal index. Returns `Some` exactly when the text is a
/// non-empty digit string whose value fits in `usize`.
pub fn parse_index(s: &Vec<char>) -> (r: Option<usize>)
    ensures
        r == parse_index_spec(s@),
{
    if s.len() == 0 {
        return None;
    }
    let mut acc: usize = 0;
    let mut i: usize = 0;
    while i < s.len()
        invariant
            0 <= i <= s@.len(),
            all_digits(s@.take(i as int)),
            acc == digits_val(s@.take(i as int)),
        decreases s@.len() - i,
    {
        let c = s[i];
        if !('0' <= c && c <= '9') {
            assert(!all_digits(s@));
            return None;
        }
        let d: usize = (c as usize) - ('0' as usize);
        proof {
            assert(s@.take(i + 1).drop_last() =~= s@.take(i as int));
            assert(digits_val(s@.take(i + 1)) == acc * 10 + d);
        }
        if acc > (usize::MAX - d) / 10 {
            proof {
                assert(all_digits(s@.take(i + 1)));
                if all_digits(s@) {
                    lemma_digits_val_prefix(s@, i + 1);
                }
                assert(digits_val(s@.take(i + 1)) > usize::MAX) by {
                    assert(acc >= (usize::MAX - d) / 10 + 1);
                    assert(((usize::MAX - d) / 10 + 1) * 10 + d > usize::MAX) by (nonlinear_arith)
                        requires
                            0 <= d <= 9,
                            acc >= (usize::MAX - d) / 10 + 1,
                    ;
                    assert(acc * 10 + d >= ((usize::MAX - d) / 10 + 1) * 10 + d) by (nonlinear_arith)
                        requires
                            acc >= (usize::MAX - d) / 10 + 1,
                            d >= 0,
                    ;
                };
            }
            return None;
        }
        acc = acc * 10 + d;
        i += 1;
    }
    proof {
        assert(s@.take(i as int) =~= s@);
    }
    Some(acc)
}

} // verus!
