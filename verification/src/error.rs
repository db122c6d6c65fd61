//! Structured template parse failures and their diagnostic rendering:
//! a header line, the scanned template, and a caret under the offending
//! character index.

use vstd::prelude::*;
use crate::strutil::{push_char, string_from_range};

verus! {

/// What a [`ParseError`] denotes: a message, the scanned template text, and
/// the index of the character that caused the failure.
pub struct ParseErrorView {
    pub message: Seq<char>,
    pub partial_template: Seq<char>,
    pub char_index: usize,
}

/// A fatal template parse failure, carrying the offending character index
/// and the scanned character sequence for caret rendering.
#[derive(Debug)]
pub struct ParseError {
    message: String,
    partial_template: String,
    char_index: usize,
}

impl View for ParseError {
    type V = ParseErrorView;

    closed spec fn view(&self) -> ParseErrorView {
        ParseErrorView {
            message: self.message@,
            partial_template: self.partial_template@,
            char_index: self.char_index,
        }
    }
}

pub open spec fn missing_escapee_msg() -> Seq<char> {
    "A character immediately following the '\\' escape is required."@
}

pub open spec fn invalid_anchor_start_msg() -> Seq<char> {
    "Expected '{' to immediately follow '$'."@
}

pub open spec fn invalid_anchor_name_msg() -> Seq<char> {
    "Anchor name cannot be blank and must satisfy the following regular expression: [a-zA-Z0-9_]"@
}

pub open spec fn unclosed_anchor_msg() -> Seq<char> {
    "Expected a '}' character to close anchor declaration."@
}

pub open spec fn invalid_index_msg() -> Seq<char> {
    "Expected index to be numeric."@
}

pub open spec fn invalid_indexing_operation_msg() -> Seq<char> {
    "Invalid index operation. Example of a valid index operation:\n    - '${foo[0]}'\n"@
}

pub open spec fn invalid_default_value_operation_msg() -> Seq<char> {
    "Invalid default value operation. Examples of a valid index operations:\n    - Default to string literal: '${foo || \"bar\"}'\n    - Default to another anchor: '${foo || bar}'\n    - Default to another indexed-anchor: '${foo || bar[0]}'\n    - Chaining defaults: '${foo || bar || baz}'\n"@
}

pub open spec fn default_str_literal_missing_closing_quote_msg() -> Seq<char> {
    "Default string literal missing closing quote."@
}

pub open spec fn default_parsing_disallowed_char_msg() -> Seq<char> {
    "Invalid syntax: encountered a disallowed character while parsing default value operation."@
}

pub open spec fn index_parsing_eol_msg() -> Seq<char> {
    "Invalid syntax: template string ends prematurely while parsing an index operation."@
}

pub open spec fn default_parsing_eol_msg() -> Seq<char> {
    "Invalid syntax: template string ends prematurely while parsing default values."@
}

pub open spec fn default_disallowed_with_required_msg() -> Seq<char> {
    "Default values are disallowed for anchors marked as required."@
}

pub open spec fn string_parameter_missing_closing_quote_msg() -> Seq<char> {
    "String parameter of attribute is missing a closing quote."@
}

pub open spec fn attribute_unclosed_msg() -> Seq<char> {
    "Expected a ')' character to close the attribute list."@
}

pub open spec fn attribute_end_msg() -> Seq<char> {
    "Expected a ':' character to immediately follow the attribute list."@
}

/// The error view built by every constructor: a fixed message over the
/// scanned characters and the offending index.
pub open spec fn error_view(msg: Seq<char>, char_index: usize, chars: Seq<char>) -> ParseErrorView {
    ParseErrorView { message: msg, partial_template: chars, char_index: char_index }
}

impl ParseError {
    fn with_message(message: String, char_index: usize, chars: &[char]) -> (r: ParseError)
        ensures
            r@ == error_view(message@, char_index, chars@),
    {
        let partial = string_from_slice(chars);
        ParseError { message, partial_template: partial, char_index }
    }

    pub fn missing_escapee(char_index: usize, chars: &[char]) -> (r: ParseError)
        ensures
            r@ == error_view(missing_escapee_msg(), char_index, chars@),
    {
        Self::with_message("A character immediately following the '\\' escape is required.".to_owned(), char_index, chars)
    }

    pub fn invalid_anchor_start(char_index: usize, chars: &[char]) -> (r: ParseError)
        ensures
            r@ == error_view(invalid_anchor_start_msg(), char_index, chars@),
    {
        Self::with_message("Expected '{' to immediately follow '$'.".to_owned(), char_index, chars)
    }

    pub fn invalid_anchor_name(char_index: usize, chars: &[char]) -> (r: ParseError)
        ensures
            r@ == error_view(invalid_anchor_name_msg(), char_index, chars@),
    {
        Self::with_message("Anchor name cannot be blank and must satisfy the following regular expression: [a-zA-Z0-9_]".to_owned(), char_index, chars)
    }

    pub fn unclosed_anchor(char_index: usize, chars: &[char]) -> (r: ParseError)
        ensures
            r@ == error_view(unclosed_anchor_msg(), char_index, chars@),
    {
        Self::with_message("Expected a '}' character to close anchor declaration.".to_owned(), char_index, chars)
    }

    pub fn invalid_index(char_index: usize, chars: &[char]) -> (r: ParseError)
        ensures
            r@ == error_view(invalid_index_msg(), char_index, chars@),
    {
        Self::with_message("Expected index to be numeric.".to_owned(), char_index, chars)
    }

    pub fn invalid_indexing_operation(char_index: usize, chars: &[char]) -> (r: ParseError)
        ensures
            r@ == error_view(invalid_indexing_operation_msg(), char_index, chars@),
    {
        Self::with_message("Invalid index operation. Example of a valid index operation:\n    - '${foo[0]}'\n".to_owned(), char_index, chars)
    }

    pub fn invalid_default_value_operation(char_index: usize, chars: &[char]) -> (r: ParseError)
        ensures
            r@ == error_view(invalid_default_value_operation_msg(), char_index, chars@),
    {
        Self::with_message("Invalid default value operation. Examples of a valid index operations:\n    - Default to string literal: '${foo || \"bar\"}'\n    - Default to another anchor: '${foo || bar}'\n    - Default to another indexed-anchor: '${foo || bar[0]}'\n    - Chaining defaults: '${foo || bar || baz}'\n".to_owned(), char_index, chars)
    }

    pub fn default_str_literal_missing_closing_quote(char_index: usize, chars: &[char]) -> (r: ParseError)
        ensures
            r@ == error_view(default_str_literal_missing_closing_quote_msg(), char_index, chars@),
    {
        Self::with_message("Default string literal missing closing quote.".to_owned(), char_index, chars)
    }

    pub fn default_parsing_disallowed_char(char_index: usize, chars: &[char]) -> (r: ParseError)
        ensures
            r@ == error_view(default_parsing_disallowed_char_msg(), char_index, chars@),
    {
        Self::with_message("Invalid syntax: encountered a disallowed character while parsing default value operation.".to_owned(), char_index, chars)
    }

    pub fn index_parsing_eol(char_index: usize, chars: &[char]) -> (r: ParseError)
        ensures
            r@ == error_view(index_parsing_eol_msg(), char_index, chars@),
    {
        Self::with_message("Invalid syntax: template string ends prematurely while parsing an index operation.".to_owned(), char_index, chars)
    }

    pub fn default_parsing_eol(char_index: usize, chars: &[char]) -> (r: ParseError)
        ensures
            r@ == error_view(default_parsing_eol_msg(), char_index, chars@),
    {
        Self::with_message("Invalid syntax: template string ends prematurely while parsing default values.".to_owned(), char_index, chars)
    }

    pub fn default_disallowed_with_required(char_index: usize, chars: &[char]) -> (r: ParseError)
        ensures
            r@ == error_view(default_disallowed_with_required_msg(), char_index, chars@),
    {
        Self::with_message("Default values are disallowed for anchors marked as required.".to_owned(), char_index, chars)
    }

    pub fn string_parameter_missing_closing_quote(char_index: usize, chars: &[char]) -> (r: ParseError)
        ensures
            r@ == error_view(string_parameter_missing_closing_quote_msg(), char_index, chars@),
    {
        Self::with_message("String parameter of attribute is missing a closing quote.".to_owned(), char_index, chars)
    }

    pub fn attribute_unclosed(char_index: usize, chars: &[char]) -> (r: ParseError)
        ensures
            r@ == error_view(attribute_unclosed_msg(), char_index, chars@),
    {
        Self::with_message("Expected a ')' character to close the attribute list.".to_owned(), char_index, chars)
    }

    pub fn attribute_end(char_index: usize, chars: &[char]) -> (r: ParseError)
        ensures
            r@ == error_view(attribute_end_msg(), char_index, chars@),
    {
        Self::with_message("Expected a ':' character to immediately follow the attribute list.".to_owned(), char_index, chars)
    }

    /// An attribute specification inside the attribute list failed to parse;
    /// the detail message comes from the attribute parser.
    pub fn invalid_attribute(char_index: usize, chars: &[char], detail: String) -> (r: ParseError)
        ensures
            r@ == error_view(detail@, char_index, chars@),
    {
        Self::with_message(detail, char_index, chars)
    }

    pub fn message(&self) -> (r: &String)
        ensures
            r@ == self@.message,
    {
        &self.message
    }

    pub fn char_index(&self) -> (r: usize)
        ensures
            r == self@.char_index,
    {
        self.char_index
    }

    pub fn partial_template(&self) -> (r: &String)
        ensures
            r@ == self@.partial_template,
    {
        &self.partial_template
    }

    /// The three-part diagnostic: header, the scanned template indented by
    /// four spaces, a caret line marking the offending column, then the
    /// message.
    pub fn render(&self) -> (r: String)
        requires
            self@.char_index < self@.partial_template.len(),
        ensures
            r@ == render_spec(self@),
    {
        let mut out = "Something went wrong while parsing the provided output template:\n    ".to_owned();
        out.append(self.partial_template.as_str());
        out.append("\n    ");
        let n = self.partial_template.unicode_len();
        let mut i: usize = 0;
        let mut caret = String::new();
        while i < n
            invariant
                0 <= i <= n,
                n == self@.partial_template.len(),
                self@.char_index < n,
                caret@ == caret_line(self@.char_index, i as nat),
            decreases n - i,
        {
            if i == self.char_index {
                push_char(&mut caret, '^');
            } else {
                push_char(&mut caret, ' ');
            }
            proof {
                assert(caret@ =~= caret_line(self@.char_index, (i + 1) as nat));
            }
            i += 1;
        }
        out.append(caret.as_str());
        out.append("\n");
        out.append(self.message.as_str());
        out.append("\n");
        out
    }
}

/// A row of `len` spaces with a caret at position `at`.
pub open spec fn caret_line(at: usize, len: nat) -> Seq<char> {
    Seq::new(len, |i: int| if i == at { '^' } else { ' ' })
}

/// The exact text of the rendered diagnostic.
pub open spec fn render_spec(e: ParseErrorView) -> Seq<char> {
    "Something went wrong while parsing the provided output template:\n    "@
        + e.partial_template + "\n    "@ + caret_line(e.char_index, e.partial_template.len())
        + "\n"@ + e.message + "\n"@
}

fn string_from_slice(chars: &[char]) -> (r: String)
    ensures
        r@ == chars@,
{
    let mut r = String::new();
    let mut i: usize = 0;
    let n = chars.len();
    while i < n
        invariant
            0 <= i <= n,
            n == chars@.len(),
            r@ == chars@.take(i as int),
        decreases n - i,
    {
        push_char(&mut r, chars[i]);
        proof {
            assert(r@ =~= chars@.take(i + 1));
        }
        i += 1;
    }
    proof {
        assert(r@ =~= chars@);
    }
    r
}

} // verus!
