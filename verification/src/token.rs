//! Tokens with special meaning in template strings.

use vstd::prelude::*;

verus! {

pub const ESCAPE: char = '\\';

pub const ANCHOR_OPEN: char = '{';

pub const ANCHOR_CLOSE: char = '}';

pub const REQUIRED: char = '!';

pub const INDEX_OPEN: char = '[';

pub const INDEX_CLOSE: char = ']';

pub const DEFAULT_PIPE: char = '|';

pub const LITERAL_SINGLE_QUOTE: char = '\'';

pub const LITERAL_DOUBLE_QUOTE: char = '"';

pub const ATTRIBUTE_OPEN: char = '(';

pub const ATTRIBUTE_CLOSE: char = ')';

pub const ATTRIBUTE_DELIMETER: char = '|';

pub const ATTRIBUTE_END: char = ':';

pub const PARAM_OPEN: char = '(';

pub const PARAM_CLOSE: char = ')';

pub const PARAM_DELIMETER: char = ',';

} // verus!
