//! Strips markdown fenced code blocks from text while keeping their content.
//!
//! A fenced block is opened by three backticks, an optional language tag and
//! a newline, and closed by the next three backticks.  The transform removes
//! the fences and the tag and keeps the enclosed content verbatim; inline
//! code in single or double backticks passes through unchanged, as does any
//! text outside a recognized block, an unterminated fence included.

pub mod laws;
pub mod model;
pub mod scan;

use vstd::prelude::*;

use crate::model::strip_spec;
use crate::scan::{chars_to_string, str_to_chars, strip_chars};

verus! {

/// Strips fenced code blocks from `text` while preserving their content.
///
/// Every recognized block (opening fence, optional tag, newline, content,
/// closing fence) is replaced by its content alone; all other text, inline
/// code spans included, is kept exactly as it is.
pub fn strip_codeblocks(text: &str) -> (result: String)
    ensures
        result@ == strip_spec(text@),
{
    let chars = str_to_chars(text);
    let stripped = strip_chars(&chars);
    chars_to_string(&stripped)
}

} // verus!
