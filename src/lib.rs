use vstd::prelude::*;
use vstd::utf8::*;

pub mod laws;
pub mod model;
pub mod processor;

use crate::laws::lemma_stripping_keeps_utf8;
use crate::model::stripped;
use crate::processor::JsonProcessor;

verus! {

/// Options for stripping comments from a JSON text.
pub struct Options {
    /// Strip trailing commas in addition to comments.
    /// Defaults to false.
    pub trailing_commas: Option<bool>,
    /// Replace comments and trailing commas with whitespace instead of
    /// stripping them entirely. Defaults to true.
    pub whitespace: Option<bool>,
}

/// The whitespace setting that `options` selects.
pub open spec fn whitespace_of(options: Option<Options>) -> bool {
    match options {
        Some(o) => match o.whitespace {
            Some(w) => w,
            None => true,
        },
        None => true,
    }
}

/// The trailing-comma setting that `options` selects.
pub open spec fn trailing_commas_of(options: Option<Options>) -> bool {
    match options {
        Some(o) => match o.trailing_commas {
            Some(t) => t,
            None => false,
        },
        None => false,
    }
}

/// Strip comments from JSON. Lets you use comments in your JSON files!
///
/// Single-line and multi-line comments are replaced with whitespace by
/// default, so that JSON error positions stay as close as possible to the
/// original source. With `whitespace` off they are removed entirely; with
/// `trailing_commas` on, commas right before a closing `}` or `]` go too.
pub fn strip_json_comments(json_string: String, options: Option<Options>) -> (r: String)
    ensures
        encode_utf8(r@) == stripped(
            encode_utf8(json_string@),
            whitespace_of(options),
            trailing_commas_of(options),
        ),
{
    let whitespace = match &options {
        Some(o) => match o.whitespace {
            Some(w) => w,
            None => true,
        },
        None => true,
    };
    let trailing_commas = match &options {
        Some(o) => match o.trailing_commas {
            Some(t) => t,
            None => false,
        },
        None => false,
    };
    proof {
        encode_utf8_valid_utf8(json_string@);
        lemma_stripping_keeps_utf8(encode_utf8(json_string@), whitespace, trailing_commas);
    }
    let processor = JsonProcessor::new(json_string, whitespace, trailing_commas);
    processor.process()
}

} // verus!
