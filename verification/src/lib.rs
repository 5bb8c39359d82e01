//! A formatter for a line-oriented, brace-nested configuration language.
//!
//! The pipeline tokenizes the input text, classifies the tokens into typed
//! line records with nesting and grouping metadata, and then renders the
//! records back out with aligned operator and comment columns and bounded
//! runs of blank lines.

use vstd::prelude::*;

pub mod config;
pub mod parse;
pub mod parsed;

use crate::config::Config;
use crate::parse::ParseError;
use crate::parse::get_file_tokens;
use crate::parse::tokenize_spec;
use crate::parsed::format::TableError;
use crate::parsed::format::format_lines;
use crate::parsed::format::format_lines_spec;
use crate::parsed::line::get_lines;
use crate::parsed::line::get_lines_spec;

verus! {

/// Why formatting a text failed: the input was rejected by the tokenizer or
/// the classifier, or an alignment step was refused.
#[derive(Clone, Copy, Debug, PartialEq, Eq, Structural)]
pub enum FormatError {
    Parse(ParseError),
    Table(TableError),
}

/// The formatted text of an input under a configuration, or the error that
/// rejected it: tokenize, classify and group, then render.
pub open spec fn parse_spec(config: Config, file: Seq<u8>) -> Result<Seq<u8>, FormatError> {
    match tokenize_spec(file) {
        Err(e) => Err(FormatError::Parse(e)),
        Ok(ts) => match get_lines_spec(ts) {
            Err(e) => Err(FormatError::Parse(e)),
            Ok(ls) => match format_lines_spec(ls, config) {
                Err(e) => Err(FormatError::Table(e)),
                Ok(out) => Ok(out),
            },
        },
    }
}

/// Format a whole input text under a configuration.
pub fn parse(config: Config, file: &Vec<u8>) -> (r: Result<Vec<u8>, FormatError>)
    ensures
        match r {
            Ok(out) => parse_spec(config, file@) == Ok::<_, FormatError>(out@),
            Err(e) => parse_spec(config, file@) == Err::<Seq<u8>, FormatError>(e),
        },
{
    let tokens = match get_file_tokens(file) {
        Ok(ts) => ts,
        Err(e) => {
            return Err(FormatError::Parse(e));
        },
    };
    let lines = match get_lines(&tokens) {
        Ok(ls) => ls,
        Err(e) => {
            return Err(FormatError::Parse(e));
        },
    };
    match format_lines(lines, config) {
        Ok(out) => Ok(out),
        Err(e) => Err(FormatError::Table(e)),
    }
}

} // verus!
