//! Error kinds of the library. All are terminal for the current execution:
//! either a complete structured request is produced or the run fails.

use vstd::prelude::*;

verus! {

/// A structural violation found while parsing expanded request text.
#[derive(Clone, Copy, Debug, PartialEq, Eq, Structural)]
pub enum ParseError {
    /// The request line is absent or has no space.
    MalformedRequestLine,
    /// The method token is not a valid HTTP method name.
    MethodError,
    /// The remainder of the request line is not a well-formed absolute URL.
    UrlError,
    /// A header line's name part is not a valid header-name token.
    HeaderNameError,
    /// A header line's value part is not a valid header-value token.
    HeaderValueError,
}

/// A failure of any stage of executing a request file.
#[derive(Clone, Copy, Debug, PartialEq, Eq, Structural)]
pub enum ReqqError {
    /// Raw text was needed but none has been supplied yet.
    IoError,
    /// The environment content is not a well-formed JSON object.
    FormatError,
    /// The template is malformed or references an unbound placeholder.
    TemplateError,
    /// Structural parsing of the expanded text failed.
    Parse(ParseError),
}

} // verus!
