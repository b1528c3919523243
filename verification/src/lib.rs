//! Store HTTP requests as plain text files, expand them as templates against
//! merged variable sources, and parse the expanded text into a structured
//! request (method, URL, ordered headers, optional body).

pub mod env;
pub mod errors;
pub mod grammar;
pub mod parse;
pub mod request;
pub mod text;
pub mod trusted;
pub mod vars;

pub use env::Env;
pub use request::Request;
pub use errors::ParseError;
pub use errors::ReqqError;
pub use parse::RequestInner;
pub use parse::parse_text;
pub use vars::merge_vars;
