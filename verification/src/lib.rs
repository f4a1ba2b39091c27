//! URL patterns: a pattern string with named groups, wildcards and embedded
//! regular expressions is compiled, component by component, into a matcher
//! for URLs.
//!
//! A pattern is made from an init record (`UrlPattern::parse`) or from one
//! string that is cut into the eight components first
//! (`UrlPatternInit::parse_constructor_string`). Each component's pattern is
//! split into tokens (`tokenizer`), parsed into parts (`parser`), and
//! compiled into a canonical pattern string, a regular expression and a
//! matcher (`component`, `matcher`).
//!
//! Every function has a contract over sequences of code points, and Verus
//! proves the function against it. URLs, regular expressions and the
//! classes of identifier code points are the work of the `url`, `regex` and
//! `unic-ucd-ident` crates; what is taken from them on trust stands in
//! `weburl`, `regexp` and `unicode`, and nowhere else. One contract more is
//! taken on trust, that of `String::push` of the standard library, in
//! `text`.
//!
//! What holds of every pattern is stated and proved in `laws`; the modules
//! `captures`, `joined`, `language`, `parsed`, `round_trip`, `written` and
//! `written_parts` hold the proofs that the laws rest on.

pub mod canonicalize_and_process;
pub mod captures;
pub mod component;
pub mod constructor_parser;
pub mod error;
pub mod init;
pub mod joined;
pub mod language;
pub mod laws;
pub mod match_result;
pub mod matcher;
pub mod parsed;
pub mod parser;
pub mod pattern;
pub mod quirks;
pub mod regexp;
pub mod round_trip;
pub mod text;
pub mod tokenizer;
pub mod unicode;
pub mod weburl;
pub mod written;
pub mod written_parts;

pub use error::Error;
pub use error::ParserError;
pub use error::TokenizerError;
pub use init::UrlPatternInit;
pub use match_result::UrlPatternComponentResult;
pub use match_result::UrlPatternResult;
pub use pattern::UrlPattern;
pub use pattern::UrlPatternMatchInput;
