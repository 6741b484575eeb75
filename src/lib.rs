//! A router for HTTP requests: an ordered table of routes, each a verb and a
//! path pattern made of literal and typed placeholder segments, matched
//! first-to-last against an incoming verb and path, with a fallback handler
//! for requests that no route takes.

pub mod laws;
pub mod method;
pub mod pattern;
pub mod table;
pub mod value;

pub use crate::method::Method;
pub use crate::pattern::{match_path, ParamKind, Segment};
pub use crate::table::{BuildError, Route, RouteTable, Selection};
pub use crate::value::{parse_param, ParamValue};
