//! A small content server's verified core: request parsing, host routing,
//! a three-level indentation-format taxonomy parser, template rendering by
//! literal placeholder substitution, and connection tally bookkeeping.

pub mod consts;
pub mod log;
pub mod render;
pub mod request;
pub mod response;
pub mod taxonomy;
pub mod text;
