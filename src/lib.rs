//! A small pattern language (literals, `.`, `$`, `*`, `+`) compiled into a
//! transition table and run against subjects as a prefix match.
pub mod compiler;
pub mod laws;
pub mod matcher;
pub mod table;
