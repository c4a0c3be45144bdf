//! A call-trace tree: the nested call graph of one execution, rebuilt from a
//! depth-first stream of call-enter and call-exit events, and its rendering as
//! an annotated tree of lines.
pub mod abi;
pub mod laws;
pub mod render;
pub mod trace;
