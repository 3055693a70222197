//! Static import and call graphs for trees of Python sources.
//!
//! The library works on a syntax tree of its own ([`syntax`]), extracts the
//! call targets of every function body ([`calls`], with the proof that none
//! is missed in [`completeness`]), describes each module ([`module`]), names
//! modules after their paths ([`catalog`]), builds dependency trees that stop
//! at cycles ([`tree`]) and loads them into a printable tree ([`render`]).
pub mod syntax;
pub mod calls;
pub mod completeness;
pub mod module;
pub mod catalog;
pub mod tree;
pub mod render;
