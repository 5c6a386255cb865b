//! A line-oriented parser for loosely formatted XML-like text.
//!
//! Each input line is classified (prolog declaration, comment, bare inner
//! text, or element tag), tag lines are decomposed into a name, an attribute
//! mapping and trailing inline text, and an open-tag stack wires every emitted
//! element record to its parent.  The finished record list can be indexed by
//! element id for constant-time lookup.

pub mod attrs;
pub mod text;
pub mod tree_struct;
pub mod xml_proc;
