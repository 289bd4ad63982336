//! Directory context builder: turns a walked directory tree into a plain-text
//! or XML document that lists the tree and the readable file contents.
pub mod model;
pub mod text;
pub mod walk;
pub mod xml;
