//! A miniature compiler backend that turns a set of command-line options
//! into a one-shot Python program. An arena owns a cons-cell expression
//! tree with interned symbols; a small assembler composes the tree from
//! the option flags; a recursive unparser lowers it to Python source text.
//! The whole pipeline is specified down to the exact characters produced.

pub mod types;
pub mod generator;
pub mod gen_python;
