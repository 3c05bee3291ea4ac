//! The value layer of a small Lisp: values packed into one 64-bit word, a
//! heap whose objects are threaded into one list and collected by mark and
//! sweep, lexically scoped environments, and a reader and a printer for
//! S-expressions.

pub mod bignum;
pub mod collector;
pub mod environment;
pub mod heap;
pub mod objects;
pub mod parser;
pub mod printer;
pub mod reader;
pub mod symbols;
pub mod text;
pub mod value;
