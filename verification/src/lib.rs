//! Detects redundant parentheses around syntax nodes in source text.
//!
//! Given the raw text of one file and a list of node location descriptors
//! (1-based line, 0-based byte column, plus two boolean classifiers), the
//! scanner converts each node's span to byte offsets and inspects the bytes
//! around it to decide whether the node sits inside a removable parenthesis
//! pair — one that does not form a tuple literal.

pub mod detect;
pub mod position;
pub mod scanner;
