//! Static audit of a source package: an effect scanner over a resolved
//! syntax tree and a declarative audit policy with a graph-edge checker.

pub mod ast;
pub mod codec;
pub mod effect;
pub mod graph;
pub mod ident;
pub mod policy;
pub mod scanner;
pub mod sink;
pub mod text;
pub mod util;
