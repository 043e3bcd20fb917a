//! A small virtual machine for an eight-instruction tape language.
//!
//! Source text is tokenized into [`Token`]s, loaded into a [`CPU`] with a
//! zeroed byte tape, and executed one instruction at a time. The engine does
//! no input or output of its own: each step is handed the byte that was read,
//! if any, and hands back the byte to write, if any.
//!
//! Every executable function carries a contract over the mathematical model
//! in [`machine`], and the laws of the model are proved beside it.

pub mod bracket;
pub mod cpu;
pub mod machine;
pub mod token;
pub mod tokenizer;

pub use bracket::{find_closer, find_opener};
pub use cpu::{Execution, CPU};
pub use machine::{Exit, Fault, Flow, DEFAULT_MEM_SIZE};
pub use token::Token;
pub use tokenizer::tokenize_source;
