//! A parser-combinator runtime for hand-written recursive-descent parsers.
//!
//! Every parser runs as an *invocation*: the engine snapshots the stream
//! position, runs the body, attaches diagnostic context to a failure, rewinds
//! according to the declared policy and releases the snapshot. Ordered
//! alternation and the slice-seeking combinators are built on that protocol.
//! The contracts state, over the token sequence and the position of the
//! stream, what each step does.
//!
//! - [`input`]: what a token stream offers; [`cursor`]: a stream in memory.
//! - [`info`], [`error`], [`trace`]: the values an invocation works with.
//! - [`engine`]: entering and leaving an invocation, and running a body as one.
//! - [`switch`]: ordered alternation.
//! - [`parsers`], [`window`], [`combinators`]: the parsers of the library.
//! - [`parse`]: running a parser over a whole stream.

pub mod info;
pub mod error;
pub mod trace;
pub mod input;
pub mod cursor;
pub mod engine;
pub mod parsers;
pub mod window;
pub mod switch;
pub mod combinators;
pub mod parse;
