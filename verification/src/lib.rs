//! A to-do list for one user.
//!
//! - [`task`]: a task, and what it is in specifications.
//! - [`store`]: the tasks in the order in which they came and the counter
//!   that numbers them, with adding, listing and marking as done.
//! - [`codec`]: the text form of the tasks, one line each, and what reading
//!   and writing it guarantee.
//! - [`command`]: the commands of a session and what carrying them out does.
//! - [`render`]: what the session says in reply.
//! - [`text`] and [`numeral`]: pieces, lines and decimal numerals over
//!   sequences of characters.
//!
//! The functions are verified against contracts over mathematical models:
//! `TaskModel` and `StoreModel` for the data, `Seq<char>` for text. Two
//! things are taken from the standard library on trust, and marked where
//! they stand: that `String::push` appends, and what `str::trim` returns.

pub mod codec;
pub mod command;
pub mod numeral;
pub mod render;
pub mod store;
pub mod task;
pub mod text;
