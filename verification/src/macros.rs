//! The logic of the `os` and `task` attributes: the grammar of their
//! arguments and the collection of the tasks of an `os` module. The token
//! trees of the attribute input are handed over as plain tokens; code
//! generation stands outside this library.

pub mod tokens;
pub mod mod_args;
pub mod task;
pub mod os;
pub mod arg_order;
