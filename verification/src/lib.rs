//! The rules of a small task list and of a stack calculator, with the text
//! formats they read and write.

pub mod calc;
pub mod command;
pub mod persist;
pub mod stack;
pub mod store;
pub mod text;
