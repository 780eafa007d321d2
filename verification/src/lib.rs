//! A personal task tracker: named tasks with a three-state status, kept in a
//! store that issues ascending identifiers, and a cursor that selects among
//! them.
//!
//! - [`status`]: the three states of a task and the moves between them.
//! - [`task`]: tasks, and the line of a listing that shows one.
//! - [`store`]: what a store of tasks holds and what it offers.
//! - [`memory`]: the store that keeps its tasks in memory.
//! - [`file`]: the store that keeps each task in a file, and [`codec`], the
//!   names and the contents of those files.
//! - [`picker`]: the cursor on a store, and [`durable`], what is to be done
//!   to the files when the store is the one of files.
//! - [`front`]: the keys that stand for commands, and what is shown of a
//!   failure.
//! - [`vecmap`]: what is taken for granted of the map from the `vec_map`
//!   crate.
pub mod codec;
pub mod durable;
pub mod error;
pub mod file;
pub mod front;
pub mod memory;
pub mod picker;
pub mod status;
pub mod store;
pub mod task;
pub mod vecmap;

pub use crate::error::Error;
pub use crate::file::{FileTask, FileTodoList};
pub use crate::memory::FakeTodoList;
pub use crate::picker::TaskPicker;
pub use crate::status::Status;
pub use crate::store::TodoList;
pub use crate::task::{BasicTask, Task};
