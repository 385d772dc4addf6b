//! The data model of a small to-do list: tasks with a status, the store that
//! owns them, and the snapshot that is written to disk.

pub mod filters;
pub mod laws;
pub mod model;
pub mod order;
pub mod repository;
pub mod snapshot;
pub mod status;
pub mod store;
pub mod summary;
pub mod task;
pub mod text;
pub mod vector;

pub use crate::repository::TaskRepository;
pub use crate::snapshot::SaveTasks;
pub use crate::status::TaskStatus;
pub use crate::store::Tasks;
pub use crate::task::Task;
