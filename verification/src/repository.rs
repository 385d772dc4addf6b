//! Where the snapshot of a store is kept, and what to take for a snapshot
//! that could not be read.
//!
//! Reading and writing the file is left to the caller. This module holds
//! what is decided around it: which path the file has, and what stands in
//! for a file that is missing or does not hold a snapshot.

use vstd::prelude::*;

use crate::model::StoreView;
use crate::snapshot::SaveTasks;

verus! {

/// The place of the file that holds the snapshot.
#[derive(Debug)]
pub struct TaskRepository {
    filename: String,
}

impl View for TaskRepository {
    type V = Seq<char>;

    /// The path of the file.
    closed spec fn view(&self) -> Seq<char> {
        self.filename@
    }
}

impl Clone for TaskRepository {
    /// A clone names the same file.
    fn clone(&self) -> (copy: TaskRepository)
        ensures
            copy@ == self@,
    {
        TaskRepository { filename: self.filename.clone() }
    }
}

impl Default for TaskRepository {
    /// The repository with the empty path.
    fn default() -> (repository: TaskRepository)
        ensures
            repository@ == Seq::<char>::empty(),
    {
        TaskRepository { filename: String::new() }
    }
}

impl TaskRepository {
    /// The repository whose file has the given path.
    pub fn new(filename: String) -> (repository: TaskRepository)
        ensures
            repository@ == filename@,
    {
        TaskRepository { filename }
    }

    /// The repository for a file of the given name that lives beside the
    /// running program.
    ///
    /// `beside` is the path of that file in the program's directory, where
    /// the directory could be found and the path be written as text. Where
    /// it is `None`, the file name alone is the path, to be taken from the
    /// directory the program was started in.
    pub fn beside_executable(filename: String, beside: Option<String>) -> (repository:
        TaskRepository)
        ensures
            repository@ == match beside {
                Some(path) => path@,
                None => filename@,
            },
    {
        match beside {
            Some(path) => TaskRepository { filename: path },
            None => TaskRepository { filename },
        }
    }

    /// The path of the file.
    pub fn filename(&self) -> (path: &str)
        ensures
            path@ == self@,
    {
        self.filename.as_str()
    }

    /// The snapshot to go on with after an attempt to read one.
    ///
    /// `stored` is what the file held, or `None` where the file was
    /// missing, could not be read, or did not hold a snapshot. In that case
    /// the empty snapshot takes its place, so that a first run or a damaged
    /// file never stops the program.
    pub fn recover(stored: Option<SaveTasks>) -> (snapshot: SaveTasks)
        ensures
            match stored {
                Some(found) => snapshot == found,
                None => snapshot@ == StoreView::empty() && snapshot.tasks@.len() == 0
                    && snapshot.id_counter == 0,
            },
    {
        match stored {
            Some(found) => found,
            None => SaveTasks::new(),
        }
    }
}

} // verus!
