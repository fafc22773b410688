//! The records that the task store holds and the text editor hands back.
use vstd::prelude::*;

verus! {

/// One task. Its `id` is assigned by the store, grows with each insert, and is
/// also the task's position: tasks are shown in ascending `id` order.
pub struct Task {
    pub id: i64,
    pub done: bool,
    pub subject: String,
    pub body: String,
    /// `YYYY/MM/DD`, or empty for no due date.
    pub due: String,
    pub created: String,
}

/// The text of a task as the editor returns it: one subject line and a body.
pub struct Content {
    pub subject: String,
    pub body: String,
}

impl Task {
    /// The same task under the id `id`.
    pub fn with_id(&self, id: i64) -> (r: Task)
        ensures
            r == (Task { id, ..*self }),
    {
        Task {
            id,
            done: self.done,
            subject: self.subject.clone(),
            body: self.body.clone(),
            due: self.due.clone(),
            created: self.created.clone(),
        }
    }
}

} // verus!
