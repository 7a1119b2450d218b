use vstd::prelude::*;

verus! {

/// One named unit of deferred work.
///
/// The work itself is of type `W`; the library carries it from submission to
/// dispatch without ever looking inside it.
pub struct Task<W> {
    /// Identifier assigned when the task was submitted.
    pub id: u32,
    /// Human-readable label, used for diagnostics only.
    pub name: String,
    /// The work to perform.
    pub closure: W,
}

impl<W> Task<W> {
    /// Wraps `closure` into a task with the given id and name.
    pub fn new(id: u32, name: String, closure: W) -> (r: Task<W>)
        ensures
            r.id == id,
            r.name == name,
            r.closure == closure,
    {
        Task { id, name, closure }
    }
}

} // verus!
