use vstd::prelude::*;

verus! {

/// The commands that run the externally launched server, in order.
pub struct Executor {
    tasks: Vec<String>,
}

impl Executor {
    pub closed spec fn tasks_spec(&self) -> Seq<String> {
        self.tasks@
    }

    pub fn new(tasks: Vec<String>) -> (r: Executor)
        ensures
            r.tasks_spec() == tasks@,
    {
        Executor { tasks }
    }

    /// The commands to execute, for the caller that spawns the processes.
    pub fn tasks(&self) -> (r: &Vec<String>)
        ensures
            r@ == self.tasks_spec(),
    {
        &self.tasks
    }
}

} // verus!
