//! A task of a project.

use vstd::prelude::*;
use vstd::string::*;

verus! {

/// A task of a project: a name, a description if it has one, and whether it
/// is done. A task read from a document that does not say whether it is done
/// holds no flag, and counts as not done.
#[derive(Debug)]
pub struct Todo {
    name: String,
    description: Option<String>,
    completed: Option<bool>,
}

/// What a task holds.
pub struct TodoView {
    pub name: Seq<char>,
    pub description: Option<Seq<char>>,
    pub completed: Option<bool>,
}

impl View for Todo {
    type V = TodoView;

    closed spec fn view(&self) -> TodoView {
        TodoView {
            name: self.name@,
            description: match self.description {
                Some(text) => Some(text@),
                None => None,
            },
            completed: self.completed,
        }
    }
}

impl Clone for Todo {
    fn clone(&self) -> (copy: Todo)
        ensures
            copy@ == self@,
    {
        proof {
            use_type_invariant(self);
        }
        let description = match &self.description {
            Some(text) => Some(text.clone()),
            None => None,
        };
        Todo { name: self.name.clone(), description, completed: self.completed }
    }
}

impl Todo {
    #[verifier::type_invariant]
    spec fn named(self) -> bool {
        self.name@.len() > 0
    }

    /// A task that is not done.
    pub fn new(name: String, description: Option<String>) -> (todo: Todo)
        requires
            name@.len() > 0,
        ensures
            todo@.name == name@,
            todo@.description == match description {
                Some(text) => Some(text@),
                None => None::<Seq<char>>,
            },
            todo@.completed == Some(false),
    {
        Todo { name, description, completed: Some(false) }
    }

    /// A task as a document states it: `completed` is the document's flag,
    /// `None` where it has none.
    pub fn restore(name: String, description: Option<String>, completed: Option<bool>) -> (todo:
        Todo)
        requires
            name@.len() > 0,
        ensures
            todo@.name == name@,
            todo@.description == match description {
                Some(text) => Some(text@),
                None => None::<Seq<char>>,
            },
            todo@.completed == completed,
    {
        Todo { name, description, completed }
    }

    /// Marks the task as done.
    pub fn mark_complete(&mut self)
        ensures
            final(self)@ == (TodoView { completed: Some(true), ..old(self)@ }),
        no_unwind
    {
        proof {
            use_type_invariant(&*self);
        }
        self.completed = Some(true);
    }

    /// Marks the task as not done.
    pub fn mark_incomplete(&mut self)
        ensures
            final(self)@ == (TodoView { completed: Some(false), ..old(self)@ }),
        no_unwind
    {
        proof {
            use_type_invariant(&*self);
        }
        self.completed = Some(false);
    }

    /// Whether the task is done.
    pub fn is_complete(&self) -> (done: bool)
        ensures
            done == (self@.completed == Some(true)),
    {
        match self.completed {
            Some(done) => done,
            None => false,
        }
    }

    /// The name of the task, which is never empty.
    pub fn name(&self) -> (name: &str)
        ensures
            name@ == self@.name,
            name@.len() > 0,
    {
        proof {
            use_type_invariant(self);
        }
        self.name.as_str()
    }

    /// The description of the task, if it has one.
    pub fn description(&self) -> (description: Option<&str>)
        ensures
            match description {
                Some(text) => self@.description == Some(text@),
                None => self@.description is None,
            },
    {
        match &self.description {
            Some(text) => Some(text.as_str()),
            None => None,
        }
    }

    /// The flag of the task: `None` where it was read without one.
    pub fn completed(&self) -> (completed: Option<bool>)
        ensures
            completed == self@.completed,
    {
        self.completed
    }
}

} // verus!
