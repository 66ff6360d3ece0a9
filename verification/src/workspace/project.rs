//! A project: a repository cloned into a workspace.

use crate::todos::todo::Todo;
use crate::todos::todo::TodoView;
use crate::workspace::WorkspaceName;
use vstd::prelude::*;
use vstd::string::*;

verus! {

/// A repository cloned into a workspace: its name, the workspace it was
/// cloned into, where it was cloned from, and its tasks. The workspace is
/// named for looking it up, no more: a project outlives its workspace.
#[derive(Debug)]
pub struct Project {
    name: String,
    src: String,
    workspace: WorkspaceName,
    todos: Vec<Todo>,
}

/// What a project holds.
pub struct ProjectView {
    pub name: Seq<char>,
    pub src: Seq<char>,
    pub workspace: Seq<char>,
    pub todos: Seq<TodoView>,
}

/// What each of `todos` holds, in order.
pub open spec fn todo_views(todos: Seq<Todo>) -> Seq<TodoView> {
    Seq::new(todos.len(), |i: int| todos[i]@)
}

impl View for Project {
    type V = ProjectView;

    closed spec fn view(&self) -> ProjectView {
        ProjectView {
            name: self.name@,
            src: self.src@,
            workspace: self.workspace@,
            todos: todo_views(self.todos@),
        }
    }
}

impl Clone for Project {
    fn clone(&self) -> (copy: Project)
        ensures
            copy@ == self@,
    {
        let mut todos: Vec<Todo> = Vec::new();
        let mut i: usize = 0;
        while i < self.todos.len()
            invariant
                i <= self.todos@.len(),
                todos@.len() == i,
                forall|j: int| 0 <= j < i ==> (#[trigger] todos@[j])@ == self.todos@[j]@,
            decreases self.todos@.len() - i,
        {
            todos.push(self.todos[i].clone());
            i += 1;
        }
        proof {
            assert(todo_views(todos@) =~= todo_views(self.todos@));
        }
        Project {
            name: self.name.clone(),
            src: self.src.clone(),
            workspace: self.workspace.clone(),
            todos,
        }
    }
}

impl Project {
    /// The tasks of the project, in order.
    pub closed spec fn todo_list(&self) -> Seq<Todo> {
        self.todos@
    }

    /// The project `name` of workspace `workspace`, cloned from `src`, with
    /// the tasks `todos`.
    pub fn new(name: String, workspace: WorkspaceName, src: String, todos: Vec<Todo>) -> (project:
        Project)
        ensures
            project@ == (ProjectView {
                name: name@,
                src: src@,
                workspace: workspace@,
                todos: todo_views(todos@),
            }),
            project.todo_list() == todos@,
    {
        Project { name, workspace, src, todos }
    }

    /// The name of the project.
    pub fn name(&self) -> (name: &str)
        ensures
            name@ == self@.name,
    {
        self.name.as_str()
    }

    /// Where the project was cloned from.
    pub fn src(&self) -> (src: &str)
        ensures
            src@ == self@.src,
    {
        self.src.as_str()
    }

    /// The workspace that the project was cloned into.
    pub fn workspace(&self) -> (workspace: &WorkspaceName)
        ensures
            workspace@ == self@.workspace,
    {
        &self.workspace
    }

    /// The tasks of the project.
    pub fn todos(&self) -> (todos: &Vec<Todo>)
        ensures
            todos@ == self.todo_list(),
            self@.todos == todo_views(todos@),
    {
        &self.todos
    }

    /// Mutable access to the tasks of the project. What is written through
    /// it becomes the project's tasks; nothing else changes.
    pub fn todos_mut(&mut self) -> (todos: &mut Vec<Todo>)
        ensures
            todos@ == old(self).todo_list(),
            final(self).todo_list() == final(todos)@,
            final(self)@ == (ProjectView { todos: todo_views(final(todos)@), ..old(self)@ }),
    {
        &mut self.todos
    }

    /// Replaces the tasks of the project by `todos`.
    pub fn set_todos(&mut self, todos: Vec<Todo>)
        ensures
            final(self).todo_list() == todos@,
            final(self)@ == (ProjectView { todos: todo_views(todos@), ..old(self)@ }),
    {
        self.todos = todos;
    }
}

} // verus!
