//! The state of the task list that the operator walks through: the tasks
//! and the one that is selected.
//!
//! Drawing the list and reading the keyboard are the host's. What a key
//! does to the list is decided here.

use crate::todos::todo::Todo;
use crate::todos::todo::TodoView;
use crate::workspace::project::todo_views;
use vstd::prelude::*;

verus! {

/// What the operator did at the keyboard.
#[derive(Clone, Copy, Debug, PartialEq, Eq, Structural)]
pub enum Key {
    /// A character key.
    Char(char),
    /// The arrow up.
    Up,
    /// The arrow down.
    Down,
    /// The enter key.
    Enter,
    /// Any other key.
    Other,
}

/// What the host does after a key.
#[derive(Clone, Copy, Debug, PartialEq, Eq, Structural)]
pub enum Flow {
    /// Draw the list again and wait for the next key.
    Continue,
    /// Leave the list.
    Quit,
}

/// The index after `selected` in a list of `len` tasks, going round from
/// the last to the first; the first where nothing is selected; nothing in
/// an empty list.
pub open spec fn next_index(selected: Option<usize>, len: nat) -> Option<usize> {
    if len == 0 {
        None
    } else {
        match selected {
            Some(i) => if i + 1 >= len {
                Some(0usize)
            } else {
                Some((i + 1) as usize)
            },
            None => Some(0usize),
        }
    }
}

/// The index before `selected` in a list of `len` tasks, going round from
/// the first to the last; the first where nothing is selected; nothing in
/// an empty list.
pub open spec fn previous_index(selected: Option<usize>, len: nat) -> Option<usize> {
    if len == 0 {
        None
    } else {
        match selected {
            Some(i) => if i == 0 {
                Some((len - 1) as usize)
            } else {
                Some((i - 1) as usize)
            },
            None => Some(0usize),
        }
    }
}

/// `todos` with the task at `i` marked done if it was not, and not done if
/// it was.
pub open spec fn toggled(todos: Seq<TodoView>, i: int) -> Seq<TodoView> {
    todos.update(
        i,
        TodoView {
            completed: if todos[i].completed == Some(true) {
                Some(false)
            } else {
                Some(true)
            },
            ..todos[i]
        },
    )
}

/// The task list and the selection.
pub struct App {
    todos: Vec<Todo>,
    selected: Option<usize>,
}

/// What the list holds.
pub struct AppView {
    pub todos: Seq<TodoView>,
    pub selected: Option<usize>,
}

impl View for App {
    type V = AppView;

    closed spec fn view(&self) -> AppView {
        AppView { todos: todo_views(self.todos@), selected: self.selected }
    }
}

impl App {
    #[verifier::type_invariant]
    spec fn selection_in_list(self) -> bool {
        match self.selected {
            Some(i) => i < self.todos@.len(),
            None => true,
        }
    }

    /// What a key does to the list `app`: `q` leaves the list; `j` and the
    /// arrow down select the next task, `k` and the arrow up the one
    /// before; enter turns the current task over; any other key does
    /// nothing.
    pub open spec fn after_key(app: AppView, key: Key) -> (AppView, Flow) {
        match key {
            Key::Char('q') => (app, Flow::Quit),
            Key::Char('j') | Key::Down => (
                AppView { selected: next_index(app.selected, app.todos.len()), ..app },
                Flow::Continue,
            ),
            Key::Char('k') | Key::Up => (
                AppView { selected: previous_index(app.selected, app.todos.len()), ..app },
                Flow::Continue,
            ),
            Key::Enter => if app.todos.len() > 0 {
                (
                    AppView { todos: toggled(app.todos, current_index(app.selected)), ..app },
                    Flow::Continue,
                )
            } else {
                (app, Flow::Continue)
            },
            _ => (app, Flow::Continue),
        }
    }

    /// The list of `todos`, with nothing selected.
    pub fn with_todos(todos: Vec<Todo>) -> (app: App)
        ensures
            app@ == (AppView { todos: todo_views(todos@), selected: None }),
    {
        App { todos, selected: None }
    }

    /// The number of tasks.
    pub fn len(&self) -> (n: usize)
        ensures
            n == self@.todos.len(),
    {
        self.todos.len()
    }

    /// The index of the selected task, if one is selected. It is below the
    /// number of tasks.
    pub fn selected(&self) -> (selected: Option<usize>)
        ensures
            selected == self@.selected,
            selected matches Some(i) ==> i < self@.todos.len(),
    {
        proof {
            use_type_invariant(self);
        }
        self.selected
    }

    /// Selects the task at `index`, or nothing with `None`.
    pub fn select(&mut self, index: Option<usize>)
        requires
            index matches Some(i) ==> i < old(self)@.todos.len(),
        ensures
            final(self)@ == (AppView { selected: index, ..old(self)@ }),
    {
        self.selected = index;
    }

    /// Selects the task after the selected one, and the first after the
    /// last; the first where none is selected. An empty list stays without
    /// a selection.
    pub fn next(&mut self)
        ensures
            final(self)@ == (AppView {
                selected: next_index(old(self)@.selected, old(self)@.todos.len()),
                ..old(self)@
            }),
    {
        proof {
            use_type_invariant(&*self);
        }
        let len = self.todos.len();
        let index = if len == 0 {
            None
        } else {
            match self.selected {
                Some(i) => if i == len - 1 {
                    Some(0)
                } else {
                    Some(i + 1)
                },
                None => Some(0),
            }
        };
        self.selected = index;
    }

    /// Selects the task before the selected one, and the last before the
    /// first; the first where none is selected. An empty list stays without
    /// a selection.
    pub fn previous(&mut self)
        ensures
            final(self)@ == (AppView {
                selected: previous_index(old(self)@.selected, old(self)@.todos.len()),
                ..old(self)@
            }),
    {
        proof {
            use_type_invariant(&*self);
        }
        let len = self.todos.len();
        let index = if len == 0 {
            None
        } else {
            match self.selected {
                Some(i) => if i == 0 {
                    Some(len - 1)
                } else {
                    Some(i - 1)
                },
                None => Some(0),
            }
        };
        self.selected = index;
    }

    /// The current task: the selected one, and the first where none is
    /// selected.
    pub fn current(&self) -> (todo: &Todo)
        requires
            self@.todos.len() > 0,
        ensures
            todo@ == self@.todos[current_index(self@.selected)],
    {
        proof {
            use_type_invariant(self);
        }
        let i = match self.selected {
            Some(i) => i,
            None => 0,
        };
        &self.todos[i]
    }

    /// Turns the current task over: marks it done if it was not, and not
    /// done if it was.
    pub fn toggle_current(&mut self)
        requires
            old(self)@.todos.len() > 0,
        ensures
            final(self)@ == (AppView {
                todos: toggled(old(self)@.todos, current_index(old(self)@.selected)),
                ..old(self)@
            }),
    {
        proof {
            use_type_invariant(&*self);
        }
        let i = match self.selected {
            Some(i) => i,
            None => 0,
        };
        let ghost before = self.todos@;
        // An empty list holds no selection, so the selection is taken off
        // before the list is taken out, and put back after it.
        let selected = self.selected;
        self.selected = None;
        let mut todos: Vec<Todo> = Vec::new();
        std::mem::swap(&mut self.todos, &mut todos);
        if todos[i].is_complete() {
            todos[i].mark_incomplete();
        } else {
            todos[i].mark_complete();
        }
        proof {
            assert(todo_views(todos@) =~= toggled(todo_views(before), i as int));
        }
        self.todos = todos;
        self.selected = selected;
    }

    /// Takes `key`, and says whether the host goes on.
    pub fn handle_key(&mut self, key: Key) -> (flow: Flow)
        ensures
            (final(self)@, flow) == App::after_key(old(self)@, key),
    {
        match key {
            Key::Char('q') => Flow::Quit,
            Key::Char('j') | Key::Down => {
                self.next();
                Flow::Continue
            },
            Key::Char('k') | Key::Up => {
                self.previous();
                Flow::Continue
            },
            Key::Enter => {
                if self.len() > 0 {
                    self.toggle_current();
                }
                Flow::Continue
            },
            _ => Flow::Continue,
        }
    }

    /// The tasks, in order.
    pub fn todos(&self) -> (todos: &Vec<Todo>)
        ensures
            todo_views(todos@) == self@.todos,
    {
        &self.todos
    }

    /// Ends the list and hands the tasks back.
    pub fn into_todos(self) -> (todos: Vec<Todo>)
        ensures
            todo_views(todos@) == self@.todos,
    {
        self.todos
    }
}

/// The index of the current task: the selected one, and the first where
/// none is selected.
pub open spec fn current_index(selected: Option<usize>) -> int {
    match selected {
        Some(i) => i as int,
        None => 0,
    }
}

} // verus!
