//! A manager of workspaces and of the repositories cloned into them.
//!
//! Workspaces are directories with short names; `config::global` keeps
//! them and resolves the logical paths that an operator types. Projects
//! are provisioned by small scripts of instructions; `config::section`
//! holds the engine that works them off. Nothing in this library reads a
//! file, asks the operator or spawns a process: it decides, and its host
//! acts.

pub mod config;
pub mod git;
pub mod table;
pub mod text;
pub mod todos;
pub mod utils;
pub mod workspace;

use crate::config::global::extended;
use crate::config::global::resolved;
use crate::config::global::Config;
use crate::text::chars_of;
use crate::text::join3;
use crate::todos::todo::Todo;
use crate::utils::error::EnzoError;
use crate::utils::error::EnzoErrorKind;
use crate::workspace::project::todo_views;
use crate::workspace::project::Project;
use crate::workspace::project::ProjectView;
use crate::workspace::WorkspaceName;
use vstd::prelude::*;
use vstd::string::*;

verus! {

/// Where the repository `src`, given as owner and name, is cloned from.
pub open spec fn source_of(src: Seq<char>) -> Seq<char> {
    "https://github.com/"@ + src + ".git"@
}

/// Where the repository `src`, given as owner and name, is cloned from.
pub fn resolve_src(src: &str) -> (outcome: Result<String, EnzoError>)
    ensures
        outcome matches Ok(url) && url@ == source_of(src@),
{
    Ok(join3("https://github.com/", src, ".git"))
}

/// What is said of a logical path that resolves to no workspace.
pub open spec fn unresolved(dst: Seq<char>) -> Seq<char> {
    "The name "@ + dst
        + " could not be resolved to a workspace.\nhint: Try creating a new workspace with `enzo add workspace`"@
}

/// Resolves the logical path `dst` to its workspace and directory. That a
/// path resolves to nothing is reported as a path that does not exist.
pub fn resolve_dst(config: &Config, dst: &str) -> (outcome: Result<(WorkspaceName, String), EnzoError>)
    ensures
        match outcome {
            Ok((name, directory)) => resolved(config.workspaces(), dst@) == Some(
                (name@, directory@),
            ),
            Err(error) => resolved(config.workspaces(), dst@) is None && error@ == (
                EnzoErrorKind::PathDoesNotExist,
                unresolved(dst@),
            ),
        },
{
    match config.resolve_path(dst) {
        Some(resolution) => Ok(resolution),
        None => {
            let msg = join3(
                "The name ",
                dst,
                " could not be resolved to a workspace.\nhint: Try creating a new workspace with `enzo add workspace`",
            );
            Err(EnzoError::new(msg, EnzoErrorKind::PathDoesNotExist))
        },
    }
}

/// Where the last separator of `s` stands, if `s` holds one.
pub open spec fn last_separator(s: Seq<char>) -> Option<int>
    decreases s.len(),
{
    if s.len() == 0 {
        None
    } else if s.last() == '/' {
        Some(s.len() - 1)
    } else {
        last_separator(s.drop_last())
    }
}

/// The name of the repository `src`: what follows its last separator.
/// `None` where `src` holds no separator.
pub open spec fn repo_name_of(src: Seq<char>) -> Option<Seq<char>> {
    match last_separator(src) {
        Some(i) => Some(src.skip(i + 1)),
        None => None,
    }
}

/// The name of the repository `src`, given as owner and name.
pub fn get_repo_name<'a>(src: &'a str) -> (name: Option<&'a str>)
    ensures
        match name {
            Some(text) => repo_name_of(src@) == Some(text@),
            None => repo_name_of(src@) is None,
        },
{
    let chars = chars_of(src);
    let len = chars.len();
    let mut i = len;
    proof {
        assert(src@.take(len as int) =~= src@);
    }
    while i > 0
        invariant
            chars@ == src@,
            len == src@.len(),
            i <= len,
            last_separator(src@) == last_separator(src@.take(i as int)),
        decreases i,
    {
        proof {
            assert(src@.take(i as int).drop_last() =~= src@.take(i - 1));
        }
        if chars[i - 1] == '/' {
            let name = src.substring_char(i, len);
            proof {
                assert(name@ =~= src@.skip(i as int));
            }
            return Some(name);
        }
        i -= 1;
    }
    None
}

/// What is said of a repository that is not given as owner and name.
pub open spec fn malformed_source(src: Seq<char>) -> Seq<char> {
    "Expected `src` to be of the form <username>/<repo_name>. Found: "@ + src
}

/// What cloning a repository takes: where it is cloned from, the workspace
/// and the directory it is cloned into, and the name of the project it
/// becomes.
#[derive(Debug)]
pub struct ClonePlan {
    pub source: String,
    pub workspace: WorkspaceName,
    pub destination: String,
    pub name: String,
}

/// What a plan holds.
pub struct ClonePlanView {
    pub source: Seq<char>,
    pub workspace: Seq<char>,
    pub destination: Seq<char>,
    pub name: Seq<char>,
}

impl View for ClonePlan {
    type V = ClonePlanView;

    open spec fn view(&self) -> ClonePlanView {
        ClonePlanView {
            source: self.source@,
            workspace: self.workspace@,
            destination: self.destination@,
            name: self.name@,
        }
    }
}

/// The plan for cloning `src` into the workspace that `dst` resolves to
/// among `names`. The project is called `name`, and after the repository
/// where no name is given; it goes to the directory of that name in the
/// directory that `dst` resolves to. It is a fatal error where no name is
/// given and `src` holds none, and a path that does not exist where `dst`
/// resolves to nothing; of the two the first is reported.
pub open spec fn clone_plan(
    names: Map<Seq<char>, Seq<char>>,
    src: Seq<char>,
    dst: Seq<char>,
    name: Option<Seq<char>>,
) -> Result<ClonePlanView, (EnzoErrorKind, Seq<char>)> {
    let chosen = match name {
        Some(text) => Some(text),
        None => repo_name_of(src),
    };
    match chosen {
        None => Err((EnzoErrorKind::FatalError, malformed_source(src))),
        Some(repo) => match resolved(names, dst) {
            None => Err((EnzoErrorKind::PathDoesNotExist, unresolved(dst))),
            Some((workspace, directory)) => Ok(
                ClonePlanView {
                    source: source_of(src),
                    workspace,
                    destination: extended(directory, repo),
                    name: repo,
                },
            ),
        },
    }
}

/// Plans the cloning of `src` into `dst`. The host clones as the plan
/// says, reads the tasks that the repository declares, and has the project
/// recorded with `record_clone`.
pub fn plan_clone(config: &Config, src: &str, dst: &str, name: Option<String>) -> (outcome: Result<
    ClonePlan,
    EnzoError,
>)
    ensures
        match outcome {
            Ok(plan) => clone_plan(config.workspaces(), src@, dst@, name.deep_view()) == Ok::<
                ClonePlanView,
                (EnzoErrorKind, Seq<char>),
            >(plan@),
            Err(error) => clone_plan(config.workspaces(), src@, dst@, name.deep_view()) == Err::<
                ClonePlanView,
                (EnzoErrorKind, Seq<char>),
            >(error@),
        },
{
    let repo = match name {
        Some(text) => text,
        None => match get_repo_name(src) {
            Some(text) => String::from_str(text),
            None => {
                let mut msg = String::from_str(
                    "Expected `src` to be of the form <username>/<repo_name>. Found: ",
                );
                msg.append(src);
                return Err(EnzoError::new(msg, EnzoErrorKind::FatalError));
            },
        },
    };
    let source = join3("https://github.com/", src, ".git");
    match resolve_dst(config, dst) {
        Err(error) => Err(error),
        Ok((workspace, directory)) => {
            let destination = if repo.as_str().is_empty() {
                directory
            } else {
                proof {
                    reveal_strlit("/");
                    assert("/"@ =~= seq!['/']);
                }
                join3(directory.as_str(), "/", repo.as_str())
            };
            Ok(ClonePlan { source, workspace, destination, name: repo })
        },
    }
}

/// Records the project that was cloned as `plan` says, with the tasks
/// `todos` that it declares, at the plan's destination, in place of the
/// project that was recorded there, which is returned.
pub fn record_clone(config: &mut Config, plan: ClonePlan, todos: Vec<Todo>) -> (previous: Option<
    Project,
>)
    ensures
        final(config).workspaces() == old(config).workspaces(),
        final(config).projects() == old(config).projects().insert(
            plan@.destination,
            ProjectView {
                name: plan@.name,
                src: plan@.source,
                workspace: plan@.workspace,
                todos: todo_views(todos@),
            },
        ),
        match previous {
            Some(p) => old(config).projects().contains_key(plan@.destination) && p@ == old(
                config,
            ).projects()[plan@.destination],
            None => !old(config).projects().contains_key(plan@.destination),
        },
{
    let project = Project::new(plan.name, plan.workspace, plan.source, todos);
    config.add_project(plan.destination, project)
}

/// What is said of a directory at which no project is recorded.
pub open spec fn no_project(path: Seq<char>) -> Seq<char> {
    "The project at "@ + path + " does not exist"@
}

/// The project recorded at `path`, for the host to work on its tasks. That
/// none is recorded there is reported as an error of the file system.
pub fn project_at<'a>(config: &'a mut Config, path: &str) -> (outcome: Result<
    &'a mut Project,
    EnzoError,
>)
    ensures
        final(config).workspaces() == old(config).workspaces(),
        match outcome {
            Ok(project) => old(config).projects().contains_key(path@) && project@ == old(
                config,
            ).projects()[path@] && final(config).projects() == old(config).projects().insert(
                path@,
                final(project)@,
            ),
            Err(error) => !old(config).projects().contains_key(path@) && final(config).projects()
                == old(config).projects() && error@ == (EnzoErrorKind::IOError, no_project(path@)),
        },
{
    match config.get_project_mut(path) {
        Some(project) => Ok(project),
        None => Err(
            EnzoError::new(
                join3("The project at ", path, " does not exist"),
                EnzoErrorKind::IOError,
            ),
        ),
    }
}

} // verus!
