use enzo::config::global::Config;
use enzo::workspace::project::Project;
use enzo::workspace::WorkspaceName;
use enzo::{get_repo_name, plan_clone, project_at, record_clone, resolve_dst, resolve_src};
use enzo::utils::error::EnzoErrorKind;
use enzo::todos::todo::Todo;
use std::collections::BTreeMap;
use std::path::PathBuf;

fn sample() -> Config {
    let input = vec![
        ("hackgt", "dev/hackgt"),
        ("hackgt.websites", "dev/hackgt/websites/"),
        ("college", "life/teen/college"),
        ("college/hw", "work/college/more_work/hw/"),
    ];
    let mut config = Config::new();
    for (key, value) in input {
        config.add_workspace(WorkspaceName(String::from(key)), String::from(value));
    }
    config
}

fn resolve(config: &Config, path: &str) -> Option<(WorkspaceName, PathBuf)> {
    config
        .resolve_path(path)
        .map(|(name, directory)| (name, PathBuf::from(directory)))
}

#[test]
fn global_resolve_path_none() {
    let config = Config::default();

    assert_eq!(resolve(&config, "hackgt"), None);
    assert_eq!(resolve(&config, ""), None);
    assert_eq!(resolve(&config, "/"), None);
}

#[test]
fn global_resolve_path_some() {
    let config = sample();

    assert_eq!(
        resolve(&config, "hackgt"),
        Some((WorkspaceName("hackgt".into()), PathBuf::from("dev/hackgt")))
    );
    assert_eq!(
        resolve(&config, "hackgt/"),
        Some((WorkspaceName("hackgt".into()), PathBuf::from("dev/hackgt")))
    );
    assert_eq!(
        resolve(&config, "hackgt.websites"),
        Some((
            WorkspaceName("hackgt.websites".into()),
            PathBuf::from("dev/hackgt/websites")
        ))
    );
    assert_eq!(
        resolve(&config, "hackgt.websites/horizons"),
        Some((
            WorkspaceName("hackgt.websites".into()),
            PathBuf::from("dev/hackgt/websites/horizons")
        ))
    );
    assert_eq!(
        resolve(&config, "college/sophomore/fall2018/"),
        Some((
            WorkspaceName("college".into()),
            PathBuf::from("life/teen/college/sophomore/fall2018")
        ))
    );
    assert_eq!(
        resolve(&config, "college/hw/cs2110/prj1"),
        Some((
            WorkspaceName("college/hw".into()),
            PathBuf::from("work/college/more_work/hw/cs2110/prj1")
        ))
    );
}

fn resolve_directory(config: &Config, path: &str) -> Option<PathBuf> {
    config
        .resolve_path(path)
        .map(|(_, directory)| PathBuf::from(directory))
}

#[test]
fn config_resolve_path_none() {
    let config = Config::new();

    assert_eq!(resolve_directory(&config, "hackgt"), None);
    assert_eq!(resolve_directory(&config, ""), None);
    assert_eq!(resolve_directory(&config, "/"), None);
}

#[test]
fn config_resolve_path_some() {
    let config = sample();

    assert_eq!(
        resolve_directory(&config, "hackgt"),
        Some(PathBuf::from("dev/hackgt"))
    );
    assert_eq!(
        resolve_directory(&config, "hackgt/"),
        Some(PathBuf::from("dev/hackgt"))
    );
    assert_eq!(
        resolve_directory(&config, "hackgt.websites"),
        Some(PathBuf::from("dev/hackgt/websites"))
    );
    assert_eq!(
        resolve_directory(&config, "hackgt.websites/horizons"),
        Some(PathBuf::from("dev/hackgt/websites/horizons"))
    );
    assert_eq!(
        resolve_directory(&config, "college/sophomore/fall2018/"),
        Some(PathBuf::from("life/teen/college/sophomore/fall2018"))
    );
    assert_eq!(
        resolve_directory(&config, "college/hw/cs2110/prj1"),
        Some(PathBuf::from("work/college/more_work/hw/cs2110/prj1"))
    );
}

fn exact(config: &Config, path: &str) -> Option<(String, String)> {
    config
        .resolve_path(path)
        .map(|(name, directory)| (name.0, directory))
}

fn home() -> Config {
    let mut config = Config::new();
    config.add_workspace(
        WorkspaceName::new("hackgt"),
        String::from("/home/u/dev/hackgt"),
    );
    config.add_workspace(
        WorkspaceName::new("hackgt.websites"),
        String::from("/home/u/dev/hackgt/websites"),
    );
    config.add_workspace(WorkspaceName::new("college"), String::from("/home/u/college"));
    config.add_workspace(
        WorkspaceName::new("college/hw"),
        String::from("/home/u/work/hw"),
    );
    config
}

#[test]
fn registered_name_resolves_to_itself() {
    let config = home();
    for (name, directory) in config.workspace_entries() {
        assert_eq!(
            exact(&config, &name),
            Some((name.clone(), directory.clone()))
        );
    }
}

#[test]
fn suffix_is_appended_behind_a_separator() {
    let config = home();
    assert_eq!(
        exact(&config, "hackgt/a/b.txt"),
        Some((
            String::from("hackgt"),
            String::from("/home/u/dev/hackgt/a/b.txt")
        ))
    );
    assert_eq!(
        exact(&config, "college/hw/x/"),
        Some((String::from("college/hw"), String::from("/home/u/work/hw/x/")))
    );
}

#[test]
fn websites_scenario() {
    let mut config = Config::new();
    config.add_workspace(
        WorkspaceName::new("hackgt"),
        String::from("/home/u/dev/hackgt"),
    );
    config.add_workspace(
        WorkspaceName::new("hackgt.websites"),
        String::from("/home/u/dev/hackgt/websites"),
    );
    assert_eq!(
        exact(&config, "hackgt.websites/horizons"),
        Some((
            String::from("hackgt.websites"),
            String::from("/home/u/dev/hackgt/websites/horizons")
        ))
    );
}

#[test]
fn unregistered_paths_resolve_to_nothing() {
    let config = home();
    assert_eq!(exact(&config, ""), None);
    assert_eq!(exact(&config, "/"), None);
    assert_eq!(exact(&config, "hack"), None);
    assert_eq!(exact(&config, "hackgtx"), None);
    assert_eq!(exact(&config, "/hackgt"), None);
    assert_eq!(exact(&config, "work/college"), None);
}

#[test]
fn longest_name_wins() {
    let config = home();
    assert_eq!(
        exact(&config, "college/hw/x"),
        Some((String::from("college/hw"), String::from("/home/u/work/hw/x")))
    );
    assert_eq!(
        exact(&config, "college/hwx"),
        Some((String::from("college"), String::from("/home/u/college/hwx")))
    );
}

#[test]
fn separator_after_a_name_changes_nothing() {
    let config = home();
    for name in ["hackgt", "hackgt.websites", "college", "college/hw"] {
        let with = format!("{}/", name);
        assert_eq!(exact(&config, &with), exact(&config, name));
    }
}

#[test]
fn separator_at_the_end_keeps_the_workspace() {
    let config = home();
    assert_eq!(
        exact(&config, "college/a"),
        Some((String::from("college"), String::from("/home/u/college/a")))
    );
    assert_eq!(
        exact(&config, "college/a/"),
        Some((String::from("college"), String::from("/home/u/college/a/")))
    );
    assert_eq!(exact(&config, "nothing/"), None);
}

#[test]
fn empty_name_and_name_with_separator_at_end_are_not_found() {
    let mut config = Config::new();
    config.add_workspace(WorkspaceName::new(""), String::from("/nowhere"));
    config.add_workspace(WorkspaceName::new("a/"), String::from("/a"));
    assert_eq!(exact(&config, ""), None);
    assert_eq!(exact(&config, "a/"), None);
    assert_eq!(
        exact(&config, "a//"),
        Some((String::from("a/"), String::from("/a")))
    );
}

#[test]
fn workspaces_are_added_replaced_and_removed() {
    let mut config = Config::new();
    let name = WorkspaceName::new("w");
    assert_eq!(config.get_path(&name), None);
    assert_eq!(config.add_workspace(name.clone(), String::from("/one")), None);
    assert_eq!(config.get_path(&name), Some(&String::from("/one")));
    assert_eq!(
        config.add_workspace(name.clone(), String::from("/two")),
        Some(String::from("/one"))
    );
    assert_eq!(config.get_path(&name), Some(&String::from("/two")));
    if let Some(path) = config.get_path_mut(&name) {
        path.push_str("/deeper");
    }
    assert_eq!(config.get_path(&name), Some(&String::from("/two/deeper")));
    assert_eq!(config.workspace_entries().len(), 1);
    assert_eq!(
        config.remove_workspace(&name),
        Some(String::from("/two/deeper"))
    );
    assert_eq!(config.remove_workspace(&name), None);
    assert_eq!(config.get_path(&name), None);
    assert_eq!(config.workspace_entries().len(), 0);
}

fn project(name: &str) -> Project {
    Project::new(
        String::from(name),
        WorkspaceName::new("w"),
        String::from("https://github.com/u/r.git"),
        vec![Todo::new(String::from("first"), None)],
    )
}

#[test]
fn projects_are_added_replaced_and_removed() {
    let mut config = Config::new();
    config.add_workspace(WorkspaceName::new("w"), String::from("/w"));
    assert!(config.get_project("/w/r").is_none());
    assert!(config.add_project(String::from("/w/r"), project("one")).is_none());
    assert_eq!(config.get_project("/w/r").map(|p| p.name()), Some("one"));
    let previous = config.add_project(String::from("/w/r"), project("two"));
    assert_eq!(previous.map(|p| String::from(p.name())), Some(String::from("one")));
    assert_eq!(config.get_project("/w/r").map(|p| p.name()), Some("two"));
    // a path is a key as it is written
    assert!(config.get_project("/w/r/").is_none());
    if let Some(p) = config.get_project_mut("/w/r") {
        p.todos_mut()[0].mark_complete();
    }
    assert_eq!(
        config.get_project("/w/r").map(|p| p.todos()[0].is_complete()),
        Some(true)
    );
    // a workspace that goes leaves its projects
    config.remove_workspace(&WorkspaceName::new("w"));
    assert!(config.get_project("/w/r").is_some());
    let removed = config.remove_project("/w/r");
    assert_eq!(removed.map(|p| String::from(p.name())), Some(String::from("two")));
    assert!(config.remove_project("/w/r").is_none());
}

#[test]
fn entries_build_the_same_configuration() {
    let mut config = home();
    config.add_project(String::from("/home/u/college/p"), project("p"));
    config.add_project(String::from("/home/u/college/q"), project("q"));
    let copy = Config::from_entries(config.workspace_entries(), config.project_entries());
    let workspaces = |c: &Config| c.workspace_entries().into_iter().collect::<BTreeMap<_, _>>();
    assert_eq!(workspaces(&copy), workspaces(&config));
    assert_eq!(workspaces(&config.clone()), workspaces(&config));
    let projects = |c: &Config| {
        c.project_entries()
            .into_iter()
            .map(|(path, p)| {
                (
                    path,
                    (
                        String::from(p.name()),
                        String::from(p.src()),
                        String::from(p.workspace().as_str()),
                        p.todos().len(),
                    ),
                )
            })
            .collect::<BTreeMap<_, _>>()
    };
    assert_eq!(projects(&copy), projects(&config));
    assert_eq!(projects(&copy).len(), 2);
}

#[test]
fn later_entry_of_a_name_stays() {
    let config = Config::from_entries(
        vec![
            (String::from("a"), String::from("/1")),
            (String::from("b"), String::from("/2")),
            (String::from("a"), String::from("/3")),
        ],
        vec![],
    );
    assert_eq!(
        config.get_path(&WorkspaceName::new("a")),
        Some(&String::from("/3"))
    );
    assert_eq!(config.workspace_entries().len(), 2);
}

#[test]
fn workspaces_survive_yaml() {
    let config = home();
    let written: BTreeMap<String, String> = config.workspace_entries().into_iter().collect();
    let text = serde_yaml::to_string(&written).unwrap();
    let read: BTreeMap<String, String> = serde_yaml::from_str(&text).unwrap();
    let back = Config::from_entries(read.into_iter().collect(), vec![]);
    let again: BTreeMap<String, String> = back.workspace_entries().into_iter().collect();
    assert_eq!(again, written);
    assert_eq!(
        exact(&back, "college/hw/x"),
        Some((String::from("college/hw"), String::from("/home/u/work/hw/x")))
    );
}

#[test]
fn source_is_on_github() {
    assert_eq!(
        resolve_src("owner/repo").map(|s| s).ok(),
        Some(String::from("https://github.com/owner/repo.git"))
    );
}

#[test]
fn repo_name_follows_the_last_separator() {
    assert_eq!(get_repo_name("owner/repo"), Some("repo"));
    assert_eq!(get_repo_name("a/b/c"), Some("c"));
    assert_eq!(get_repo_name("owner/"), Some(""));
    assert_eq!(get_repo_name("repo"), None);
    assert_eq!(get_repo_name(""), None);
}

#[test]
fn destination_that_resolves_to_nothing_is_not_found() {
    let config = home();
    let error = resolve_dst(&config, "nowhere/x").unwrap_err();
    assert_eq!(error.kind(), EnzoErrorKind::PathDoesNotExist);
    assert_eq!(
        error.message(),
        "The name nowhere/x could not be resolved to a workspace.\nhint: Try creating a new workspace with `enzo add workspace`"
    );
    let (name, directory) = resolve_dst(&config, "college/x").unwrap();
    assert_eq!(name.0, "college");
    assert_eq!(directory, "/home/u/college/x");
}

#[test]
fn clone_is_planned_and_recorded() {
    let mut config = home();
    let plan = plan_clone(&config, "owner/repo", "college/hw", None).unwrap();
    assert_eq!(plan.source, "https://github.com/owner/repo.git");
    assert_eq!(plan.workspace.0, "college/hw");
    assert_eq!(plan.destination, "/home/u/work/hw/repo");
    assert_eq!(plan.name, "repo");
    let named = plan_clone(&config, "owner/repo", "college", Some(String::from("mine"))).unwrap();
    assert_eq!(named.destination, "/home/u/college/mine");
    assert_eq!(named.name, "mine");

    let malformed = plan_clone(&config, "repo", "college", None).unwrap_err();
    assert_eq!(malformed.kind(), EnzoErrorKind::FatalError);
    assert_eq!(
        malformed.message(),
        "Expected `src` to be of the form <username>/<repo_name>. Found: repo"
    );
    let unresolved = plan_clone(&config, "owner/repo", "nowhere", None).unwrap_err();
    assert_eq!(unresolved.kind(), EnzoErrorKind::PathDoesNotExist);
    assert_eq!(
        unresolved.message(),
        "The name nowhere could not be resolved to a workspace.\nhint: Try creating a new workspace with `enzo add workspace`"
    );
    // of the two errors the first is reported
    let both = plan_clone(&config, "repo", "nowhere", None).unwrap_err();
    assert_eq!(both.kind(), EnzoErrorKind::FatalError);

    assert!(record_clone(&mut config, plan, vec![Todo::new(String::from("t"), None)]).is_none());
    let recorded = config.get_project("/home/u/work/hw/repo").unwrap();
    assert_eq!(recorded.name(), "repo");
    assert_eq!(recorded.src(), "https://github.com/owner/repo.git");
    assert_eq!(recorded.workspace().as_str(), "college/hw");
    assert_eq!(recorded.todos().len(), 1);
}

#[test]
fn project_at_a_path_is_found_or_reported() {
    let mut config = home();
    config.add_project(String::from("/p"), project("p"));
    match project_at(&mut config, "/p") {
        Ok(found) => found.set_todos(vec![]),
        Err(_) => panic!("the project is recorded"),
    }
    assert_eq!(config.get_project("/p").map(|p| p.todos().len()), Some(0));
    let error = project_at(&mut config, "/q").unwrap_err();
    assert_eq!(error.kind(), EnzoErrorKind::IOError);
    assert_eq!(error.message(), "The project at /q does not exist");
}
