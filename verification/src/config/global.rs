//! The manager's configuration: the workspaces by name, and the projects by
//! path.
//!
//! A workspace name may hold separators (`college/hw`) and dots
//! (`hackgt.websites`). The configuration keeps the names flat, and
//! `resolve_path` finds the hierarchy again: of the registered names that a
//! logical path begins with, it takes the longest.

use crate::table::collected;
use crate::table::distinct_keys;
use crate::table::lemma_collected_distinct;
use crate::table::lemma_map_of_entry;
use crate::table::map_of;
use crate::table::position_of;
use crate::table::Table;
use crate::text::chars_of;
use crate::text::join3;
use crate::workspace::project::Project;
use crate::workspace::project::ProjectView;
use crate::workspace::WorkspaceName;
use vstd::prelude::*;
use vstd::string::*;

verus! {

/// The length of `path` without its final separator, if it ends with one.
/// Only this much of a path is matched against the names.
pub open spec fn matched_len(path: Seq<char>) -> int {
    if path.len() > 0 && path.last() == '/' {
        path.len() - 1
    } else {
        path.len() as int
    }
}

/// Whether `path` may be cut at `i`: the first `i` characters are not
/// nothing, and they are all that is matched or end before a separator.
pub open spec fn is_cut(path: Seq<char>, i: int) -> bool {
    0 < i <= matched_len(path) && (i == matched_len(path) || path[i] == '/')
}

/// Whether `path` may be cut at `i` and the part before the cut is one of
/// `names`.
pub open spec fn is_match(names: Map<Seq<char>, Seq<char>>, path: Seq<char>, i: int) -> bool {
    is_cut(path, i) && names.contains_key(path.take(i))
}

/// Whether `i` is the last place at which `path` matches one of `names`.
pub open spec fn is_longest_match(
    names: Map<Seq<char>, Seq<char>>,
    path: Seq<char>,
    i: int,
) -> bool {
    is_match(names, path, i) && forall|j: int| is_match(names, path, j) ==> j <= i
}

/// What follows the separator at `i` in `path`; nothing where `path` ends at
/// `i`.
pub open spec fn remainder(path: Seq<char>, i: int) -> Seq<char> {
    if i < path.len() {
        path.skip(i + 1)
    } else {
        Seq::empty()
    }
}

/// The directory `base` extended by `rest`: `base` itself where `rest` is
/// empty, else `base`, a separator and `rest`.
pub open spec fn extended(base: Seq<char>, rest: Seq<char>) -> Seq<char> {
    if rest.len() == 0 {
        base
    } else {
        base + seq!['/'] + rest
    }
}

/// What `path` resolves to among `names`: the longest name that it begins
/// with and may be cut after, and that name's directory extended by what
/// follows the cut. `None` where `path` matches no name.
pub open spec fn resolved(names: Map<Seq<char>, Seq<char>>, path: Seq<char>) -> Option<
    (Seq<char>, Seq<char>),
> {
    if exists|i: int| is_match(names, path, i) {
        let i = choose|i: int| is_longest_match(names, path, i);
        Some((path.take(i), extended(names[path.take(i)], remainder(path, i))))
    } else {
        None
    }
}

/// A path has one longest match at most, and where it has one, `resolved`
/// goes by it.
pub proof fn lemma_resolved_at(names: Map<Seq<char>, Seq<char>>, path: Seq<char>, i: int)
    requires
        is_longest_match(names, path, i),
    ensures
        resolved(names, path) == Some(
            (path.take(i), extended(names[path.take(i)], remainder(path, i))),
        ),
{
    assert(is_match(names, path, i));
    let chosen = choose|k: int| is_longest_match(names, path, k);
    assert(is_longest_match(names, path, chosen));
    assert(chosen <= i && i <= chosen);
}

/// Where something matches, there is a longest match.
pub proof fn lemma_longest_match_exists(names: Map<Seq<char>, Seq<char>>, path: Seq<char>, i: int)
    requires
        is_match(names, path, i),
    ensures
        exists|k: int| i <= k && is_longest_match(names, path, k),
    decreases matched_len(path) - i,
{
    if exists|j: int| is_match(names, path, j) && j > i {
        let j = choose|j: int| is_match(names, path, j) && j > i;
        lemma_longest_match_exists(names, path, j);
        let k = choose|k: int| j <= k && is_longest_match(names, path, k);
        assert(i <= k && is_longest_match(names, path, k));
    } else {
        assert(is_longest_match(names, path, i));
    }
}

/// A registered name resolves to itself and to its directory as it was
/// registered, provided that the name is not empty and does not end with a
/// separator. (The empty name is never matched, and a separator at the end
/// of a path is not matched.)
pub proof fn law_name_resolves_to_itself(names: Map<Seq<char>, Seq<char>>, name: Seq<char>)
    requires
        names.contains_key(name),
        name.len() > 0,
        name.last() != '/',
    ensures
        resolved(names, name) == Some((name, names[name])),
{
    let n = name.len() as int;
    assert(name.take(n) =~= name);
    assert(is_longest_match(names, name, n));
    lemma_resolved_at(names, name, n);
}

/// A registered name followed by a separator and a suffix resolves to that
/// name and to its directory followed by a separator and the suffix,
/// provided that the name and the suffix are not empty and that the path
/// matches no longer name.
pub proof fn law_suffix_extends_directory(
    names: Map<Seq<char>, Seq<char>>,
    name: Seq<char>,
    suffix: Seq<char>,
)
    requires
        names.contains_key(name),
        name.len() > 0,
        suffix.len() > 0,
        forall|j: int| j > name.len() ==> !is_match(names, name + seq!['/'] + suffix, j),
    ensures
        resolved(names, name + seq!['/'] + suffix) == Some(
            (name, names[name] + seq!['/'] + suffix),
        ),
{
    let path = name + seq!['/'] + suffix;
    let n = name.len() as int;
    assert(path.take(n) =~= name);
    assert(path[n] == '/');
    assert(n < matched_len(path));
    assert(is_match(names, path, n));
    assert(is_longest_match(names, path, n)) by {
        assert forall|j: int| is_match(names, path, j) implies j <= n by {
            if j > n {
                assert(!is_match(names, path, j));
            }
        }
    }
    lemma_resolved_at(names, path, n);
    assert(remainder(path, n) =~= suffix);
}

/// The empty path resolves to nothing.
pub proof fn law_empty_path_unresolved(names: Map<Seq<char>, Seq<char>>)
    ensures
        resolved(names, Seq::<char>::empty()) is None,
{
    assert forall|i: int| !is_match(names, Seq::<char>::empty(), i) by {}
}

/// The path that is one separator resolves to nothing.
pub proof fn law_separator_unresolved(names: Map<Seq<char>, Seq<char>>)
    ensures
        resolved(names, seq!['/']) is None,
{
    let path = seq!['/'];
    assert(path.last() == '/');
    assert(matched_len(path) == 0);
    assert forall|i: int| !is_match(names, path, i) by {}
}

/// A path of which no part from its start is a registered name resolves to
/// nothing.
pub proof fn law_no_registered_prefix(names: Map<Seq<char>, Seq<char>>, path: Seq<char>)
    requires
        forall|i: int| 0 <= i <= path.len() ==> !names.contains_key(#[trigger] path.take(i)),
    ensures
        resolved(names, path) is None,
{
    assert forall|i: int| !is_match(names, path, i) by {
        if is_cut(path, i) {
            assert(!names.contains_key(path.take(i)));
        }
    }
}

/// The longest name wins: where a path matches a name at `i`, it resolves
/// to a registered name that it begins with and that is no shorter than
/// `i`.
pub proof fn law_longest_name_wins(names: Map<Seq<char>, Seq<char>>, path: Seq<char>, i: int)
    requires
        is_match(names, path, i),
    ensures
        resolved(names, path) matches Some((name, _)) && name.len() >= i && names.contains_key(
            name,
        ) && name == path.take(name.len() as int),
{
    lemma_longest_match_exists(names, path, i);
    let k = choose|k: int| i <= k && is_longest_match(names, path, k);
    lemma_resolved_at(names, path, k);
    assert(path.take(k).len() == k);
}

/// A separator after a registered name changes nothing: the name followed
/// by a separator resolves to what the name resolves to, provided that the
/// name is not empty and does not itself end with a separator.
pub proof fn law_separator_after_name(names: Map<Seq<char>, Seq<char>>, name: Seq<char>)
    requires
        names.contains_key(name),
        name.len() > 0,
        name.last() != '/',
    ensures
        resolved(names, name + seq!['/']) == resolved(names, name),
{
    law_name_resolves_to_itself(names, name);
    let path = name + seq!['/'];
    let n = name.len() as int;
    assert(path.last() == '/');
    assert(matched_len(path) == n);
    assert(path.take(n) =~= name);
    assert(is_longest_match(names, path, n));
    lemma_resolved_at(names, path, n);
    assert(remainder(path, n) =~= Seq::<char>::empty());
}

/// A separator at the end of a path does not change which workspace the
/// path resolves to. Of the directory it changes this much: where the path
/// is more than the workspace's name, the separator stays at the end.
pub proof fn law_separator_at_end(names: Map<Seq<char>, Seq<char>>, path: Seq<char>)
    requires
        path.len() == 0 || path.last() != '/',
    ensures
        match (resolved(names, path + seq!['/']), resolved(names, path)) {
            (Some(with), Some(without)) => with.0 == without.0 && with.1 == if without.0 == path {
                without.1
            } else {
                without.1 + seq!['/']
            },
            (None, None) => true,
            _ => false,
        },
{
    let longer = path + seq!['/'];
    assert(longer.last() == '/');
    assert(matched_len(longer) == path.len());
    assert(matched_len(path) == path.len());
    assert forall|i: int| is_match(names, longer, i) <==> is_match(names, path, i) by {
        if 0 < i <= path.len() {
            assert(longer.take(i) =~= path.take(i));
            if i < path.len() {
                assert(longer[i] == path[i]);
            }
        }
    }
    if exists|i: int| is_match(names, path, i) {
        let i = choose|i: int| is_match(names, path, i);
        lemma_longest_match_exists(names, path, i);
        let k = choose|k: int| i <= k && is_longest_match(names, path, k);
        assert(is_longest_match(names, longer, k));
        lemma_resolved_at(names, path, k);
        lemma_resolved_at(names, longer, k);
        assert(longer.take(k) =~= path.take(k));
        if k == path.len() {
            assert(path.take(k) =~= path);
            assert(remainder(longer, k) =~= Seq::<char>::empty());
        } else {
            assert(path[k] == '/');
            assert(k < path.len() - 1);
            assert(path.take(k).len() != path.len());
            assert(remainder(longer, k) =~= remainder(path, k) + seq!['/']);
            let base = names[path.take(k)];
            assert(base + seq!['/'] + (remainder(path, k) + seq!['/']) =~= base + seq!['/']
                + remainder(path, k) + seq!['/']);
        }
    } else {
        assert(forall|i: int| !is_match(names, longer, i));
    }
}

/// The directories that a list of entries registers, by name: of two
/// entries with one name, the later stays.
pub open spec fn directories(entries: Seq<(String, String)>) -> Map<Seq<char>, Seq<char>> {
    Map::new(
        |name: Seq<char>| collected(entries).contains_key(name),
        |name: Seq<char>| collected(entries)[name]@,
    )
}

/// The projects that a list of entries registers, by path: of two entries
/// with one path, the later stays.
pub open spec fn project_views(entries: Seq<(String, Project)>) -> Map<Seq<char>, ProjectView> {
    Map::new(
        |path: Seq<char>| collected(entries).contains_key(path),
        |path: Seq<char>| collected(entries)[path]@,
    )
}

/// The workspaces and the projects that the manager knows.
pub struct Config {
    workspaces: Table<String>,
    projects: Table<Project>,
}

/// A copy of a configuration is the configuration that its own entries
/// build: what goes out through the entries comes back the same.
impl Clone for Config {
    fn clone(&self) -> (copy: Config)
        ensures
            copy.workspaces() == self.workspaces(),
            copy.projects() == self.projects(),
    {
        Config::from_entries(self.workspace_entries(), self.project_entries())
    }
}

impl Default for Config {
    fn default() -> (config: Config)
        ensures
            config.workspaces() == Map::<Seq<char>, Seq<char>>::empty(),
            config.projects() == Map::<Seq<char>, ProjectView>::empty(),
    {
        Config::new()
    }
}

impl Config {
    /// The directory of each workspace, by the workspace's name.
    pub closed spec fn workspaces(&self) -> Map<Seq<char>, Seq<char>> {
        Map::new(
            |name: Seq<char>| self.workspaces@.contains_key(name),
            |name: Seq<char>| self.workspaces@[name]@,
        )
    }

    /// The projects, each by the path of its directory.
    pub closed spec fn projects(&self) -> Map<Seq<char>, ProjectView> {
        Map::new(
            |path: Seq<char>| self.projects@.contains_key(path),
            |path: Seq<char>| self.projects@[path]@,
        )
    }

    /// A configuration without workspaces or projects.
    pub fn new() -> (config: Config)
        ensures
            config.workspaces() == Map::<Seq<char>, Seq<char>>::empty(),
            config.projects() == Map::<Seq<char>, ProjectView>::empty(),
    {
        let config = Config { workspaces: Table::new(), projects: Table::new() };
        proof {
            assert(config.workspaces() =~= Map::<Seq<char>, Seq<char>>::empty());
            assert(config.projects() =~= Map::<Seq<char>, ProjectView>::empty());
        }
        config
    }

    /// The configuration that the entries build when they are registered
    /// one after the other: of two entries with one key, the later stays.
    pub fn from_entries(
        workspaces: Vec<(String, String)>,
        projects: Vec<(String, Project)>,
    ) -> (config: Config)
        ensures
            config.workspaces() == directories(workspaces@),
            config.projects() == project_views(projects@),
    {
        let config = Config {
            workspaces: Table::from_entries(workspaces),
            projects: Table::from_entries(projects),
        };
        proof {
            assert(config.workspaces() =~= directories(workspaces@));
            assert(config.projects() =~= project_views(projects@));
        }
        config
    }

    /// The workspaces as entries, each name once with its directory, in no
    /// order that means anything.
    pub fn workspace_entries(&self) -> (entries: Vec<(String, String)>)
        ensures
            distinct_keys(entries@),
            directories(entries@) == self.workspaces(),
    {
        let n = self.workspaces.len();
        let mut entries: Vec<(String, String)> = Vec::new();
        let mut i: usize = 0;
        while i < n
            invariant
                n == self.workspaces.listing().len(),
                i <= n,
                entries@ == self.workspaces.listing().take(i as int),
            decreases n - i,
        {
            let name = self.workspaces.key_at(i).clone();
            let directory = self.workspaces.value_at(i).clone();
            proof {
                assert(self.workspaces.listing().take(i + 1) =~= entries@.push((name, directory)));
            }
            entries.push((name, directory));
            i += 1;
        }
        proof {
            assert(entries@ =~= self.workspaces.listing());
            lemma_collected_distinct(entries@);
            assert(directories(entries@) =~= self.workspaces());
        }
        entries
    }

    /// The projects as entries, each path once with a copy of its project,
    /// in no order that means anything.
    pub fn project_entries(&self) -> (entries: Vec<(String, Project)>)
        ensures
            distinct_keys(entries@),
            project_views(entries@) == self.projects(),
    {
        let n = self.projects.len();
        let ghost listing = self.projects.listing();
        let mut entries: Vec<(String, Project)> = Vec::new();
        let mut i: usize = 0;
        while i < n
            invariant
                n == listing.len(),
                listing == self.projects.listing(),
                i <= n,
                entries@.len() == i,
                forall|j: int|
                    0 <= j < i ==> (#[trigger] entries@[j]).0 == listing[j].0 && entries@[j].1@
                        == listing[j].1@,
            decreases n - i,
        {
            let path = self.projects.key_at(i).clone();
            let project = self.projects.value_at(i).clone();
            entries.push((path, project));
            i += 1;
        }
        proof {
            assert(distinct_keys(entries@)) by {
                assert forall|a: int, b: int| 0 <= a < b < entries@.len() implies (
                #[trigger] entries@[a]).0@ != (#[trigger] entries@[b]).0@ by {
                    assert(listing[a].0@ != listing[b].0@);
                }
            }
            lemma_collected_distinct(entries@);
            assert forall|path: Seq<char>| map_of(entries@).contains_key(path) <==> map_of(
                listing,
            ).contains_key(path) by {
                if map_of(entries@).contains_key(path) {
                    let p = position_of(entries@, path);
                    assert(listing[p].0@ == path);
                }
                if map_of(listing).contains_key(path) {
                    let p = position_of(listing, path);
                    assert(entries@[p].0@ == path);
                }
            }
            assert forall|path: Seq<char>| map_of(entries@).contains_key(path) implies map_of(
                entries@,
            )[path]@ == map_of(listing)[path]@ by {
                let p = position_of(entries@, path);
                lemma_map_of_entry(entries@, p);
                assert(listing[p].0@ == path);
                lemma_map_of_entry(listing, p);
            }
            assert(project_views(entries@) =~= self.projects());
        }
        entries
    }

    /// Registers the workspace `name` with the directory `path`, in place of
    /// the directory it had, which is returned.
    pub fn add_workspace(&mut self, name: WorkspaceName, path: String) -> (previous: Option<
        String,
    >)
        ensures
            final(self).workspaces() == old(self).workspaces().insert(name@, path@),
            final(self).projects() == old(self).projects(),
            match previous {
                Some(p) => old(self).workspaces().contains_key(name@) && p@ == old(
                    self,
                ).workspaces()[name@],
                None => !old(self).workspaces().contains_key(name@),
            },
    {
        let previous = self.workspaces.insert(name.0, path);
        proof {
            assert(self.workspaces() =~= old(self).workspaces().insert(name@, path@));
        }
        previous
    }

    /// Takes the workspace `name` out, and returns the directory it had.
    /// The projects stay, those of this workspace too.
    pub fn remove_workspace(&mut self, name: &WorkspaceName) -> (previous: Option<String>)
        ensures
            final(self).workspaces() == old(self).workspaces().remove(name@),
            final(self).projects() == old(self).projects(),
            match previous {
                Some(p) => old(self).workspaces().contains_key(name@) && p@ == old(
                    self,
                ).workspaces()[name@],
                None => !old(self).workspaces().contains_key(name@),
            },
    {
        let previous = self.workspaces.remove(name.as_str());
        proof {
            assert(self.workspaces() =~= old(self).workspaces().remove(name@));
        }
        previous
    }

    /// The directory of the workspace `name`, if it is registered.
    pub fn get_path(&self, name: &WorkspaceName) -> (path: Option<&String>)
        ensures
            match path {
                Some(p) => self.workspaces().contains_key(name@) && p@ == self.workspaces()[name@],
                None => !self.workspaces().contains_key(name@),
            },
    {
        self.workspaces.get(name.as_str())
    }

    /// Mutable access to the directory of the workspace `name`, if it is
    /// registered. What is written through it becomes the directory of
    /// `name`; nothing else changes.
    pub fn get_path_mut(&mut self, name: &WorkspaceName) -> (path: Option<&mut String>)
        ensures
            final(self).projects() == old(self).projects(),
            match path {
                Some(p) => old(self).workspaces().contains_key(name@) && p@ == old(
                    self,
                ).workspaces()[name@] && final(self).workspaces() == old(self).workspaces().insert(
                    name@,
                    final(p)@,
                ),
                None => !old(self).workspaces().contains_key(name@) && final(self).workspaces()
                    == old(self).workspaces(),
            },
    {
        match self.workspaces.get_mut(name.as_str()) {
            Some(p) => {
                proof {
                    let after = old(self).workspaces@.insert(name@, *final(p));
                    assert(Map::new(
                        |k: Seq<char>| after.contains_key(k),
                        |k: Seq<char>| after[k]@,
                    ) =~= old(self).workspaces().insert(name@, final(p)@));
                }
                Some(p)
            },
            None => None,
        }
    }

    /// Registers `project` at `path`, in place of the project that was
    /// there, which is returned.
    pub fn add_project(&mut self, path: String, project: Project) -> (previous: Option<Project>)
        ensures
            final(self).projects() == old(self).projects().insert(path@, project@),
            final(self).workspaces() == old(self).workspaces(),
            match previous {
                Some(p) => old(self).projects().contains_key(path@) && p@ == old(
                    self,
                ).projects()[path@],
                None => !old(self).projects().contains_key(path@),
            },
    {
        let previous = self.projects.insert(path, project);
        proof {
            assert(self.projects() =~= old(self).projects().insert(path@, project@));
        }
        previous
    }

    /// Takes the project at `path` out, and returns it.
    pub fn remove_project(&mut self, path: &str) -> (previous: Option<Project>)
        ensures
            final(self).projects() == old(self).projects().remove(path@),
            final(self).workspaces() == old(self).workspaces(),
            match previous {
                Some(p) => old(self).projects().contains_key(path@) && p@ == old(
                    self,
                ).projects()[path@],
                None => !old(self).projects().contains_key(path@),
            },
    {
        let previous = self.projects.remove(path);
        proof {
            assert(self.projects() =~= old(self).projects().remove(path@));
        }
        previous
    }

    /// The project at `path`, if there is one.
    pub fn get_project(&self, path: &str) -> (project: Option<&Project>)
        ensures
            match project {
                Some(p) => self.projects().contains_key(path@) && p@ == self.projects()[path@],
                None => !self.projects().contains_key(path@),
            },
    {
        self.projects.get(path)
    }

    /// Mutable access to the project at `path`, if there is one. What is
    /// written through it becomes the project at `path`; nothing else
    /// changes.
    pub fn get_project_mut(&mut self, path: &str) -> (project: Option<&mut Project>)
        ensures
            final(self).workspaces() == old(self).workspaces(),
            match project {
                Some(p) => old(self).projects().contains_key(path@) && p@ == old(
                    self,
                ).projects()[path@] && final(self).projects() == old(self).projects().insert(
                    path@,
                    final(p)@,
                ),
                None => !old(self).projects().contains_key(path@) && final(self).projects() == old(
                    self,
                ).projects(),
            },
    {
        match self.projects.get_mut(path) {
            Some(p) => {
                proof {
                    let after = old(self).projects@.insert(path@, *final(p));
                    assert(Map::new(
                        |k: Seq<char>| after.contains_key(k),
                        |k: Seq<char>| after[k]@,
                    ) =~= old(self).projects().insert(path@, final(p)@));
                }
                Some(p)
            },
            None => None,
        }
    }

    /// Resolves the logical path `path`: finds the longest registered name
    /// that `path` begins with and may be cut after, and returns that name
    /// with its directory extended by what follows the cut. A separator at
    /// the end of `path` is not matched. Returns `None` where no name
    /// matches, which is an answer and no error.
    pub fn resolve_path(&self, path: &str) -> (resolution: Option<(WorkspaceName, String)>)
        ensures
            match resolution {
                Some((name, directory)) => resolved(self.workspaces(), path@) == Some(
                    (name@, directory@),
                ),
                None => resolved(self.workspaces(), path@) is None,
            },
    {
        let chars = chars_of(path);
        let len = chars.len();
        let end = if len > 0 && chars[len - 1] == '/' {
            len - 1
        } else {
            len
        };
        let mut i = end;
        while i > 0
            invariant
                chars@ == path@,
                len == path@.len(),
                end == matched_len(path@),
                i <= end,
                forall|j: int| i < j ==> !is_match(self.workspaces(), path@, j),
            decreases i,
        {
            if i == end || chars[i] == '/' {
                let candidate = path.substring_char(0, i);
                match self.workspaces.get(candidate) {
                    Some(base) => {
                        proof {
                            assert(candidate@ =~= path@.take(i as int));
                            assert(is_longest_match(self.workspaces(), path@, i as int));
                            lemma_resolved_at(self.workspaces(), path@, i as int);
                        }
                        let directory = if len - i > 1 {
                            let rest = path.substring_char(i + 1, len);
                            proof {
                                assert(rest@ =~= path@.skip(i + 1));
                                reveal_strlit("/");
                                assert("/"@ =~= seq!['/']);
                            }
                            join3(base.as_str(), "/", rest)
                        } else {
                            proof {
                                assert(remainder(path@, i as int) =~= Seq::<char>::empty());
                            }
                            base.clone()
                        };
                        return Some((WorkspaceName::new(candidate), directory));
                    },
                    None => {
                        proof {
                            assert(candidate@ =~= path@.take(i as int));
                        }
                    },
                }
            }
            i -= 1;
        }
        None
    }
}

} // verus!
