//! The configuration that a project declares: its tasks, and the sections
//! of instructions that provision it.
//!
//! The sections are kept in the order in which they were declared, in an
//! `IndexMap`. Verus does not read that crate: what the map holds is named
//! `sections_of`, and the four functions below state over that name what
//! the crate's methods do.

use crate::config::section::effect_views;
use crate::config::section::execute_from;
use crate::config::section::opening;
use crate::config::section::opening_answers;
use crate::config::section::performed;
use crate::config::section::Effect;
use crate::config::section::EffectView;
use crate::config::section::ExecutionContext;
use crate::config::section::Instruction;
use crate::config::section::Interruption;
use crate::config::section::stopped;
use crate::config::section::Stop;
use crate::config::section::Run;
use crate::config::section::Section;
use crate::todos::todo::Todo;
use indexmap::IndexMap;
use vstd::prelude::*;
use vstd::string::*;

verus! {

/// `indexmap::IndexMap`, declared so that it can stand in a field and in
/// signatures. Nothing of what is inside it is known here.
#[verifier::external_type_specification]
#[verifier::external_body]
#[verifier::reject_recursive_types(K)]
#[verifier::reject_recursive_types(V)]
#[verifier::reject_recursive_types(S)]
pub struct ExIndexMap<K, V, S>(IndexMap<K, V, S>);

/// A section as contracts state it: its name and its instructions.
pub type SectionEntry = (Seq<char>, Seq<Instruction>);

/// The sections that `map` holds, in the order in which it walks them.
pub uninterp spec fn sections_of(map: IndexMap<String, Vec<Instruction>>) -> Seq<SectionEntry>;

/// Whether one of `sections` has the name `name`.
pub open spec fn has_section(sections: Seq<SectionEntry>, name: Seq<char>) -> bool {
    exists|i: int| 0 <= i < sections.len() && (#[trigger] sections[i]).0 == name
}

/// Where the section `name` stands among `sections`.
pub open spec fn section_index(sections: Seq<SectionEntry>, name: Seq<char>) -> int {
    choose|i: int| 0 <= i < sections.len() && (#[trigger] sections[i]).0 == name
}

/// `sections` after the section `name` is declared with `instructions`: a
/// section of that name keeps its place and gets the instructions; a new
/// name goes to the end.
pub open spec fn declared(
    sections: Seq<SectionEntry>,
    name: Seq<char>,
    instructions: Seq<Instruction>,
) -> Seq<SectionEntry> {
    if has_section(sections, name) {
        sections.update(section_index(sections, name), (name, instructions))
    } else {
        sections.push((name, instructions))
    }
}

/// `IndexMap::new`: a map that holds nothing.
#[verifier::external_body]
fn sections_new() -> (map: IndexMap<String, Vec<Instruction>>)
    ensures
        sections_of(map) == Seq::<SectionEntry>::empty(),
{
    IndexMap::new()
}

/// `IndexMap::insert`: a key that the map holds keeps its place in the
/// order and gets the new value, and the value it had is returned; a key
/// that the map does not hold is added with the value, last in order, and
/// `None` is returned. Keys are the same key where they hold the same
/// characters.
#[verifier::external_body]
fn sections_insert(
    map: &mut IndexMap<String, Vec<Instruction>>,
    name: String,
    instructions: Vec<Instruction>,
) -> (previous: Option<Vec<Instruction>>)
    ensures
        sections_of(*final(map)) == declared(sections_of(*old(map)), name@, instructions@),
        match previous {
            Some(held) => has_section(sections_of(*old(map)), name@) && held@ == sections_of(
                *old(map),
            )[section_index(sections_of(*old(map)), name@)].1,
            None => !has_section(sections_of(*old(map)), name@),
        },
{
    map.insert(name, instructions)
}

/// `IndexMap::len`: the number of pairs that the map holds.
#[verifier::external_body]
fn sections_len(map: &IndexMap<String, Vec<Instruction>>) -> (n: usize)
    ensures
        n == sections_of(*map).len(),
{
    map.len()
}

/// `IndexMap::get_index`: the pair at place `i` of the order, for `i` below
/// the number of pairs, and `None` for any other `i`.
#[verifier::external_body]
fn sections_get(map: &IndexMap<String, Vec<Instruction>>, i: usize) -> (entry: Option<
    (&String, &Vec<Instruction>),
>)
    ensures
        match entry {
            Some((name, instructions)) => i < sections_of(*map).len() && name@ == sections_of(
                *map,
            )[i as int].0 && instructions@ == sections_of(*map)[i as int].1,
            None => i >= sections_of(*map).len(),
        },
{
    map.get_index(i)
}

/// The run after each of `sections`, in order, up to the first that fails.
/// Each section starts with fresh answers, and reads on in the inputs
/// where the section before it stopped.
pub open spec fn configured(
    sections: Seq<SectionEntry>,
    ctx: ExecutionContext,
    inputs: Seq<String>,
) -> Result<Run, Stop>
    decreases sections.len(),
{
    if sections.len() == 0 {
        Ok(opening(ctx))
    } else {
        match configured(sections.drop_last(), ctx, inputs) {
            Err(stop) => Err(stop),
            Ok(run) => performed(
                sections.last().1,
                ctx,
                inputs,
                Run { answers: opening_answers(ctx), ..run },
            ),
        }
    }
}

/// Where the first sections of a list fail, the list fails in the same way.
pub proof fn lemma_configured_fails(
    sections: Seq<SectionEntry>,
    ctx: ExecutionContext,
    inputs: Seq<String>,
    n: int,
)
    requires
        0 <= n <= sections.len(),
        configured(sections.take(n), ctx, inputs) is Err,
    ensures
        configured(sections, ctx, inputs) == configured(sections.take(n), ctx, inputs),
    decreases sections.len() - n,
{
    if n == sections.len() {
        assert(sections.take(n) =~= sections);
    } else {
        assert(sections.take(n + 1).drop_last() =~= sections.take(n));
        lemma_configured_fails(sections, ctx, inputs, n + 1);
    }
}

/// What a project declares: its tasks, if it declares any, and its
/// sections of instructions, if it declares any.
pub struct ProjectConfig {
    todos: Option<Vec<Todo>>,
    configure: Option<IndexMap<String, Vec<Instruction>>>,
}

impl ProjectConfig {
    /// The sections that the project declares, in order; none where it
    /// declares no sections at all.
    pub closed spec fn sections(&self) -> Seq<SectionEntry> {
        match self.configure {
            Some(map) => sections_of(map),
            None => Seq::empty(),
        }
    }

    /// The tasks that the project declares.
    pub closed spec fn declared_todos(&self) -> Option<Vec<Todo>> {
        self.todos
    }

    /// A configuration with the tasks `todos` and no sections.
    pub fn new(todos: Option<Vec<Todo>>) -> (config: ProjectConfig)
        ensures
            config.declared_todos() == todos,
            config.sections() == Seq::<SectionEntry>::empty(),
    {
        ProjectConfig { todos, configure: None }
    }

    /// Declares the section `name` with `instructions`. A section of that
    /// name keeps its place and gets the instructions; a new name goes to
    /// the end.
    pub fn add_section(&mut self, name: Section, instructions: Vec<Instruction>)
        ensures
            final(self).sections() == declared(old(self).sections(), name@, instructions@),
            final(self).declared_todos() == old(self).declared_todos(),
    {
        let mut map = match self.configure.take() {
            Some(map) => map,
            None => sections_new(),
        };
        sections_insert(&mut map, name.0, instructions);
        self.configure = Some(map);
    }

    /// The number of sections.
    pub fn section_count(&self) -> (n: usize)
        ensures
            n == self.sections().len(),
    {
        match &self.configure {
            Some(map) => sections_len(map),
            None => 0,
        }
    }

    /// The name and the instructions of section `i`, for `i` below the
    /// number of sections, and `None` for any other `i`.
    pub fn section_at(&self, i: usize) -> (entry: Option<(&String, &Vec<Instruction>)>)
        ensures
            match entry {
                Some((name, instructions)) => i < self.sections().len() && name@
                    == self.sections()[i as int].0 && instructions@ == self.sections()[i as int].1,
                None => i >= self.sections().len(),
            },
    {
        match &self.configure {
            Some(map) => sections_get(map, i),
            None => None,
        }
    }

    /// The tasks that the project declares.
    pub fn todos(&self) -> (todos: &Option<Vec<Todo>>)
        ensures
            *todos == self.declared_todos(),
    {
        &self.todos
    }

    /// Takes the tasks out of the configuration.
    pub fn into_todos(self) -> (todos: Option<Vec<Todo>>)
        ensures
            todos == self.declared_todos(),
    {
        self.todos
    }

    /// Works the sections off, in order, against `inputs`: the lines that
    /// the operator gives and the texts of the template files, in the order
    /// in which they are asked for. Returns what a host does for the
    /// sections, in order, where it succeeds in all of it. Where the run
    /// ends early, returns what the host had done by then, which is not
    /// undone, and the error.
    pub fn configure(&self, ctx: &ExecutionContext, inputs: &Vec<String>) -> (outcome: Result<
        Vec<Effect>,
        Interruption,
    >)
        ensures
            match outcome {
                Ok(effects) => configured(self.sections(), *ctx, inputs@) matches Ok(run)
                    && run.effects == effect_views(effects@),
                Err(stop) => configured(self.sections(), *ctx, inputs@) matches Err(expected)
                    && stopped(stop@, expected),
            },
    {
        let n = self.section_count();
        let mut effects: Vec<Effect> = Vec::new();
        let mut used: usize = 0;
        let mut i: usize = 0;
        proof {
            assert(self.sections().take(0) =~= Seq::<SectionEntry>::empty());
            assert(effect_views(effects@) =~= Seq::<EffectView>::empty());
        }
        while i < n
            invariant
                n == self.sections().len(),
                i <= n,
                used <= inputs@.len(),
                configured(self.sections().take(i as int), *ctx, inputs@) matches Ok(run)
                    && run.effects == effect_views(effects@) && run.used == used,
            decreases n - i,
        {
            proof {
                assert(self.sections().take(i + 1).drop_last() =~= self.sections().take(i as int));
                assert(self.sections().take(i + 1).last() == self.sections()[i as int]);
            }
            match self.section_at(i) {
                Some((_, instructions)) => {
                    match execute_from(instructions, ctx, inputs, effects, used) {
                        Ok((done, read)) => {
                            effects = done;
                            used = read;
                        },
                        Err(stop) => {
                            proof {
                                lemma_configured_fails(self.sections(), *ctx, inputs@, i + 1);
                            }
                            return Err(stop);
                        },
                    }
                },
                None => {},
            }
            i += 1;
        }
        proof {
            assert(self.sections().take(n as int) =~= self.sections());
        }
        Ok(effects)
    }
}

} // verus!
