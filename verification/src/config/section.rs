//! Provisioning: the instructions of a section, and the engine that works
//! them off.
//!
//! An instruction asks the operator a question, runs commands, or renders a
//! template into a file. None of that is done here. The engine says what an
//! instruction asks of the host (`Engine::request`), takes what the host
//! brings back (`Engine::record`, `Engine::render`), and keeps the answers
//! in between. `execute` works a whole list off against inputs that are
//! given beforehand, and returns what a host would have done.

use crate::config::template::placeholder_names;
use crate::config::template::placeholders;
use crate::table::distinct_keys;
use crate::table::has_key;
use crate::table::lemma_map_of_entry;
use crate::table::map_of;
use crate::table::position_of;
use crate::table::Table;
use crate::text::lemma_replaced_absent;
use crate::text::occurs_at;
use crate::text::replace_all;
use crate::text::replaced;
use crate::text::split_words;
use crate::text::words;
use crate::utils::error::EnzoError;
use crate::utils::error::EnzoErrorKind;
use crate::utils::query::AnswerKind;
use handlebars::Handlebars;
use std::collections::BTreeMap;
use vstd::prelude::*;
use vstd::string::*;

verus! {

/// The name of a section of a project's configuration.
#[derive(Debug, Hash)]
pub struct Section(pub String);

impl Clone for Section {
    fn clone(&self) -> (copy: Section)
        ensures
            copy@ == self@,
    {
        Section(self.0.clone())
    }
}

impl PartialEq for Section {
    fn eq(&self, other: &Section) -> (same: bool) {
        self.0 == other.0
    }
}

impl Eq for Section {

}

impl vstd::std_specs::cmp::PartialEqSpecImpl for Section {
    open spec fn obeys_eq_spec() -> bool {
        true
    }

    open spec fn eq_spec(&self, other: &Section) -> bool {
        self.0@ == other.0@
    }
}

impl View for Section {
    type V = Seq<char>;

    open spec fn view(&self) -> Seq<char> {
        self.0@
    }
}

/// One step of provisioning.
#[derive(Debug)]
pub enum Instruction {
    /// Asks the operator `question` and keeps the answer under the name
    /// `answer`.
    Ask { question: String, answer: String, default: Option<String>, hints: Option<Vec<String>> },
    /// Runs the command lines, one after the other.
    Run(Vec<String>),
    /// Renders the template at `template` with the answers, and writes the
    /// text to `output`.
    Pipe { template: String, output: String },
}

impl Clone for Instruction {
    fn clone(&self) -> (copy: Instruction)
        ensures
            copy.deep_view() == self.deep_view(),
    {
        match self {
            Instruction::Ask { question, answer, default, hints } => Instruction::Ask {
                question: question.clone(),
                answer: answer.clone(),
                default: match default {
                    Some(text) => Some(text.clone()),
                    None => None,
                },
                hints: match hints {
                    Some(texts) => Some(copy_texts(texts)),
                    None => None,
                },
            },
            Instruction::Run(lines) => Instruction::Run(copy_texts(lines)),
            Instruction::Pipe { template, output } => Instruction::Pipe {
                template: template.clone(),
                output: output.clone(),
            },
        }
    }
}

/// What an instruction holds.
pub enum InstructionView {
    Ask {
        question: Seq<char>,
        answer: Seq<char>,
        default: Option<Seq<char>>,
        hints: Option<Seq<Seq<char>>>,
    },
    Run(Seq<Seq<char>>),
    Pipe { template: Seq<char>, output: Seq<char> },
}

impl DeepView for Instruction {
    type V = InstructionView;

    open spec fn deep_view(&self) -> InstructionView {
        match self {
            Instruction::Ask { question, answer, default, hints } => InstructionView::Ask {
                question: question@,
                answer: answer@,
                default: default.deep_view(),
                hints: hints.deep_view(),
            },
            Instruction::Run(lines) => InstructionView::Run(lines.deep_view()),
            Instruction::Pipe { template, output } => InstructionView::Pipe {
                template: template@,
                output: output@,
            },
        }
    }
}

/// Where a run of provisioning takes place. It stays the same for the
/// whole run.
#[derive(Debug)]
pub struct ExecutionContext {
    /// The root of the repository.
    pub repo: String,
    /// The directory that is being provisioned.
    pub curr: String,
    /// What the repository's remote is called.
    pub remote: String,
}

/// The answers of a run, by name.
pub type AnswerEnvironment = Table<AnswerKind>;

/// A failure as contracts state it: the kind and the message of the error.
pub type Fault = (EnzoErrorKind, Seq<char>);

/// A command to spawn: the program and its arguments.
#[derive(Debug)]
pub struct Command {
    pub program: String,
    pub args: Vec<String>,
}

/// What a command holds.
pub struct CommandView {
    pub program: Seq<char>,
    pub args: Seq<Seq<char>>,
}

impl View for Command {
    type V = CommandView;

    open spec fn view(&self) -> CommandView {
        CommandView { program: self.program@, args: self.args.deep_view() }
    }
}

/// What an instruction asks of the host, with the answers filled in.
#[derive(Debug)]
pub enum Request {
    /// Ask the operator `question`, and record the line under `answer`.
    Ask { question: String, answer: String, default: Option<String>, hints: Option<Vec<String>> },
    /// Spawn the commands in order, and wait for each.
    Run(Vec<Command>),
    /// Read the file at `template`, render its text, and write what comes
    /// out to `output`.
    Pipe { template: String, output: String },
}

/// What a request holds.
pub enum RequestView {
    Ask {
        question: Seq<char>,
        answer: Seq<char>,
        default: Option<Seq<char>>,
        hints: Option<Seq<Seq<char>>>,
    },
    Run(Seq<CommandView>),
    Pipe { template: Seq<char>, output: Seq<char> },
}

/// What each of `commands` holds, in order.
pub open spec fn command_views(commands: Seq<Command>) -> Seq<CommandView> {
    Seq::new(commands.len(), |i: int| commands[i]@)
}

impl View for Request {
    type V = RequestView;

    open spec fn view(&self) -> RequestView {
        match self {
            Request::Ask { question, answer, default, hints } => RequestView::Ask {
                question: question@,
                answer: answer@,
                default: default.deep_view(),
                hints: hints.deep_view(),
            },
            Request::Run(commands) => RequestView::Run(command_views(commands@)),
            Request::Pipe { template, output } => RequestView::Pipe {
                template: template@,
                output: output@,
            },
        }
    }
}

/// The name under which a run starts with the remote of its context.
pub open spec fn remote_variable() -> Seq<char> {
    "remote"@
}

/// What is said of a name that is used as a single answer and holds another.
pub open spec fn not_single(name: Seq<char>) -> Seq<char> {
    "the answer to "@ + name + " is not a single string"@
}

/// What is said where an instruction needs an input and none is left.
pub open spec fn no_input() -> Seq<char> {
    "no input is left to read"@
}

/// What `token` becomes in a command line or a path. A token that is the
/// name of an answer becomes that answer, whole, and fails where the answer
/// is no single string. Any other token has `$repo` replaced by the root of
/// the repository, and in what comes of that `$curr` by the current
/// directory.
pub open spec fn substituted(
    token: Seq<char>,
    answers: Map<Seq<char>, AnswerKind>,
    ctx: ExecutionContext,
) -> Result<Seq<char>, Fault> {
    if answers.contains_key(token) {
        match answers[token] {
            AnswerKind::Single(value) => Ok(value@),
            _ => Err((EnzoErrorKind::FatalError, not_single(token))),
        }
    } else {
        Ok(replaced(replaced(token, "$repo"@, ctx.repo@), "$curr"@, ctx.curr@))
    }
}

/// What each of `tokens` becomes, in order; the failure of the first that
/// fails.
pub open spec fn substituted_all(
    tokens: Seq<Seq<char>>,
    answers: Map<Seq<char>, AnswerKind>,
    ctx: ExecutionContext,
) -> Result<Seq<Seq<char>>, Fault>
    decreases tokens.len(),
{
    if tokens.len() == 0 {
        Ok(Seq::empty())
    } else {
        match substituted_all(tokens.drop_last(), answers, ctx) {
            Err(fault) => Err(fault),
            Ok(before) => match substituted(tokens.last(), answers, ctx) {
                Err(fault) => Err(fault),
                Ok(token) => Ok(before.push(token)),
            },
        }
    }
}

/// The command that `line` stands for: the words of the line, each
/// substituted; the first is the program, the others are its arguments. A
/// line without a word stands for the program with the empty name, which no
/// host can spawn.
pub open spec fn command_of(
    line: Seq<char>,
    answers: Map<Seq<char>, AnswerKind>,
    ctx: ExecutionContext,
) -> Result<CommandView, Fault> {
    match substituted_all(words(line), answers, ctx) {
        Err(fault) => Err(fault),
        Ok(tokens) => if tokens.len() == 0 {
            Ok(CommandView { program: Seq::empty(), args: Seq::empty() })
        } else {
            Ok(CommandView { program: tokens[0], args: tokens.skip(1) })
        },
    }
}

/// The commands that `lines` stand for, in order; the failure of the first
/// that fails.
pub open spec fn commands_of(
    lines: Seq<String>,
    answers: Map<Seq<char>, AnswerKind>,
    ctx: ExecutionContext,
) -> Result<Seq<CommandView>, Fault>
    decreases lines.len(),
{
    if lines.len() == 0 {
        Ok(Seq::empty())
    } else {
        match commands_of(lines.drop_last(), answers, ctx) {
            Err(fault) => Err(fault),
            Ok(before) => match command_of(lines.last()@, answers, ctx) {
                Err(fault) => Err(fault),
                Ok(command) => Ok(before.push(command)),
            },
        }
    }
}

/// What `instruction` asks of the host, given `answers`.
pub open spec fn requested(
    instruction: Instruction,
    answers: Map<Seq<char>, AnswerKind>,
    ctx: ExecutionContext,
) -> Result<RequestView, Fault> {
    match instruction {
        Instruction::Ask { question, answer, default, hints } => Ok(
            RequestView::Ask {
                question: question@,
                answer: answer@,
                default: default.deep_view(),
                hints: hints.deep_view(),
            },
        ),
        Instruction::Run(lines) => match commands_of(lines@, answers, ctx) {
            Err(fault) => Err(fault),
            Ok(commands) => Ok(RequestView::Run(commands)),
        },
        Instruction::Pipe { template, output } => match substituted(template@, answers, ctx) {
            Err(fault) => Err(fault),
            Ok(from) => match substituted(output@, answers, ctx) {
                Err(fault) => Err(fault),
                Ok(to) => Ok(RequestView::Pipe { template: from, output: to }),
            },
        },
    }
}

/// A token that is the name of a single answer becomes that answer, whole,
/// whatever else the token holds.
pub proof fn law_answer_replaces_token(
    token: Seq<char>,
    answers: Map<Seq<char>, AnswerKind>,
    ctx: ExecutionContext,
    value: String,
)
    requires
        answers.contains_key(token),
        answers[token] == AnswerKind::Single(value),
    ensures
        substituted(token, answers, ctx) == Ok::<Seq<char>, Fault>(value@),
{
}

/// A token that is the name of no answer has its occurrences of `$repo`
/// and `$curr` replaced, and nothing else.
pub proof fn law_other_token_keeps_its_text(
    token: Seq<char>,
    answers: Map<Seq<char>, AnswerKind>,
    ctx: ExecutionContext,
)
    requires
        !answers.contains_key(token),
    ensures
        substituted(token, answers, ctx) == Ok::<Seq<char>, Fault>(
            replaced(replaced(token, "$repo"@, ctx.repo@), "$curr"@, ctx.curr@),
        ),
{
}

/// A token that is the name of no answer and holds neither `$repo` nor
/// `$curr` stays as it is.
pub proof fn law_plain_token_passes(
    token: Seq<char>,
    answers: Map<Seq<char>, AnswerKind>,
    ctx: ExecutionContext,
)
    requires
        !answers.contains_key(token),
        forall|i: int| !occurs_at(token, "$repo"@, i),
        forall|i: int| !occurs_at(token, "$curr"@, i),
    ensures
        substituted(token, answers, ctx) == Ok::<Seq<char>, Fault>(token),
{
    lemma_replaced_absent(token, "$repo"@, ctx.repo@);
    lemma_replaced_absent(token, "$curr"@, ctx.curr@);
}

/// How contracts state an outcome that is a string or an error.
pub open spec fn text_outcome(outcome: Result<String, EnzoError>) -> Result<Seq<char>, Fault> {
    match outcome {
        Ok(text) => Ok(text@),
        Err(error) => Err(error@),
    }
}

/// Substitutes `arg`, a word of a command line or a path.
pub fn process_arg(arg: &str, answers: &AnswerEnvironment, ctx: &ExecutionContext) -> (outcome:
    Result<String, EnzoError>)
    ensures
        text_outcome(outcome) == substituted(arg@, answers@, *ctx),
{
    match answers.get(arg) {
        Some(AnswerKind::Single(value)) => Ok(value.clone()),
        Some(_) => {
            let mut msg = String::from_str("the answer to ");
            msg.append(arg);
            msg.append(" is not a single string");
            Err(EnzoError::new(msg, EnzoErrorKind::FatalError))
        },
        None => {
            let with_repo = replace_all(arg, "$repo", ctx.repo.as_str());
            Ok(replace_all(with_repo.as_str(), "$curr", ctx.curr.as_str()))
        },
    }
}

/// Where the first words of a line fail, the line fails in the same way.
pub proof fn lemma_substituted_all_fails(
    tokens: Seq<Seq<char>>,
    answers: Map<Seq<char>, AnswerKind>,
    ctx: ExecutionContext,
    n: int,
)
    requires
        0 <= n <= tokens.len(),
        substituted_all(tokens.take(n), answers, ctx) is Err,
    ensures
        substituted_all(tokens, answers, ctx) == substituted_all(tokens.take(n), answers, ctx),
    decreases tokens.len() - n,
{
    if n == tokens.len() {
        assert(tokens.take(n) =~= tokens);
    } else {
        assert(tokens.take(n + 1).drop_last() =~= tokens.take(n));
        lemma_substituted_all_fails(tokens, answers, ctx, n + 1);
    }
}

/// Where the first lines of a list fail, the list fails in the same way.
pub proof fn lemma_commands_of_fails(
    lines: Seq<String>,
    answers: Map<Seq<char>, AnswerKind>,
    ctx: ExecutionContext,
    n: int,
)
    requires
        0 <= n <= lines.len(),
        commands_of(lines.take(n), answers, ctx) is Err,
    ensures
        commands_of(lines, answers, ctx) == commands_of(lines.take(n), answers, ctx),
    decreases lines.len() - n,
{
    if n == lines.len() {
        assert(lines.take(n) =~= lines);
    } else {
        assert(lines.take(n + 1).drop_last() =~= lines.take(n));
        lemma_commands_of_fails(lines, answers, ctx, n + 1);
    }
}

/// How contracts state an outcome that is a command or an error.
pub open spec fn command_outcome(outcome: Result<Command, EnzoError>) -> Result<
    CommandView,
    Fault,
> {
    match outcome {
        Ok(command) => Ok(command@),
        Err(error) => Err(error@),
    }
}

/// The command that `line` stands for: splits the line into words and
/// substitutes each.
pub fn command_line(line: &str, answers: &AnswerEnvironment, ctx: &ExecutionContext) -> (outcome:
    Result<Command, EnzoError>)
    ensures
        command_outcome(outcome) == command_of(line@, answers@, *ctx),
{
    let tokens = split_words(line);
    let ghost all = tokens.deep_view();
    let mut out: Vec<String> = Vec::new();
    let mut i: usize = 0;
    proof {
        assert(all.take(0) =~= Seq::<Seq<char>>::empty());
        assert(out.deep_view() =~= Seq::<Seq<char>>::empty());
    }
    while i < tokens.len()
        invariant
            all == tokens.deep_view(),
            all == words(line@),
            i <= tokens@.len(),
            substituted_all(all.take(i as int), answers@, *ctx) == Ok::<Seq<Seq<char>>, Fault>(
                out.deep_view(),
            ),
        decreases tokens@.len() - i,
    {
        let ghost before = out.deep_view();
        proof {
            assert(all.take(i + 1).drop_last() =~= all.take(i as int));
            assert(all.take(i + 1).last() == tokens@[i as int]@);
        }
        match process_arg(tokens[i].as_str(), answers, ctx) {
            Ok(token) => {
                out.push(token);
                proof {
                    assert(out.deep_view() =~= before.push(token@));
                }
            },
            Err(error) => {
                proof {
                    lemma_substituted_all_fails(all, answers@, *ctx, i + 1);
                }
                return Err(error);
            },
        }
        i += 1;
    }
    proof {
        assert(all.take(tokens@.len() as int) =~= all);
    }
    if out.len() == 0 {
        let command = Command { program: String::new(), args: Vec::new() };
        proof {
            assert(command.args.deep_view() =~= Seq::<Seq<char>>::empty());
        }
        Ok(command)
    } else {
        let ghost substituted = out.deep_view();
        let program = out.remove(0);
        proof {
            assert(out.deep_view() =~= substituted.skip(1));
        }
        Ok(Command { program, args: out })
    }
}

/// A copy of `texts`.
pub fn copy_texts(texts: &Vec<String>) -> (copy: Vec<String>)
    ensures
        copy.deep_view() == texts.deep_view(),
{
    let mut copy: Vec<String> = Vec::new();
    let mut i: usize = 0;
    while i < texts.len()
        invariant
            i <= texts@.len(),
            copy@.len() == i,
            forall|j: int| 0 <= j < i ==> (#[trigger] copy@[j])@ == texts@[j]@,
        decreases texts@.len() - i,
    {
        copy.push(texts[i].clone());
        i += 1;
    }
    proof {
        assert(copy.deep_view() =~= texts.deep_view());
    }
    copy
}

/// How contracts state an outcome that is a request or an error.
pub open spec fn request_outcome(outcome: Result<Request, EnzoError>) -> Result<
    RequestView,
    Fault,
> {
    match outcome {
        Ok(request) => Ok(request@),
        Err(error) => Err(error@),
    }
}

/// What is rendered of `answers`: each name that holds a single string,
/// with that string. Answers of another form are not part of it.
pub open spec fn bindings(answers: Map<Seq<char>, AnswerKind>) -> Map<Seq<char>, Seq<char>> {
    Map::new(
        |name: Seq<char>| answers.contains_key(name) && answers[name] is Single,
        |name: Seq<char>| answers[name]->Single_0@,
    )
}

/// The map that a duplicate-free list of names and strings stands for.
pub open spec fn pair_map(pairs: Seq<(String, String)>) -> Map<Seq<char>, Seq<char>> {
    Map::new(
        |name: Seq<char>| has_key(pairs, name),
        |name: Seq<char>| pairs[position_of(pairs, name)].1@,
    )
}

/// The text that the template engine makes of `template`, a text with
/// placeholders, and the data `bindings`; `None` where the engine fails.
pub uninterp spec fn rendered(template: Seq<char>, bindings: Map<Seq<char>, Seq<char>>) -> Option<
    Seq<char>,
>;

/// Renders `template` with handlebars: `Handlebars::render_template` on a
/// registry as `Handlebars::new` makes it, with `pairs` as a map from names
/// to strings for the data.
///
/// The contract claims that whether the call succeeds, and with what text,
/// depends on the template and on that map alone; that is called
/// `rendered`. Of a failure it claims nothing but that; the message is
/// handed back as the engine's error displays it.
///
/// Only text with placeholders is let in. Of handlebars' source that much
/// was read: such a template compiles to raw strings and expressions that
/// are a name and no more, the name is none of the registered helpers, and
/// each expression looks its name up in the data and writes the string it
/// finds, escaped, or nothing. Other tags are left out because some of them
/// do not return (a partial that takes itself in) or panic (a path of `@`
/// and `this`).
#[verifier::external_body]
fn render_template(template: &str, pairs: &Vec<(String, String)>) -> (outcome: Result<
    String,
    String,
>)
    requires
        distinct_keys(pairs@),
        placeholders(template@) is Some,
    ensures
        match outcome {
            Ok(text) => rendered(template@, pair_map(pairs@)) == Some(text@),
            Err(_) => rendered(template@, pair_map(pairs@)) is None,
        },
{
    let data: BTreeMap<String, String> = pairs.iter().cloned().collect();
    match Handlebars::new().render_template(template, &data) {
        Ok(text) => Ok(text),
        Err(error) => Err(format!("{}", error)),
    }
}

/// What a rendering comes to, given what the template engine handed back:
/// its text, or a fatal error with its message.
pub open spec fn rendering_of(outcome: Result<Seq<char>, Seq<char>>) -> Result<Seq<char>, Fault> {
    match outcome {
        Ok(text) => Ok(text),
        Err(msg) => Err((EnzoErrorKind::FatalError, msg)),
    }
}

/// Why something did not come about.
pub enum Cause {
    /// The library refused, with this kind and message.
    Stated(Fault),
    /// The template engine failed. The error is fatal, and its message is
    /// the engine's own.
    Engine,
}

/// Whether an error of kind and message `fault` reports `cause`.
pub open spec fn tells(fault: Fault, cause: Cause) -> bool {
    match cause {
        Cause::Stated(stated) => fault == stated,
        Cause::Engine => fault.0 == EnzoErrorKind::FatalError,
    }
}

/// What is said of a template that is more than text with placeholders.
pub open spec fn not_plain() -> Seq<char> {
    "the template holds more than text and placeholders"@
}

/// The first of `names` whose answer is no single string, if there is one.
/// A name without an answer is none of these: it renders as nothing.
pub open spec fn first_unrenderable(
    names: Seq<Seq<char>>,
    answers: Map<Seq<char>, AnswerKind>,
) -> Option<Seq<char>>
    decreases names.len(),
{
    if names.len() == 0 {
        None
    } else {
        match first_unrenderable(names.drop_last(), answers) {
            Some(name) => Some(name),
            None => if answers.contains_key(names.last()) && !(answers[names.last()] is Single) {
                Some(names.last())
            } else {
                None
            },
        }
    }
}

/// What rendering `template` with `answers` comes to. A template that is
/// not text with placeholders is refused. So is one with a placeholder
/// whose answer is no single string; the error names the first such
/// placeholder. Answers that no placeholder names may be of any form.
/// Else the template engine renders the template with the single answers.
pub open spec fn rendering(template: Seq<char>, answers: Map<Seq<char>, AnswerKind>) -> Result<
    Seq<char>,
    Cause,
> {
    match placeholders(template) {
        None => Err(Cause::Stated((EnzoErrorKind::FatalError, not_plain()))),
        Some(names) => match first_unrenderable(names, answers) {
            Some(name) => Err(Cause::Stated((EnzoErrorKind::FatalError, not_single(name)))),
            None => match rendered(template, bindings(answers)) {
                Some(text) => Ok(text),
                None => Err(Cause::Engine),
            },
        },
    }
}

/// Where one of the first names has an answer that is no single string,
/// that name is the first of all such names.
pub proof fn lemma_first_unrenderable_found(
    names: Seq<Seq<char>>,
    answers: Map<Seq<char>, AnswerKind>,
    n: int,
)
    requires
        0 <= n <= names.len(),
        first_unrenderable(names.take(n), answers) is Some,
    ensures
        first_unrenderable(names, answers) == first_unrenderable(names.take(n), answers),
    decreases names.len() - n,
{
    if n == names.len() {
        assert(names.take(n) =~= names);
    } else {
        assert(names.take(n + 1).drop_last() =~= names.take(n));
        lemma_first_unrenderable_found(names, answers, n + 1);
    }
}

/// Whether `outcome` is what `expected` asks for: the text, or an error
/// that reports the cause.
pub open spec fn rendering_agrees(
    outcome: Result<String, EnzoError>,
    expected: Result<Seq<char>, Cause>,
) -> bool {
    match expected {
        Ok(text) => outcome matches Ok(found) && found@ == text,
        Err(cause) => outcome matches Err(error) && tells(error@, cause),
    }
}

/// Turns what the template engine handed back into the outcome of a
/// rendering: its text is the text, its message becomes a fatal error.
pub fn rendering_outcome(outcome: Result<String, String>) -> (result: Result<String, EnzoError>)
    ensures
        text_outcome(result) == rendering_of(
            match outcome {
                Ok(text) => Ok(text@),
                Err(msg) => Err(msg@),
            },
        ),
{
    match outcome {
        Ok(text) => Ok(text),
        Err(msg) => Err(EnzoError::new(msg, EnzoErrorKind::FatalError)),
    }
}

/// The state of a run of provisioning: the answers so far.
pub struct Engine {
    answers: AnswerEnvironment,
}

impl Engine {
    /// The answers so far, by name.
    pub closed spec fn answers(&self) -> Map<Seq<char>, AnswerKind> {
        self.answers@
    }

    /// The state in which a run starts: the one answer is the remote of
    /// `ctx`, under the name `remote`.
    pub fn start(ctx: &ExecutionContext) -> (engine: Engine)
        ensures
            engine.answers() == Map::<Seq<char>, AnswerKind>::empty().insert(
                remote_variable(),
                AnswerKind::Single(ctx.remote),
            ),
    {
        let mut answers: AnswerEnvironment = Table::new();
        answers.insert(String::from_str("remote"), AnswerKind::Single(ctx.remote.clone()));
        Engine { answers }
    }

    /// The state of a run that takes up with `answers`.
    pub fn with_answers(answers: AnswerEnvironment) -> (engine: Engine)
        ensures
            engine.answers() == answers@,
    {
        Engine { answers }
    }

    /// The answers so far.
    pub fn table(&self) -> (answers: &AnswerEnvironment)
        ensures
            answers@ == self.answers(),
    {
        &self.answers
    }

    /// What `instruction` asks of the host, with the answers so far filled
    /// in.
    pub fn request(&self, instruction: &Instruction, ctx: &ExecutionContext) -> (outcome: Result<
        Request,
        EnzoError,
    >)
        ensures
            request_outcome(outcome) == requested(*instruction, self.answers(), *ctx),
    {
        match instruction {
            Instruction::Ask { question, answer, default, hints } => {
                let default = match default {
                    Some(text) => Some(text.clone()),
                    None => None,
                };
                let hints = match hints {
                    Some(texts) => Some(copy_texts(texts)),
                    None => None,
                };
                Ok(Request::Ask { question: question.clone(), answer: answer.clone(), default, hints })
            },
            Instruction::Run(lines) => {
                let mut commands: Vec<Command> = Vec::new();
                let mut i: usize = 0;
                proof {
                    assert(lines@.take(0) =~= Seq::<String>::empty());
                    assert(command_views(commands@) =~= Seq::<CommandView>::empty());
                }
                while i < lines.len()
                    invariant
                        *instruction == Instruction::Run(*lines),
                        i <= lines@.len(),
                        commands_of(lines@.take(i as int), self.answers(), *ctx) == Ok::<
                            Seq<CommandView>,
                            Fault,
                        >(command_views(commands@)),
                    decreases lines@.len() - i,
                {
                    let ghost before = command_views(commands@);
                    proof {
                        assert(lines@.take(i + 1).drop_last() =~= lines@.take(i as int));
                        assert(lines@.take(i + 1).last() == lines@[i as int]);
                    }
                    match command_line(lines[i].as_str(), &self.answers, ctx) {
                        Ok(command) => {
                            commands.push(command);
                            proof {
                                assert(command_views(commands@) =~= before.push(command@));
                            }
                        },
                        Err(error) => {
                            proof {
                                assert(commands_of(lines@.take(i + 1), self.answers(), *ctx) == Err::<
                                    Seq<CommandView>,
                                    Fault,
                                >(error@));
                                lemma_commands_of_fails(lines@, self.answers(), *ctx, i + 1);
                            }
                            return Err(error);
                        },
                    }
                    i += 1;
                }
                proof {
                    assert(lines@.take(lines@.len() as int) =~= lines@);
                }
                Ok(Request::Run(commands))
            },
            Instruction::Pipe { template, output } => {
                let from = match process_arg(template.as_str(), &self.answers, ctx) {
                    Ok(path) => path,
                    Err(error) => {
                        return Err(error);
                    },
                };
                match process_arg(output.as_str(), &self.answers, ctx) {
                    Ok(to) => Ok(Request::Pipe { template: from, output: to }),
                    Err(error) => Err(error),
                }
            },
        }
    }

    /// Records `line` as the single answer of `name`, in place of any
    /// answer that `name` had.
    pub fn record(&mut self, name: &str, line: String)
        ensures
            final(self).answers() == old(self).answers().insert(name@, AnswerKind::Single(line)),
    {
        self.answers.insert(String::from_str(name), AnswerKind::Single(line));
    }

    /// The answers so far that are single strings, each name with its
    /// string.
    fn singles(&self) -> (singles: Table<String>)
        ensures
            forall|name: Seq<char>| #[trigger]
                singles@.contains_key(name) <==> bindings(self.answers()).contains_key(name),
            forall|name: Seq<char>| #[trigger]
                singles@.contains_key(name) ==> singles@[name]@ == bindings(self.answers())[name],
    {
        let n = self.answers.len();
        let ghost listing = self.answers.listing();
        let mut singles: Table<String> = Table::new();
        let mut i: usize = 0;
        while i < n
            invariant
                n == listing.len(),
                listing == self.answers.listing(),
                distinct_keys(listing),
                map_of(listing) == self.answers@,
                i <= n,
                forall|name: Seq<char>| #[trigger]
                    singles@.contains_key(name) <==> exists|j: int|
                        0 <= j < i && (#[trigger] listing[j]).0@ == name && listing[j].1 is Single,
                forall|j: int|
                    0 <= j < i && (#[trigger] listing[j]).1 is Single ==> singles@[listing[j].0@]
                        == listing[j].1->Single_0,
            decreases n - i,
        {
            let ghost before = singles@;
            match self.answers.value_at(i) {
                AnswerKind::Single(value) => {
                    let key = self.answers.key_at(i).clone();
                    let text = value.clone();
                    singles.insert(key, text);
                    proof {
                        assert forall|name: Seq<char>| #[trigger]
                            singles@.contains_key(name) <==> exists|j: int|
                                0 <= j < i + 1 && (#[trigger] listing[j]).0@ == name
                                    && listing[j].1 is Single by {
                            if singles@.contains_key(name) {
                                if name == key@ {
                                    assert(listing[i as int].0@ == name);
                                } else {
                                    assert(before.contains_key(name));
                                }
                            }
                        }
                        assert forall|j: int|
                            0 <= j < i + 1 && (#[trigger] listing[j]).1 is Single implies singles@[listing[j].0@]
                                == listing[j].1->Single_0 by {
                            if j < i {
                                assert(listing[j].0@ != listing[i as int].0@);
                            }
                        }
                    }
                },
                _ => {},
            }
            i += 1;
        }
        proof {
            let data = bindings(self.answers());
            assert forall|name: Seq<char>| #[trigger]
                singles@.contains_key(name) <==> data.contains_key(name) by {
                if singles@.contains_key(name) {
                    let j = choose|j: int|
                        0 <= j < n && (#[trigger] listing[j]).0@ == name && listing[j].1 is Single;
                    lemma_map_of_entry(listing, j);
                }
                if data.contains_key(name) {
                    let p = position_of(listing, name);
                    lemma_map_of_entry(listing, p);
                }
            }
            assert forall|name: Seq<char>| #[trigger]
                singles@.contains_key(name) implies singles@[name]@ == data[name] by {
                let j = choose|j: int|
                    0 <= j < n && (#[trigger] listing[j]).0@ == name && listing[j].1 is Single;
                lemma_map_of_entry(listing, j);
            }
        }
        singles
    }

    /// The names and strings of the answers so far that are single
    /// strings, each name once.
    fn pairs(&self) -> (pairs: Vec<(String, String)>)
        ensures
            distinct_keys(pairs@),
            pair_map(pairs@) == bindings(self.answers()),
    {
        let singles = self.singles();
        let n = singles.len();
        let mut pairs: Vec<(String, String)> = Vec::new();
        let mut i: usize = 0;
        while i < n
            invariant
                n == singles.listing().len(),
                distinct_keys(singles.listing()),
                map_of(singles.listing()) == singles@,
                i <= n,
                pairs@ == singles.listing().take(i as int),
            decreases n - i,
        {
            let name = singles.key_at(i).clone();
            let text = singles.value_at(i).clone();
            proof {
                assert(singles.listing().take(i + 1) =~= pairs@.push((name, text)));
            }
            pairs.push((name, text));
            i += 1;
        }
        proof {
            assert(pairs@ =~= singles.listing());
            let data = bindings(self.answers());
            assert forall|name: Seq<char>| pair_map(pairs@).contains_key(name) <==> data.contains_key(
                name,
            ) by {
                assert(pair_map(pairs@).contains_key(name) <==> singles@.contains_key(name));
            }
            assert forall|name: Seq<char>| pair_map(pairs@).contains_key(name) implies pair_map(
                pairs@,
            )[name] == data[name] by {
                assert(singles@.contains_key(name));
                assert(pair_map(pairs@)[name] == singles@[name]@);
            }
            assert(pair_map(pairs@) =~= data);
        }
        pairs
    }

    /// The first of `names` whose answer so far is no single string, if
    /// there is one.
    fn unrenderable(&self, names: &Vec<String>) -> (found: Option<usize>)
        ensures
            match found {
                Some(i) => i < names@.len() && first_unrenderable(
                    names.deep_view(),
                    self.answers(),
                ) == Some(names@[i as int]@),
                None => first_unrenderable(names.deep_view(), self.answers()) is None,
            },
    {
        let ghost all = names.deep_view();
        let mut i: usize = 0;
        proof {
            assert(all.take(0) =~= Seq::<Seq<char>>::empty());
        }
        while i < names.len()
            invariant
                all == names.deep_view(),
                i <= names@.len(),
                first_unrenderable(all.take(i as int), self.answers()) is None,
            decreases names@.len() - i,
        {
            proof {
                assert(all.take(i + 1).drop_last() =~= all.take(i as int));
                assert(all.take(i + 1).last() == names@[i as int]@);
            }
            match self.answers.get(names[i].as_str()) {
                Some(AnswerKind::Single(_)) => {},
                Some(_) => {
                    proof {
                        lemma_first_unrenderable_found(all, self.answers(), i + 1);
                    }
                    return Some(i);
                },
                None => {},
            }
            i += 1;
        }
        proof {
            assert(all.take(names@.len() as int) =~= all);
        }
        None
    }

    /// Renders the text `template` with the answers so far: has the
    /// template engine put, for each placeholder, what it makes of the
    /// single string that the placeholder names. A template that is more
    /// than text with placeholders is not rendered, nor one that names an
    /// answer of another form.
    pub fn render(&self, template: &str) -> (outcome: Result<String, EnzoError>)
        ensures
            rendering_agrees(outcome, rendering(template@, self.answers())),
    {
        let names = match placeholder_names(template) {
            Some(names) => names,
            None => {
                return Err(
                    EnzoError::new(
                        String::from_str("the template holds more than text and placeholders"),
                        EnzoErrorKind::FatalError,
                    ),
                );
            },
        };
        match self.unrenderable(&names) {
            Some(i) => {
                let mut msg = String::from_str("the answer to ");
                msg.append(names[i].as_str());
                msg.append(" is not a single string");
                Err(EnzoError::new(msg, EnzoErrorKind::FatalError))
            },
            None => {
                let pairs = self.pairs();
                rendering_outcome(render_template(template, &pairs))
            },
        }
    }
}

/// Something that a host does for an instruction.
#[derive(Debug)]
pub enum Effect {
    /// The operator was asked `question`, and gave a line.
    Ask { question: String, default: Option<String>, hints: Option<Vec<String>> },
    /// The command was spawned, and ended.
    Spawn(Command),
    /// The file at `path` was read.
    Read { path: String },
    /// `text` was written to the file at `path`.
    Write { path: String, text: String },
}

/// What an effect holds.
pub enum EffectView {
    Ask { question: Seq<char>, default: Option<Seq<char>>, hints: Option<Seq<Seq<char>>> },
    Spawn(CommandView),
    Read { path: Seq<char> },
    Write { path: Seq<char>, text: Seq<char> },
}

impl View for Effect {
    type V = EffectView;

    open spec fn view(&self) -> EffectView {
        match self {
            Effect::Ask { question, default, hints } => EffectView::Ask {
                question: question@,
                default: default.deep_view(),
                hints: hints.deep_view(),
            },
            Effect::Spawn(command) => EffectView::Spawn(command@),
            Effect::Read { path } => EffectView::Read { path: path@ },
            Effect::Write { path, text } => EffectView::Write { path: path@, text: text@ },
        }
    }
}

/// What each of `effects` holds, in order.
pub open spec fn effect_views(effects: Seq<Effect>) -> Seq<EffectView> {
    Seq::new(effects.len(), |i: int| effects[i]@)
}

/// The spawning of each of `commands`, in order.
pub open spec fn spawns(commands: Seq<CommandView>) -> Seq<EffectView> {
    Seq::new(commands.len(), |i: int| EffectView::Spawn(commands[i]))
}

/// How far a run has come: what the host has done, the answers, and how
/// many of the inputs have been read.
pub struct Run {
    pub effects: Seq<EffectView>,
    pub answers: Map<Seq<char>, AnswerKind>,
    pub used: nat,
}

/// A run that ended early: what the host had done by then, which stays
/// done, and the error that ended the run.
#[derive(Debug)]
pub struct Interruption {
    pub done: Vec<Effect>,
    pub error: EnzoError,
}

/// What an interruption holds.
pub struct InterruptionView {
    pub done: Seq<EffectView>,
    pub fault: Fault,
}

impl View for Interruption {
    type V = InterruptionView;

    open spec fn view(&self) -> InterruptionView {
        InterruptionView { done: effect_views(self.done@), fault: self.error@ }
    }
}

/// How a run ends early: what the host had done by then, and why the run
/// ended.
pub struct Stop {
    pub done: Seq<EffectView>,
    pub cause: Cause,
}

/// Whether `stop` is the interruption that `expected` asks for: the same
/// was done, and the error reports the cause.
pub open spec fn stopped(stop: InterruptionView, expected: Stop) -> bool {
    stop.done == expected.done && tells(stop.fault, expected.cause)
}

/// The answers with which a list of instructions starts: the remote of
/// `ctx`, under the name `remote`.
pub open spec fn opening_answers(ctx: ExecutionContext) -> Map<Seq<char>, AnswerKind> {
    Map::<Seq<char>, AnswerKind>::empty().insert(remote_variable(), AnswerKind::Single(ctx.remote))
}

/// The run in which nothing has been done yet.
pub open spec fn opening(ctx: ExecutionContext) -> Run {
    Run { effects: Seq::empty(), answers: opening_answers(ctx), used: 0 }
}

/// The run that takes up, with fresh answers, after a host has done
/// `effects` and read the first `used` inputs.
pub open spec fn resumed(ctx: ExecutionContext, effects: Seq<Effect>, used: usize) -> Run {
    Run { effects: effect_views(effects), answers: opening_answers(ctx), used: used as nat }
}

/// The run after `instruction`, where the host succeeds in what it is asked
/// to do. A question reads the next input as the operator's line and keeps
/// it as a single answer, in place of any answer of that name. Commands are
/// spawned in order. A template reads the next input as the text of the
/// template file, and what is rendered is written. The run ends early
/// where the request fails, where an input is needed and none is left, and
/// where the rendering fails; of the failing instruction the host has then
/// done nothing, but for the template that was read and did not render.
pub open spec fn run_after(
    instruction: Instruction,
    ctx: ExecutionContext,
    inputs: Seq<String>,
    run: Run,
) -> Result<Run, Stop> {
    match requested(instruction, run.answers, ctx) {
        Err(fault) => Err(Stop { done: run.effects, cause: Cause::Stated(fault) }),
        Ok(RequestView::Ask { question, answer, default, hints }) => if run.used < inputs.len() {
            Ok(
                Run {
                    effects: run.effects.push(EffectView::Ask { question, default, hints }),
                    answers: run.answers.insert(
                        answer,
                        AnswerKind::Single(inputs[run.used as int]),
                    ),
                    used: run.used + 1,
                },
            )
        } else {
            Err(
                Stop {
                    done: run.effects,
                    cause: Cause::Stated((EnzoErrorKind::FatalError, no_input())),
                },
            )
        },
        Ok(RequestView::Run(commands)) => Ok(
            Run { effects: run.effects + spawns(commands), ..run },
        ),
        Ok(RequestView::Pipe { template, output }) => if run.used < inputs.len() {
            match rendering(inputs[run.used as int]@, run.answers) {
                Err(cause) => Err(
                    Stop { done: run.effects.push(EffectView::Read { path: template }), cause },
                ),
                Ok(text) => Ok(
                    Run {
                        effects: run.effects.push(EffectView::Read { path: template }).push(
                            EffectView::Write { path: output, text },
                        ),
                        used: run.used + 1,
                        ..run
                    },
                ),
            }
        } else {
            Err(
                Stop {
                    done: run.effects,
                    cause: Cause::Stated((EnzoErrorKind::FatalError, no_input())),
                },
            )
        },
    }
}

/// The run after `instructions`, begun at `start`: one instruction after
/// the other, in order, up to the first that fails.
pub open spec fn performed(
    instructions: Seq<Instruction>,
    ctx: ExecutionContext,
    inputs: Seq<String>,
    start: Run,
) -> Result<Run, Stop>
    decreases instructions.len(),
{
    if instructions.len() == 0 {
        Ok(start)
    } else {
        match performed(instructions.drop_last(), ctx, inputs, start) {
            Err(stop) => Err(stop),
            Ok(run) => run_after(instructions.last(), ctx, inputs, run),
        }
    }
}

/// Where the first instructions of a list fail, the list fails in the same
/// way.
pub proof fn lemma_performed_fails(
    instructions: Seq<Instruction>,
    ctx: ExecutionContext,
    inputs: Seq<String>,
    start: Run,
    n: int,
)
    requires
        0 <= n <= instructions.len(),
        performed(instructions.take(n), ctx, inputs, start) is Err,
    ensures
        performed(instructions, ctx, inputs, start) == performed(
            instructions.take(n),
            ctx,
            inputs,
            start,
        ),
    decreases instructions.len() - n,
{
    if n == instructions.len() {
        assert(instructions.take(n) =~= instructions);
    } else {
        assert(instructions.take(n + 1).drop_last() =~= instructions.take(n));
        lemma_performed_fails(instructions, ctx, inputs, start, n + 1);
    }
}

/// A question keeps the operator's line as the answer of its name, whatever
/// that name held before, and leaves the other answers as they are. It
/// needs nothing but an input that has not been read.
pub proof fn law_ask_overwrites(
    ask: Instruction,
    ctx: ExecutionContext,
    inputs: Seq<String>,
    run: Run,
)
    requires
        ask is Ask,
        run.used < inputs.len(),
    ensures
        run_after(ask, ctx, inputs, run) matches Ok(next) && next.answers == run.answers.insert(
            ask->answer@,
            AnswerKind::Single(inputs[run.used as int]),
        ) && next.answers[ask->answer@] == AnswerKind::Single(inputs[run.used as int]),
{
}

/// Asking the same question again with the same line changes no answer.
pub proof fn law_ask_again_changes_nothing(
    ask: Instruction,
    ctx: ExecutionContext,
    line: String,
    run: Run,
)
    requires
        ask is Ask,
    ensures
        run_after(ask, ctx, seq![line], Run { used: 0, ..run }) matches Ok(once) && run_after(
            ask,
            ctx,
            seq![line],
            Run { used: 0, ..once },
        ) matches Ok(twice) && twice.answers == once.answers,
{
    let once = run_after(ask, ctx, seq![line], Run { used: 0, ..run })->Ok_0;
    let twice = run_after(ask, ctx, seq![line], Run { used: 0, ..once })->Ok_0;
    assert(twice.answers =~= once.answers);
}

/// Works `instructions` off, in order, with fresh answers, after a host has
/// done `effects` and read the first `used` of `inputs`. Returns what the
/// host has done by the end, and how many inputs have been read; where the
/// run ends early, what the host had done by then, and the error.
pub fn execute_from(
    instructions: &Vec<Instruction>,
    ctx: &ExecutionContext,
    inputs: &Vec<String>,
    effects: Vec<Effect>,
    used: usize,
) -> (outcome: Result<(Vec<Effect>, usize), Interruption>)
    requires
        used <= inputs@.len(),
    ensures
        match outcome {
            Ok((done, read)) => performed(instructions@, *ctx, inputs@, resumed(*ctx, effects@, used))
                matches Ok(run) && run.effects == effect_views(done@) && run.used == read && read
                <= inputs@.len(),
            Err(stop) => performed(instructions@, *ctx, inputs@, resumed(*ctx, effects@, used))
                matches Err(expected) && stopped(stop@, expected),
        },
{
    let ghost start = resumed(*ctx, effects@, used);
    let mut engine = Engine::start(ctx);
    let mut done = effects;
    let mut read = used;
    let mut i: usize = 0;
    proof {
        assert(instructions@.take(0) =~= Seq::<Instruction>::empty());
    }
    while i < instructions.len()
        invariant
            start == resumed(*ctx, effects@, used),
            i <= instructions@.len(),
            read <= inputs@.len(),
            performed(instructions@.take(i as int), *ctx, inputs@, start) == Ok::<Run, Stop>(
                Run { effects: effect_views(done@), answers: engine.answers(), used: read as nat },
            ),
        decreases instructions@.len() - i,
    {
        let ghost before = Run {
            effects: effect_views(done@),
            answers: engine.answers(),
            used: read as nat,
        };
        let ghost shown = effect_views(done@);
        proof {
            assert(instructions@.take(i + 1).drop_last() =~= instructions@.take(i as int));
            assert(instructions@.take(i + 1).last() == instructions@[i as int]);
            assert(performed(instructions@.take(i + 1), *ctx, inputs@, start) == run_after(
                instructions@[i as int],
                *ctx,
                inputs@,
                before,
            ));
        }
        match engine.request(&instructions[i], ctx) {
            Err(error) => {
                proof {
                    lemma_performed_fails(instructions@, *ctx, inputs@, start, i + 1);
                }
                return Err(Interruption { done, error });
            },
            Ok(Request::Ask { question, answer, default, hints }) => {
                if read < inputs.len() {
                    engine.record(answer.as_str(), inputs[read].clone());
                    let effect = Effect::Ask { question, default, hints };
                    done.push(effect);
                    read += 1;
                    proof {
                        assert(effect_views(done@) =~= shown.push(effect@));
                    }
                } else {
                    proof {
                        lemma_performed_fails(instructions@, *ctx, inputs@, start, i + 1);
                    }
                    return Err(
                        Interruption {
                            done,
                            error: EnzoError::new(
                                String::from_str("no input is left to read"),
                                EnzoErrorKind::FatalError,
                            ),
                        },
                    );
                }
            },
            Ok(Request::Run(commands)) => {
                let ghost all = commands@;
                for command in it: commands
                    invariant
                        it.seq() == all,
                        effect_views(done@) == shown + spawns(
                            command_views(all.take(it.index() as int)),
                        ),
                {
                    let ghost so_far = effect_views(done@);
                    let effect = Effect::Spawn(command);
                    done.push(effect);
                    proof {
                        assert(effect_views(done@) =~= so_far.push(effect@));
                        assert(command_views(all.take(it.index() + 1)) =~= command_views(
                            all.take(it.index() as int),
                        ).push(command@));
                        assert(effect_views(done@) =~= shown + spawns(
                            command_views(all.take(it.index() + 1)),
                        ));
                    }
                }
                proof {
                    assert(all.take(all.len() as int) =~= all);
                }
            },
            Ok(Request::Pipe { template, output }) => {
                if read < inputs.len() {
                    match engine.render(inputs[read].as_str()) {
                        Ok(text) => {
                            let reading = Effect::Read { path: template };
                            let writing = Effect::Write { path: output, text };
                            done.push(reading);
                            done.push(writing);
                            read += 1;
                            proof {
                                assert(effect_views(done@) =~= shown.push(reading@).push(
                                    writing@,
                                ));
                            }
                        },
                        Err(error) => {
                            let reading = Effect::Read { path: template };
                            done.push(reading);
                            proof {
                                assert(effect_views(done@) =~= shown.push(reading@));
                                lemma_performed_fails(instructions@, *ctx, inputs@, start, i + 1);
                            }
                            return Err(Interruption { done, error });
                        },
                    }
                } else {
                    proof {
                        lemma_performed_fails(instructions@, *ctx, inputs@, start, i + 1);
                    }
                    return Err(
                        Interruption {
                            done,
                            error: EnzoError::new(
                                String::from_str("no input is left to read"),
                                EnzoErrorKind::FatalError,
                            ),
                        },
                    );
                }
            },
        }
        i += 1;
    }
    proof {
        assert(instructions@.take(instructions@.len() as int) =~= instructions@);
    }
    Ok((done, read))
}

/// Works `instructions` off, in order, against `inputs`: the lines that the
/// operator gives and the texts of the template files, in the order in
/// which they are asked for. Returns what a host does for the
/// instructions, in order, where it succeeds in all of it.
pub fn execute(instructions: &Vec<Instruction>, ctx: &ExecutionContext, inputs: &Vec<String>) -> (outcome:
    Result<Vec<Effect>, Interruption>)
    ensures
        match outcome {
            Ok(effects) => performed(instructions@, *ctx, inputs@, opening(*ctx)) matches Ok(run)
                && run.effects == effect_views(effects@),
            Err(stop) => performed(instructions@, *ctx, inputs@, opening(*ctx)) matches Err(
                expected,
            ) && stopped(stop@, expected),
        },
{
    let effects: Vec<Effect> = Vec::new();
    proof {
        assert(effect_views(effects@) =~= Seq::<EffectView>::empty());
        assert(resumed(*ctx, effects@, 0) == opening(*ctx));
    }
    match execute_from(instructions, ctx, inputs, effects, 0) {
        Ok((done, _)) => Ok(done),
        Err(stop) => Err(stop),
    }
}

} // verus!
