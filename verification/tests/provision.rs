use enzo::config::project::ProjectConfig;
use enzo::config::section::{
    command_line, execute, process_arg, rendering_outcome, Command, Effect, Engine,
    ExecutionContext, Instruction, Request, Section,
};
use enzo::config::template::{placeholder_names, reserved};
use enzo::table::Table;
use enzo::text::{replace_all, split_words};
use enzo::todos::todo::Todo;
use enzo::utils::error::EnzoErrorKind;
use enzo::utils::query::AnswerKind;

fn ctx() -> ExecutionContext {
    ExecutionContext {
        repo: String::from("/repo"),
        curr: String::from("/repo/sub"),
        remote: String::from("origin"),
    }
}

fn ask(question: &str, answer: &str) -> Instruction {
    Instruction::Ask {
        question: String::from(question),
        answer: String::from(answer),
        default: None,
        hints: None,
    }
}

fn run(lines: &[&str]) -> Instruction {
    Instruction::Run(lines.iter().map(|l| String::from(*l)).collect())
}

fn pipe(template: &str, output: &str) -> Instruction {
    Instruction::Pipe {
        template: String::from(template),
        output: String::from(output),
    }
}

fn inputs(lines: &[&str]) -> Vec<String> {
    lines.iter().map(|l| String::from(*l)).collect()
}

fn spawned(effect: &Effect) -> (String, Vec<String>) {
    match effect {
        Effect::Spawn(Command { program, args }) => (program.clone(), args.clone()),
        other => panic!("not a spawn: {:?}", other),
    }
}

fn answers(pairs: &[(&str, &str)]) -> Table<AnswerKind> {
    let mut table = Table::new();
    for (name, value) in pairs {
        table.insert(String::from(*name), AnswerKind::Single(String::from(*value)));
    }
    table
}

#[test]
fn answer_reaches_the_command() {
    let instructions = vec![ask("name?", "$name"), run(&["echo $name"])];
    let effects = execute(&instructions, &ctx(), &inputs(&["alice"])).unwrap();
    assert_eq!(effects.len(), 2);
    match &effects[0] {
        Effect::Ask { question, default, hints } => {
            assert_eq!(question, "name?");
            assert_eq!(*default, None);
            assert_eq!(*hints, None);
        }
        other => panic!("not a question: {:?}", other),
    }
    assert_eq!(
        spawned(&effects[1]),
        (String::from("echo"), vec![String::from("alice")])
    );
}

#[test]
fn each_line_of_a_run_is_a_command() {
    let instructions = vec![ask("name?", "$name"), run(&["echo", "$name"])];
    let effects = execute(&instructions, &ctx(), &inputs(&["alice"])).unwrap();
    assert_eq!(effects.len(), 3);
    assert_eq!(spawned(&effects[1]), (String::from("echo"), vec![]));
    assert_eq!(spawned(&effects[2]), (String::from("alice"), vec![]));
}

#[test]
fn a_run_starts_with_the_remote() {
    let effects = execute(&vec![run(&["git push remote main"])], &ctx(), &vec![]).unwrap();
    assert_eq!(
        spawned(&effects[0]),
        (
            String::from("git"),
            vec![
                String::from("push"),
                String::from("origin"),
                String::from("main")
            ]
        )
    );
}

#[test]
fn ask_overwrites_the_answer() {
    let mut engine = Engine::start(&ctx());
    engine.record("remote", String::from("upstream"));
    assert_eq!(
        process_arg("remote", engine.table(), &ctx()).ok(),
        Some(String::from("upstream"))
    );
    engine.record("v", String::from("one"));
    engine.record("v", String::from("two"));
    assert_eq!(
        process_arg("v", engine.table(), &ctx()).ok(),
        Some(String::from("two"))
    );
    engine.record("v", String::from("two"));
    assert_eq!(
        process_arg("v", engine.table(), &ctx()).ok(),
        Some(String::from("two"))
    );
    assert_eq!(engine.table().len(), 2);

    let instructions = vec![ask("a?", "v"), ask("b?", "v"), run(&["echo v"])];
    let effects = execute(&instructions, &ctx(), &inputs(&["first", "second"])).unwrap();
    assert_eq!(
        spawned(&effects[2]),
        (String::from("echo"), vec![String::from("second")])
    );
}

#[test]
fn answer_replaces_the_whole_token() {
    let table = answers(&[("$repo/x", "value"), ("plain", "$repo")]);
    assert_eq!(
        process_arg("$repo/x", &table, &ctx()).ok(),
        Some(String::from("value"))
    );
    // an answer is taken as it is
    assert_eq!(
        process_arg("plain", &table, &ctx()).ok(),
        Some(String::from("$repo"))
    );
}

#[test]
fn other_tokens_have_repo_and_curr_replaced() {
    let table = answers(&[("name", "alice")]);
    assert_eq!(
        process_arg("$repo/a", &table, &ctx()).ok(),
        Some(String::from("/repo/a"))
    );
    assert_eq!(
        process_arg("--from=$curr/$repo$repo", &table, &ctx()).ok(),
        Some(String::from("--from=/repo/sub//repo/repo"))
    );
    // only a whole token is the name of an answer
    assert_eq!(
        process_arg("name/x", &table, &ctx()).ok(),
        Some(String::from("name/x"))
    );
    assert_eq!(
        process_arg("untouched", &table, &ctx()).ok(),
        Some(String::from("untouched"))
    );
    assert_eq!(process_arg("", &table, &ctx()).ok(), Some(String::new()));
}

#[test]
fn curr_is_replaced_in_what_repo_became() {
    let context = ExecutionContext {
        repo: String::from("<$curr>"),
        curr: String::from("here"),
        remote: String::from("origin"),
    };
    let table = Table::new();
    assert_eq!(
        process_arg("$repo", &table, &context).ok(),
        Some(String::from("<here>"))
    );
}

#[test]
fn answer_of_another_form_is_a_fatal_error() {
    let mut table = Table::new();
    table.insert(
        String::from("list"),
        AnswerKind::Multiple(vec![String::from("a")]),
    );
    let error = process_arg("list", &table, &ctx()).unwrap_err();
    assert_eq!(error.kind(), EnzoErrorKind::FatalError);
    assert_eq!(error.message(), "the answer to list is not a single string");
    let error = command_line("echo list", &table, &ctx()).unwrap_err();
    assert_eq!(error.message(), "the answer to list is not a single string");
}

#[test]
fn replace_all_reads_from_the_left() {
    assert_eq!(replace_all("aaa", "aa", "b"), "ba");
    assert_eq!(replace_all("abcabc", "bc", ""), "aa");
    assert_eq!(replace_all("abc", "", "x"), "abc");
    assert_eq!(replace_all("ab", "abc", "x"), "ab");
    assert_eq!(replace_all("", "a", "x"), "");
    assert_eq!(replace_all("$repo$repo", "$repo", "r"), "rr");
    assert_eq!(replace_all("héllo wörld", "ö", "o"), "héllo world");
    assert_eq!(replace_all("a-b", "-", "--"), "a--b");
}

#[test]
fn words_are_split_at_blanks() {
    assert_eq!(split_words("a b"), vec!["a", "b"]);
    assert_eq!(split_words("  a \t b\n"), vec!["a", "b"]);
    assert_eq!(split_words(""), Vec::<String>::new());
    assert_eq!(split_words(" \r\n"), Vec::<String>::new());
    assert_eq!(split_words("one"), vec!["one"]);
    assert_eq!(split_words("a\u{c}b"), vec!["a", "b"]);
}

#[test]
fn command_line_is_program_and_arguments() {
    let table = answers(&[("$who", "alice")]);
    let command = command_line("greet  $who $repo/x", &table, &ctx()).unwrap();
    assert_eq!(command.program, "greet");
    assert_eq!(command.args, vec!["alice", "/repo/x"]);
    let empty = command_line("   ", &table, &ctx()).unwrap();
    assert_eq!(empty.program, "");
    assert_eq!(empty.args, Vec::<String>::new());
}

#[test]
fn request_fills_the_answers_in() {
    let mut engine = Engine::start(&ctx());
    engine.record("out", String::from("/tmp/out.txt"));
    let asked = Instruction::Ask {
        question: String::from("which?"),
        answer: String::from("choice"),
        default: Some(String::from("none")),
        hints: Some(vec![String::from("any")]),
    };
    match engine.request(&asked, &ctx()).unwrap() {
        Request::Ask { question, answer, default, hints } => {
            assert_eq!(question, "which?");
            assert_eq!(answer, "choice");
            assert_eq!(default, Some(String::from("none")));
            assert_eq!(hints, Some(vec![String::from("any")]));
        }
        other => panic!("not a question: {:?}", other),
    }
    match engine.request(&run(&["ls $curr", "", "pwd"]), &ctx()).unwrap() {
        Request::Run(commands) => {
            assert_eq!(commands.len(), 3);
            assert_eq!(commands[0].program, "ls");
            assert_eq!(commands[0].args, vec!["/repo/sub"]);
            assert_eq!(commands[1].program, "");
            assert_eq!(commands[2].program, "pwd");
        }
        other => panic!("not a run: {:?}", other),
    }
    match engine.request(&pipe("$repo/t.hbs", "out"), &ctx()).unwrap() {
        Request::Pipe { template, output } => {
            assert_eq!(template, "/repo/t.hbs");
            assert_eq!(output, "/tmp/out.txt");
        }
        other => panic!("not a template: {:?}", other),
    }
}

#[test]
fn template_is_rendered_with_the_answers() {
    let mut engine = Engine::start(&ctx());
    engine.record("name", String::from("alice"));
    assert_eq!(
        engine.render("Hello {{name}} at {{remote}}!").ok(),
        Some(String::from("Hello alice at origin!"))
    );
    // a name without an answer renders as nothing
    assert_eq!(engine.render("[{{missing}}]").ok(), Some(String::from("[]")));
    assert_eq!(engine.render("plain").ok(), Some(String::from("plain")));
}

fn names(template: &str) -> Option<Vec<String>> {
    placeholder_names(template)
}

fn found(list: &[&str]) -> Option<Vec<String>> {
    Some(list.iter().map(|n| String::from(*n)).collect())
}

#[test]
fn placeholders_are_found_in_order() {
    assert_eq!(names(""), found(&[]));
    assert_eq!(names("plain text"), found(&[]));
    assert_eq!(names("{{name}}"), found(&["name"]));
    assert_eq!(names("a {{x}} b {{ y }} c {{x}}"), found(&["x", "y", "x"]));
    assert_eq!(names("{{ \t\r\n$name_1-b \n}}"), found(&["$name_1-b"]));
    assert_eq!(names("{{a}}{{b}}}"), found(&["a", "b"]));
    assert_eq!(names("<b>a > b * c</b> {>} {*} }} { {a}} \\ \\n"), found(&[]));
    assert_eq!(names("{{iffy}} {{this_one}} {{elsewhere}}"), found(&["iffy", "this_one", "elsewhere"]));
    assert_eq!(names("{{true}} {{123}}"), found(&["true", "123"]));
}

#[test]
fn what_is_no_placeholder_is_refused() {
    for template in [
        "{{",
        "{{}}",
        "{{ }}",
        "{{name",
        "{{name}",
        "{{name }x}",
        "{{a b}}",
        "{{a.b}}",
        "{{a/b}}",
        "{{../a}}",
        "{{@this}}",
        "{{@root}}",
        "{{@../this}}",
        "{{[a]}}",
        "{{{name}}}",
        "{{&name}}",
        "{{~name}}",
        "{{name~}}",
        "{{! note }}",
        "{{#if a}}yes{{/if}}",
        "{{#each a}}{{/each}}",
        "{{else}}",
        "{{this}}",
        "{{if}}",
        "{{log}}",
        "{{lookup}}",
        "{{> x}}",
        "{{ > x }}",
        "{{#> x}}inside{{/x}}",
        "{{* d}}",
        "{{#*inline \"x\"}}{{> x}}{{/inline}}{{> x}}",
        "{{{{raw}}}} {{x}} {{{{/raw}}}}",
        "\\{{name}}",
        "\\\\{{name}}",
        "{{a}} and \\{{b}}",
        "{{helper a=1 b=2}}",
        "{{(a)}}",
        "{{\"a\"}}",
        "{{é}}",
        "text {{name}} {{",
    ] {
        assert_eq!(names(template), None, "{}", template);
    }
}

#[test]
fn the_engine_s_own_words_are_reserved() {
    for word in [
        "if", "unless", "each", "with", "lookup", "raw", "log", "eq", "ne", "gt", "gte", "lt",
        "lte", "and", "or", "not", "this", "else",
    ] {
        assert!(reserved(word), "{}", word);
        assert_eq!(names(&format!("{{{{{}}}}}", word)), None);
    }
    for word in ["", "If", "iff", "nota", "name", "remote", "true"] {
        assert!(!reserved(word), "{}", word);
    }
}

#[test]
fn template_that_is_more_than_placeholders_is_not_rendered() {
    let engine = Engine::start(&ctx());
    for template in [
        "{{> x}}",
        "{{#*inline \"x\"}}{{> x}}{{/inline}}{{> x}}",
        "{{@this}}",
        "{{#if remote}}never closed",
        "{{helper a=(x) b=(y)}}",
    ] {
        let error = engine.render(template).unwrap_err();
        assert_eq!(error.kind(), EnzoErrorKind::FatalError);
        assert_eq!(
            error.message(),
            "the template holds more than text and placeholders"
        );
    }
    assert_eq!(
        engine.render("a > b * {{remote}} \\ {x}").ok(),
        Some(String::from("a > b * origin \\ {x}"))
    );
    assert_eq!(
        engine.render("{{ remote }}\n  {{remote}}  ").ok(),
        Some(String::from("origin\n  origin  "))
    );
    // a run ends there, with the template read
    let stop = execute(&vec![pipe("t", "o")], &ctx(), &inputs(&["{{> t}}"])).unwrap_err();
    assert_eq!(
        stop.error.message(),
        "the template holds more than text and placeholders"
    );
    assert_eq!(stop.done.len(), 1);
}

#[test]
fn placeholders_are_replaced_and_the_text_stays() {
    let engine = Engine::with_answers(answers(&[
        ("a", "1"),
        ("b-c", "2"),
        ("$d", "3"),
        ("_", "4"),
        ("-", "5"),
        ("123", "6"),
        ("as", "7"),
        ("true", "8"),
        ("null", "9"),
        ("inline", "10"),
        ("helperMissing", "11"),
        ("empty", ""),
    ]));
    for (template, expected) in [
        ("", ""),
        (" ", " "),
        ("\n", "\n"),
        ("{{a}}", "1"),
        ("  {{a}}  ", "  1  "),
        ("\t{{a}}\n{{a}}\r\n", "\t1\n1\r\n"),
        ("{{a}}{{b-c}}{{$d}}{{_}}{{-}}{{123}}", "123456"),
        ("{{as}} {{true}} {{null}} {{inline}} {{helperMissing}}", "7 8 9 10 11"),
        ("{{ a }}{{\ta\n}}{{\r\na}}", "111"),
        ("x{{empty}}y{{absent}}z", "xyz"),
        ("{ {a} } {a}} }} { {{a}}}", "{ {a} } {a}} }} { 1}"),
        ("a\\b \\ {{a}} \\n \\\\", "a\\b \\ 1 \\n \\\\"),
        ("héllo {{a}} wörld ✓", "héllo 1 wörld ✓"),
        ("<p class=\"x\">{{a}} & {{a}}</p>", "<p class=\"x\">1 & 1</p>"),
        ("{{a}}\n\n{{a}}", "1\n\n1"),
    ] {
        assert_eq!(
            engine.render(template).ok(),
            Some(String::from(expected)),
            "{:?}",
            template
        );
    }
    let long = "line {{a}} of text\n".repeat(2000);
    assert_eq!(
        engine.render(&long).ok(),
        Some("line 1 of text\n".repeat(2000))
    );
}

#[test]
fn answers_are_written_as_the_engine_escapes_them() {
    let engine = Engine::with_answers(answers(&[("v", "T&C <b>"), ("$w", "plain")]));
    assert_eq!(
        engine.render("{{v}}|{{$w}}").ok(),
        Some(String::from("T&amp;C &lt;b&gt;|plain"))
    );
}

#[test]
fn rendering_outcome_keeps_text_and_message() {
    assert_eq!(
        rendering_outcome(Ok(String::from("text"))).ok(),
        Some(String::from("text"))
    );
    let error = rendering_outcome(Err(String::from("bad template"))).unwrap_err();
    assert_eq!(error.kind(), EnzoErrorKind::FatalError);
    assert_eq!(error.message(), "bad template");
}

#[test]
fn pipe_reads_renders_and_writes() {
    let instructions = vec![
        ask("who?", "who"),
        pipe("$repo/motd.hbs", "$curr/motd"),
        run(&["cat $curr/motd"]),
    ];
    let effects = execute(
        &instructions,
        &ctx(),
        &inputs(&["bob", "Dear {{who}}, pull from {{remote}}."]),
    )
    .unwrap();
    assert_eq!(effects.len(), 4);
    match &effects[1] {
        Effect::Read { path } => assert_eq!(path, "/repo/motd.hbs"),
        other => panic!("not a read: {:?}", other),
    }
    match &effects[2] {
        Effect::Write { path, text } => {
            assert_eq!(path, "/repo/sub/motd");
            assert_eq!(text, "Dear bob, pull from origin.");
        }
        other => panic!("not a write: {:?}", other),
    }
    assert_eq!(
        spawned(&effects[3]),
        (String::from("cat"), vec![String::from("/repo/sub/motd")])
    );
}

#[test]
fn only_an_answer_that_the_template_names_has_to_be_single() {
    let mut table = answers(&[("name", "alice")]);
    table.insert(
        String::from("pair"),
        AnswerKind::KeyValueSingle((String::from("k"), String::from("v"))),
    );
    table.insert(String::from("list"), AnswerKind::Multiple(vec![]));
    let engine = Engine::with_answers(table);
    // answers of another form may sit there unused
    assert_eq!(
        engine.render("Hello {{name}}").ok(),
        Some(String::from("Hello alice"))
    );
    assert_eq!(engine.render("no placeholder").ok(), Some(String::from("no placeholder")));
    assert_eq!(engine.render("").ok(), Some(String::new()));
    assert_eq!(engine.render("[{{missing}}]").ok(), Some(String::from("[]")));
    // the one that is named is an error, and the first of them is reported
    let error = engine.render("Hello {{name}} {{ pair }}").unwrap_err();
    assert_eq!(error.kind(), EnzoErrorKind::FatalError);
    assert_eq!(error.message(), "the answer to pair is not a single string");
    let error = engine.render("{{list}}{{pair}}").unwrap_err();
    assert_eq!(error.message(), "the answer to list is not a single string");
    let error = engine.render("{{name}}{{pair}}{{list}}{{pair}}").unwrap_err();
    assert_eq!(error.message(), "the answer to pair is not a single string");
    // a template that is refused is refused before its names are looked at
    let error = engine.render("{{pair}}{{> x}}").unwrap_err();
    assert_eq!(
        error.message(),
        "the template holds more than text and placeholders"
    );
}

#[test]
fn template_that_fails_ends_the_run() {
    let instructions = vec![run(&["first"]), pipe("$repo/t", "o"), run(&["never"])];
    let stop = execute(&instructions, &ctx(), &inputs(&["{{#if remote}}open"])).unwrap_err();
    assert_eq!(
        stop.error.message(),
        "the template holds more than text and placeholders"
    );
    assert_eq!(stop.error.kind(), EnzoErrorKind::FatalError);
    // what was done before the failure stays done: the command ran, and
    // the template was read
    assert_eq!(stop.done.len(), 2);
    assert_eq!(spawned(&stop.done[0]).0, "first");
    match &stop.done[1] {
        Effect::Read { path } => assert_eq!(path, "/repo/t"),
        other => panic!("not a read: {:?}", other),
    }
}

#[test]
fn failing_request_ends_the_run_before_the_instruction() {
    let mut table = answers(&[]);
    table.insert(String::from("list"), AnswerKind::Multiple(vec![]));
    let engine = Engine::with_answers(table);
    assert!(engine.request(&run(&["echo ok", "echo list"]), &ctx()).is_err());
    assert!(engine.request(&pipe("list", "o"), &ctx()).is_err());
    assert!(engine.request(&pipe("t", "list"), &ctx()).is_err());
    assert!(engine.request(&ask("list?", "list"), &ctx()).is_ok());
}


#[test]
fn run_without_input_is_a_fatal_error() {
    let stop = execute(&vec![ask("name?", "n")], &ctx(), &vec![]).unwrap_err();
    assert_eq!(stop.error.kind(), EnzoErrorKind::FatalError);
    assert_eq!(stop.error.message(), "no input is left to read");
    assert!(stop.done.is_empty());
    let stop = execute(&vec![pipe("t", "o")], &ctx(), &vec![]).unwrap_err();
    assert_eq!(stop.error.message(), "no input is left to read");
    assert!(stop.done.is_empty());
    // what was done before the instruction that fails stays done
    let stop = execute(
        &vec![run(&["true"]), ask("a?", "a"), ask("b?", "b")],
        &ctx(),
        &inputs(&["only"]),
    )
    .unwrap_err();
    assert_eq!(stop.error.message(), "no input is left to read");
    assert_eq!(stop.done.len(), 2);
}

#[test]
fn empty_list_and_empty_run_do_nothing() {
    assert_eq!(execute(&vec![], &ctx(), &vec![]).unwrap().len(), 0);
    assert_eq!(execute(&vec![run(&[])], &ctx(), &vec![]).unwrap().len(), 0);
    // inputs that nothing asks for are left
    assert_eq!(
        execute(&vec![run(&["true"])], &ctx(), &inputs(&["spare"]))
            .unwrap()
            .len(),
        1
    );
}

#[test]
fn sections_run_in_the_order_declared() {
    let mut config = ProjectConfig::new(Some(vec![Todo::new(String::from("t"), None)]));
    assert_eq!(config.section_count(), 0);
    assert!(config.section_at(0).is_none());
    config.add_section(
        Section(String::from("second thoughts")),
        vec![ask("who?", "who"), run(&["echo who"])],
    );
    config.add_section(Section(String::from("a first")), vec![run(&["echo who remote"])]);
    assert_eq!(config.section_count(), 2);
    let (name, instructions) = config.section_at(0).unwrap();
    assert_eq!(name, "second thoughts");
    assert_eq!(instructions.len(), 2);
    assert_eq!(config.section_at(1).map(|(name, _)| name.as_str()), Some("a first"));
    assert!(config.section_at(2).is_none());

    let effects = config.configure(&ctx(), &inputs(&["carol"])).unwrap();
    assert_eq!(effects.len(), 3);
    assert_eq!(
        spawned(&effects[1]),
        (String::from("echo"), vec![String::from("carol")])
    );
    // each section starts with fresh answers
    assert_eq!(
        spawned(&effects[2]),
        (
            String::from("echo"),
            vec![String::from("who"), String::from("origin")]
        )
    );
    assert_eq!(config.todos().as_ref().map(|t| t.len()), Some(1));
}

#[test]
fn section_declared_again_keeps_its_place() {
    let mut config = ProjectConfig::new(None);
    config.add_section(Section(String::from("a")), vec![run(&["one"])]);
    config.add_section(Section(String::from("b")), vec![run(&["two"])]);
    config.add_section(Section(String::from("a")), vec![run(&["three"]), run(&["four"])]);
    assert_eq!(config.section_count(), 2);
    let (name, instructions) = config.section_at(0).unwrap();
    assert_eq!(name, "a");
    assert_eq!(instructions.len(), 2);
    let effects = config.configure(&ctx(), &vec![]).unwrap();
    let programs: Vec<String> = effects.iter().map(|e| spawned(e).0).collect();
    assert_eq!(programs, vec!["three", "four", "two"]);
}

#[test]
fn sections_read_on_in_the_inputs() {
    let mut config = ProjectConfig::new(None);
    config.add_section(Section(String::from("a")), vec![ask("x?", "x"), run(&["echo x"])]);
    config.add_section(Section(String::from("b")), vec![ask("y?", "y"), run(&["echo y x"])]);
    let effects = config.configure(&ctx(), &inputs(&["1", "2"])).unwrap();
    assert_eq!(spawned(&effects[1]).1, vec!["1"]);
    assert_eq!(spawned(&effects[3]).1, vec!["2", "x"]);
    let stop = config.configure(&ctx(), &inputs(&["1"])).unwrap_err();
    assert_eq!(stop.error.message(), "no input is left to read");
    assert_eq!(stop.done.len(), 2);
    assert!(ProjectConfig::new(None).configure(&ctx(), &vec![]).unwrap().is_empty());
}
