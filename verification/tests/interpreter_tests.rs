use run::ast::{Expression, Statement};
use run::error::ExecutionError;
use run::interpreter::{Action, Interpreter};
use run::parser::parse_script;
use run::resolve::{
    direct_match, find_with_args, find_without_parens, normalization, pair_promotion,
    replace_chars, subcommand_promotion, Candidate,
};
use run::text::{chars_of, string_of};
use run::template::substitute_args;

fn strings(items: &[&str]) -> Vec<String> {
    items.iter().map(|s| s.to_string()).collect()
}

/// Carries out what waits, and gathers the commands that the shell would get.
fn drain(it: &mut Interpreter, commands: &mut Vec<String>) -> Result<(), ExecutionError> {
    loop {
        match it.step()? {
            Action::Finished => return Ok(()),
            Action::Proceed => {}
            Action::Run(command) => commands.push(command),
        }
    }
}

fn load(it: &mut Interpreter, source: &str) -> Result<Vec<String>, ExecutionError> {
    let program = parse_script(source).expect("a script");
    it.execute(program);
    let mut commands = Vec::new();
    drain(it, &mut commands)?;
    Ok(commands)
}

fn run_script(source: &str) -> Vec<String> {
    let mut it = Interpreter::new();
    load(&mut it, source).expect("no failure")
}

fn call(it: &mut Interpreter, name: &str, args: &[&str]) -> Result<Vec<String>, ExecutionError> {
    let mut commands = Vec::new();
    match it.call_function_without_parens(name, &strings(args))? {
        Action::Run(command) => commands.push(command),
        Action::Proceed => {}
        Action::Finished => unreachable!(),
    }
    drain(it, &mut commands)?;
    Ok(commands)
}

fn runfile_call(runfile: &str, name: &str, args: &[&str]) -> Result<Vec<String>, ExecutionError> {
    let mut it = Interpreter::new();
    assert_eq!(load(&mut it, runfile), Ok(vec![]));
    call(&mut it, name, args)
}

fn not_found(name: &str) -> ExecutionError {
    ExecutionError::FunctionNotFound { name: name.to_string() }
}

#[test]
fn test_simple_function_call() {
    assert_eq!(
        runfile_call("\ngreet() echo \"Hello from run!\"\n", "greet", &[]),
        Ok(strings(&["echo \"Hello from run!\""]))
    );
}

#[test]
fn test_function_with_arguments() {
    assert_eq!(
        runfile_call("\ngreet() echo \"Hello, $1!\"\n", "greet", &["Alice"]),
        Ok(strings(&["echo \"Hello, Alice!\""]))
    );
}

#[test]
fn test_function_with_multiple_arguments() {
    assert_eq!(
        runfile_call("\nadd() echo \"$1 + $2 = $(($1 + $2))\"\n", "add", &["5", "3"]),
        Ok(strings(&["echo \"5 + 3 = $((5 + 3))\""]))
    );
}

#[test]
fn test_nested_function_call() {
    assert_eq!(
        runfile_call(
            "\ndocker:shell() echo \"Opening Docker shell for $1\"\n",
            "docker",
            &["shell", "myapp"]
        ),
        Ok(strings(&["echo \"Opening Docker shell for myapp\""]))
    );
}

#[test]
fn test_execute_script_file() {
    assert_eq!(
        run_script("\nhello() echo \"Hello from script\"\nhello()\n"),
        strings(&["echo \"Hello from script\""])
    );
}

#[test]
fn test_function_not_found() {
    let r = runfile_call("\nbuild() echo \"Building...\"\n", "nonexistent", &[]);
    assert_eq!(r, Err(not_found("nonexistent")));
    assert_eq!(r.unwrap_err().message(), "Function 'nonexistent' not found");
}

#[test]
fn test_parse_error_handling() {
    let mut it = Interpreter::new();
    assert_eq!(load(&mut it, "\ninvalid syntax here\n"), Ok(strings(&["invalid syntax here"])));
    assert_eq!(call(&mut it, "test", &[]), Err(not_found("test")));
}

#[test]
fn test_all_args_substitution() {
    assert_eq!(
        runfile_call("\necho_all() echo \"All args: $@\"\n", "echo_all", &["foo", "bar", "baz"]),
        Ok(strings(&["echo \"All args: foo bar baz\""]))
    );
}

#[test]
fn test_command_with_pipes() {
    assert_eq!(
        runfile_call("\ncount() echo \"one\\ntwo\\nthree\" | wc -l\n", "count", &[]),
        Ok(strings(&["echo \"one\\ntwo\\nthree\" | wc -l"]))
    );
}

#[test]
fn test_function_call_with_parentheses() {
    assert_eq!(
        run_script("\ngreet() echo \"Hello, $1!\"\ngreet(World)\n"),
        strings(&["echo \"Hello, World!\""])
    );
}

#[test]
fn test_function_call_with_bare_word_arguments() {
    assert_eq!(
        run_script("\ndocker:logs() echo \"Docker logs for: $1\"\ndocker:logs(app)\n"),
        strings(&["echo \"Docker logs for: app\""])
    );
}

#[test]
fn test_function_call_with_quoted_arguments() {
    assert_eq!(
        run_script("\ngreet() echo \"Hello, $1 and $2!\"\ngreet(\"Alice\", \"Bob\")\n"),
        strings(&["echo \"Hello, Alice and Bob!\""])
    );
}

#[test]
fn test_function_call_mixed_arguments() {
    assert_eq!(
        run_script("\nshow() echo \"First: $1, Second: $2\"\nshow(bare, \"quoted\")\n"),
        strings(&["echo \"First: bare, Second: quoted\""])
    );
}

#[test]
fn test_variable_assignment_and_usage() {
    assert_eq!(
        run_script("\nname=World\necho \"Hello, $name!\"\n"),
        strings(&["echo \"Hello, World!\""])
    );
}

#[test]
fn test_variable_in_function_template() {
    assert_eq!(
        run_script("\napp_name=myapp\nshow() echo \"App: $app_name, Env: $1\"\nshow(production)\n"),
        strings(&["echo \"App: myapp, Env: production\""])
    );
}

#[test]
fn test_multiple_variables() {
    assert_eq!(
        run_script("\nfirst=Alice\nsecond=Bob\necho \"$first and $second\"\n"),
        strings(&["echo \"Alice and Bob\""])
    );
}

#[test]
fn test_variable_with_underscore() {
    assert_eq!(
        run_script("\napp_name=myapp\necho \"Application: $app_name\"\n"),
        strings(&["echo \"Application: myapp\""])
    );
}

#[test]
fn substitution_without_placeholders_changes_nothing() {
    let variables = vec![("name".to_string(), "World".to_string())];
    assert_eq!(substitute_args("echo hello | wc -l", &[], &variables), "echo hello | wc -l");
    assert_eq!(substitute_args("", &[], &variables), "");
    assert_eq!(substitute_args("cost: 5$ for $ name", &[], &variables), "cost: 5$ for $ name");
}

#[test]
fn positional_substitution() {
    assert_eq!(substitute_args("echo $1 $2", &strings(&["a", "b"]), &vec![]), "echo a b");
    assert_eq!(substitute_args("echo $1 $2", &strings(&["a"]), &vec![]), "echo a $2");
    assert_eq!(substitute_args("echo $2 $1 $2", &strings(&["a", "b"]), &vec![]), "echo b a b");
}

#[test]
fn all_args_substitution() {
    assert_eq!(substitute_args("echo $@", &strings(&["x", "y", "z"]), &vec![]), "echo x y z");
    assert_eq!(substitute_args("echo $@", &[], &vec![]), "echo ");
    assert_eq!(substitute_args("$@$@", &strings(&["x"]), &vec![]), "xx");
}

#[test]
fn the_tenth_placeholder_starts_with_the_first() {
    let args = strings(&["a", "b", "c", "d", "e", "f", "g", "h", "i", "j"]);
    assert_eq!(substitute_args("$10 $9", &args, &vec![]), "a0 i");
    let args = strings(&["a", "b", "c", "d", "e", "f", "g", "h", "i", "j", "k", "l"]);
    assert_eq!(substitute_args("<$12>", &args, &vec![]), "<a2>");
}

#[test]
fn an_argument_may_bring_a_later_placeholder() {
    assert_eq!(substitute_args("$1", &strings(&["$2", "x"]), &vec![]), "x");
    assert_eq!(substitute_args("$2", &strings(&["x", "$1"]), &vec![]), "$1");
    assert_eq!(substitute_args("$1", &strings(&["$@", "y"]), &vec![]), "$@ y");
}

#[test]
fn variables_are_replaced_in_the_order_of_their_first_assignment() {
    let mut it = Interpreter::new();
    let commands = load(&mut it, "app=A\napp_name=B\necho $app_name $app").unwrap();
    assert_eq!(commands, strings(&["echo A_name A"]));
    let mut it = Interpreter::new();
    let commands = load(&mut it, "app_name=B\napp=A\necho $app_name $app").unwrap();
    assert_eq!(commands, strings(&["echo B A"]));
    let mut it = Interpreter::new();
    let commands = load(&mut it, "app_name=B\napp=A\napp_name=C\necho $app_name $app").unwrap();
    assert_eq!(commands, strings(&["echo C A"]));
}

#[test]
fn unknown_variables_stay_for_the_shell() {
    assert_eq!(run_script("echo $HOME $1 $@x"), strings(&["echo $HOME $1 x"]));
}

#[test]
fn a_command_gets_no_arguments() {
    assert_eq!(run_script("echo $1 and $@."), strings(&["echo $1 and ."]));
}

#[test]
fn an_assignment_overwrites() {
    let mut it = Interpreter::new();
    assert_eq!(it.variable("x"), None);
    load(&mut it, "x=1\ny=2\nx=3").unwrap();
    assert_eq!(it.variable("x"), Some("3".to_string()));
    assert_eq!(it.variable("y"), Some("2".to_string()));
    assert_eq!(it.variable("z"), None);
}

#[test]
fn subcommand_promotion_passes_the_remaining_arguments() {
    let runfile = "deploy:staging() echo staging [$@] [$1]";
    assert_eq!(
        runfile_call(runfile, "deploy", &["staging"]),
        Ok(strings(&["echo staging [] [$1]"]))
    );
    assert_eq!(
        runfile_call(runfile, "deploy", &["staging", "a", "b"]),
        Ok(strings(&["echo staging [a b] [a]"]))
    );
}

#[test]
fn underscores_stand_for_colons() {
    assert_eq!(
        runfile_call("docker:shell() echo shell $@", "docker_shell", &[]),
        Ok(strings(&["echo shell "]))
    );
    assert_eq!(
        runfile_call("docker:shell() echo shell $@", "docker_shell", &["a", "b"]),
        Ok(strings(&["echo shell a b"]))
    );
    assert_eq!(
        runfile_call("a:b:c() echo abc", "a_b_c", &[]),
        Ok(strings(&["echo abc"]))
    );
}

#[test]
fn a_direct_match_wins_over_promotion_and_normalization() {
    let runfile = "a_b() echo direct $@\na:b() echo colon $@\na_b:c() echo promoted $@";
    assert_eq!(runfile_call(runfile, "a_b", &["c"]), Ok(strings(&["echo direct c"])));
    let runfile = "a:b() echo colon $@\na_b:c() echo promoted $@";
    assert_eq!(runfile_call(runfile, "a_b", &["c", "d"]), Ok(strings(&["echo promoted d"])));
    assert_eq!(runfile_call(runfile, "a_b", &["x"]), Ok(strings(&["echo colon x"])));
    assert_eq!(runfile_call(runfile, "a_b", &[]), Ok(strings(&["echo colon "])));
}

#[test]
fn unknown_function_fails() {
    assert_eq!(runfile_call("", "nope", &[]), Err(not_found("nope")));
    assert_eq!(runfile_call("other() echo", "nope", &["a"]), Err(not_found("nope")));
    assert_eq!(runfile_call("no:pe() echo", "nope", &["pe"]), Err(not_found("nope")));
    assert_eq!(runfile_call("a:b() echo", "a:b_c", &[]), Err(not_found("a:b_c")));
}

#[test]
fn the_last_definition_wins() {
    assert_eq!(
        runfile_call("f() echo first\nf() echo second", "f", &[]),
        Ok(strings(&["echo second"]))
    );
    let mut it = Interpreter::new();
    load(&mut it, "f() echo first").unwrap();
    assert_eq!(it.simple_function("f"), Some("echo first".to_string()));
    load(&mut it, "f() echo second").unwrap();
    assert_eq!(it.simple_function("f"), Some("echo second".to_string()));
    assert_eq!(call(&mut it, "f", &[]), Ok(strings(&["echo second"])));
}

#[test]
fn a_full_function_runs_its_statements_in_order() {
    let runfile = "step() echo step $1\nall() {\necho begin\nstep(one)\nx=1\nstep(two)\necho end $x\n}";
    assert_eq!(
        runfile_call(runfile, "all", &["ignored"]),
        Ok(strings(&["echo begin", "echo step one", "echo step two", "echo end 1"]))
    );
}

#[test]
fn a_simple_function_wins_over_a_full_function() {
    let runfile = "f() {\necho full\n}\nf() echo simple";
    assert_eq!(runfile_call(runfile, "f", &[]), Ok(strings(&["echo simple"])));
    assert_eq!(run_script("f() {\necho full\n}\nf:x() echo promoted\nf()"), strings(&["echo full"]));
}

#[test]
fn full_functions_may_call_each_other() {
    let source = "inner() {\necho inner\n}\nouter() {\necho before\ninner()\necho after\n}\nouter()\necho done";
    assert_eq!(
        run_script(source),
        strings(&["echo before", "echo inner", "echo after", "echo done"])
    );
}

#[test]
fn a_failure_drops_what_waits_and_keeps_what_was_stored() {
    let mut it = Interpreter::new();
    let program = parse_script("x=1\necho a\nmissing()\necho b\ny=2").unwrap();
    it.execute(program);
    let mut commands = Vec::new();
    assert_eq!(drain(&mut it, &mut commands), Err(not_found("missing")));
    assert_eq!(commands, strings(&["echo a"]));
    assert_eq!(it.pending_len(), 0);
    assert_eq!(it.variable("x"), Some("1".to_string()));
    assert_eq!(it.variable("y"), None);
    assert_eq!(it.step(), Ok(Action::Finished));
}

#[test]
fn a_failure_inside_a_body_drops_the_rest_of_the_script() {
    let source = "f() {\necho in\nmissing()\necho never\n}\nf()\necho never";
    let mut it = Interpreter::new();
    let program = parse_script(source).unwrap();
    it.execute(program);
    let mut commands = Vec::new();
    assert_eq!(drain(&mut it, &mut commands), Err(not_found("missing")));
    assert_eq!(commands, strings(&["echo in"]));
}

#[test]
fn definitions_last_over_scripts() {
    let mut it = Interpreter::new();
    assert_eq!(load(&mut it, "who=World\ngreet() echo Hello, $who and $1"), Ok(vec![]));
    assert_eq!(load(&mut it, "greet(you)"), Ok(strings(&["echo Hello, World and you"])));
    assert_eq!(call(&mut it, "greet", &["me"]), Ok(strings(&["echo Hello, World and me"])));
}

#[test]
fn steps_go_one_statement_at_a_time() {
    let mut it = Interpreter::new();
    it.execute(parse_script("x=1\necho $x\nf() echo\n").unwrap());
    assert_eq!(it.pending_len(), 3);
    assert_eq!(it.step(), Ok(Action::Proceed));
    assert_eq!(it.step(), Ok(Action::Run("echo 1".to_string())));
    assert_eq!(it.pending_len(), 1);
    it.abort();
    assert_eq!(it.pending_len(), 0);
    assert_eq!(it.step(), Ok(Action::Finished));
    assert_eq!(it.simple_function("f"), None);
}

#[test]
fn a_script_taken_up_goes_before_what_waits() {
    let mut it = Interpreter::new();
    it.execute(parse_script("echo c").unwrap());
    it.execute(parse_script("echo a\necho b").unwrap());
    let mut commands = Vec::new();
    drain(&mut it, &mut commands).unwrap();
    assert_eq!(commands, strings(&["echo a", "echo b", "echo c"]));
}

#[test]
fn execute_statement_handles_each_kind() {
    let mut it = Interpreter::new();
    let r = it.execute_statement(Statement::Assignment {
        name: "v".to_string(),
        value: Expression::String("1".to_string()),
    });
    assert_eq!(r, Ok(Action::Proceed));
    let r = it.execute_statement(Statement::SimpleFunctionDef {
        name: "s".to_string(),
        command_template: "echo $v $1".to_string(),
    });
    assert_eq!(r, Ok(Action::Proceed));
    let body = vec![Statement::Command { command: "echo body".to_string() }];
    let r = it.execute_statement(Statement::FunctionDef { name: "b".to_string(), body: body.clone() });
    assert_eq!(r, Ok(Action::Proceed));
    assert_eq!(it.function("b"), Some(body));
    assert_eq!(it.function("s"), None);
    let r = it.execute_statement(Statement::FunctionCall {
        name: "s".to_string(),
        args: strings(&["x"]),
    });
    assert_eq!(r, Ok(Action::Run("echo 1 x".to_string())));
    let r = it.execute_statement(Statement::FunctionCall { name: "b".to_string(), args: vec![] });
    assert_eq!(r, Ok(Action::Proceed));
    assert_eq!(it.step(), Ok(Action::Run("echo body".to_string())));
    let r = it.execute_statement(Statement::Command { command: "echo $v".to_string() });
    assert_eq!(r, Ok(Action::Run("echo 1".to_string())));
    let r = it.execute_statement(Statement::FunctionCall { name: "zz".to_string(), args: vec![] });
    assert_eq!(r, Err(not_found("zz")));
}

#[test]
fn names_with_spaces_resolve_in_calls_with_arguments() {
    let mut it = Interpreter::new();
    load(&mut it, "docker:shell() echo shell $@\na:b:c() echo abc $@").unwrap();
    assert_eq!(
        it.call_function_with_args("docker shell", &strings(&["x"])),
        Ok(Action::Run("echo shell x".to_string()))
    );
    assert_eq!(
        it.call_function_with_args("docker shell app", &strings(&["x"])),
        Ok(Action::Run("echo shell x".to_string()))
    );
    assert_eq!(
        it.call_function_with_args("a b c", &[]),
        Ok(Action::Run("echo abc ".to_string()))
    );
    assert_eq!(it.call_function_with_args("docker_shell", &[]), Err(not_found("docker_shell")));
    assert_eq!(it.call_function_with_args("docker", &strings(&["shell"])), Err(not_found("docker")));
}

#[test]
fn strategies_one_by_one() {
    let mut table = vstd::hash_map::StringHashMap::<String>::new();
    table.insert("t".to_string(), "echo t".to_string());
    table.insert("t:a".to_string(), "echo ta".to_string());
    table.insert("u:v".to_string(), "echo uv".to_string());
    let args = strings(&["a", "b"]);
    let found = |template: &str, args: &[&str]| {
        Some(Candidate { template: template.to_string(), args: strings(args) })
    };
    assert_eq!(direct_match(&table, "t", &args), found("echo t", &["a", "b"]));
    assert_eq!(direct_match(&table, "x", &args), None);
    assert_eq!(subcommand_promotion(&table, "t", &args), found("echo ta", &["b"]));
    assert_eq!(subcommand_promotion(&table, "t", &[]), None);
    assert_eq!(subcommand_promotion(&table, "u", &args), None);
    assert_eq!(normalization(&table, "u_v", &args, '_'), found("echo uv", &["a", "b"]));
    assert_eq!(normalization(&table, "u:v", &args, '_'), None);
    assert_eq!(normalization(&table, "t", &args, '_'), None);
    assert_eq!(normalization(&table, "u v", &args, ' '), found("echo uv", &["a", "b"]));
    assert_eq!(pair_promotion(&table, "u v w", &args), found("echo uv", &["a", "b"]));
    assert_eq!(pair_promotion(&table, "u", &args), None);
    assert_eq!(pair_promotion(&table, "u  v", &args), None);
    assert_eq!(find_without_parens(&table, "t", &args), found("echo t", &["a", "b"]));
    assert_eq!(find_without_parens(&table, "u_v", &args), found("echo uv", &["a", "b"]));
    assert_eq!(find_without_parens(&table, "u v", &args), None);
    assert_eq!(find_with_args(&table, "u v", &args), found("echo uv", &["a", "b"]));
    assert_eq!(find_with_args(&table, "u_v", &args), None);
}

#[test]
fn replace_chars_tells_whether_it_changed_anything() {
    let (out, changed) = replace_chars(&chars_of("a_b_c"), '_', ':');
    assert_eq!(string_of(&out), "a:b:c");
    assert!(changed);
    let (out, changed) = replace_chars(&chars_of("abc"), '_', ':');
    assert_eq!(string_of(&out), "abc");
    assert!(!changed);
    let (out, changed) = replace_chars(&chars_of("a:b"), ':', ':');
    assert_eq!(string_of(&out), "a:b");
    assert!(!changed);
}

#[test]
fn a_script_that_only_stores_runs_no_command() {
    let source = "x=1\nf() echo first\ng() {\necho body\n}\nx=2\nf() echo second\ny=3";
    let program = parse_script(source).unwrap();
    let count = program.statements.len();
    let mut it = Interpreter::new();
    it.execute(parse_script("echo behind").unwrap());
    it.execute(program);
    let mut n = 0;
    while n < count {
        assert_eq!(it.step(), Ok(Action::Proceed));
        n += 1;
    }
    assert_eq!(it.pending_len(), 1);
    assert_eq!(it.variable("x"), Some("2".to_string()));
    assert_eq!(it.variable("y"), Some("3".to_string()));
    assert_eq!(it.simple_function("f"), Some("echo second".to_string()));
    assert_eq!(it.simple_function("g"), None);
    assert_eq!(it.function("g").map(|body| body.len()), Some(1));
    assert_eq!(it.step(), Ok(Action::Run("echo behind".to_string())));
    assert_eq!(it.step(), Ok(Action::Finished));
}
