use run::ast::{Expression, Program, Statement};
use run::error::{extract_line_from_error, LineInfo, ParseError, ParseErrorKind};
use run::grammar::{Token, TokenKind};
use run::parser::{
    parse_arguments, parse_command, parse_script, parse_statement, tokenize, Line, ScriptParser,
};
use run::preprocess::{get_line, logical_lines_of, preprocess_escaped_newlines, split_lines};
use run::text::chars_of;

fn statements(source: &str) -> Vec<Statement> {
    match parse_script(source) {
        Ok(Program { statements }) => statements,
        Err(e) => panic!("no script: {:?}", e),
    }
}

fn simple(name: &str, template: &str) -> Statement {
    Statement::SimpleFunctionDef {
        name: name.to_string(),
        command_template: template.to_string(),
    }
}

fn call(name: &str, args: &[&str]) -> Statement {
    Statement::FunctionCall {
        name: name.to_string(),
        args: args.iter().map(|a| a.to_string()).collect(),
    }
}

fn command(text: &str) -> Statement {
    Statement::Command { command: text.to_string() }
}

fn assignment(name: &str, value: &str) -> Statement {
    Statement::Assignment {
        name: name.to_string(),
        value: Expression::String(value.to_string()),
    }
}

#[test]
fn test_comment_handling() {
    let source = "\n# This is a comment\ntest() echo \"Testing\"\n# Another comment\n";
    assert_eq!(statements(source), vec![simple("test", "echo \"Testing\"")]);
}

#[test]
fn comments_alone_make_an_empty_script() {
    assert_eq!(statements("# one\n   # two\n\n\t#three"), vec![]);
    assert_eq!(statements(""), vec![]);
    assert_eq!(statements("\n\n"), vec![]);
}

#[test]
fn a_continued_comment_stays_a_comment() {
    assert_eq!(statements("# one \\\necho hidden\necho shown"), vec![command("echo shown")]);
}

#[test]
fn test_escaped_newlines() {
    let source = "\nmultiline() echo \"This is a\" \\\n    \"multi-line\" \\\n    \"command\"\n";
    assert_eq!(
        statements(source),
        vec![simple("multiline", "echo \"This is a\" \"multi-line\" \"command\"")]
    );
}

#[test]
fn escaped_newline_joins_two_lines_into_one_definition() {
    let source = "foo() echo \"a\" \\\n \"b\"";
    assert_eq!(preprocess_escaped_newlines(source), "foo() echo \"a\"   \"b\"\n");
    assert_eq!(statements(source), vec![simple("foo", "echo \"a\" \"b\"")]);
}

#[test]
fn preprocessing_trims_line_ends_and_keeps_other_lines() {
    assert_eq!(preprocess_escaped_newlines("a  \nb\t\r\n\nc"), "a\nb\n\nc\n");
    assert_eq!(preprocess_escaped_newlines(""), "");
    assert_eq!(preprocess_escaped_newlines("x"), "x\n");
}

#[test]
fn a_continuation_with_no_line_after_it_is_flushed() {
    assert_eq!(preprocess_escaped_newlines("echo a \\"), "echo a\n");
    assert_eq!(preprocess_escaped_newlines("echo a \\\n"), "echo a\n");
    assert_eq!(preprocess_escaped_newlines("echo a \\  \n   \n"), "echo a\n");
    assert_eq!(statements("echo a \\"), vec![command("echo a")]);
}

#[test]
fn the_lines_of_the_preprocessed_text_are_the_logical_lines() {
    let samples = [
        "",
        "a",
        "a\nb",
        "a \\\n b\n\nc  \r\n",
        "x\\",
        "\\\n\\\n",
        "a\\\\\nb",
        "  \n\t\n",
        "f() echo \"a\" \\\n \"b\"",
    ];
    for source in samples {
        let text = preprocess_escaped_newlines(source);
        assert_eq!(split_lines(&chars_of(&text)), logical_lines_of(source), "{:?}", source);
    }
}

#[test]
fn a_backslash_alone_continues_with_nothing() {
    assert_eq!(preprocess_escaped_newlines("\\\necho a"), " echo a\n");
}

#[test]
fn get_line_counts_from_one() {
    assert_eq!(get_line("a\nb\r\nc", 1), Some("a".to_string()));
    assert_eq!(get_line("a\nb\r\nc", 2), Some("b".to_string()));
    assert_eq!(get_line("a\nb\r\nc", 3), Some("c".to_string()));
    assert_eq!(get_line("a\nb\r\nc", 0), Some("a".to_string()));
    assert_eq!(get_line("a\nb\r\nc", 4), None);
    assert_eq!(get_line("a\n", 2), None);
    assert_eq!(get_line("", 1), None);
    assert_eq!(get_line("a\r", 1), Some("a\r".to_string()));
}

#[test]
fn get_line_agrees_with_std_lines() {
    let samples = ["", "\n", "a", "a\n", "a\r\n", "a\r", "\r\n\r\n", "a\n\nb", "x\r\r\ny\n\r"];
    for s in samples {
        let expected: Vec<String> = s.lines().map(|l| l.to_string()).collect();
        let mut n = 1;
        while n <= expected.len() {
            assert_eq!(get_line(s, n), Some(expected[n - 1].clone()), "{:?} line {}", s, n);
            n += 1;
        }
        assert_eq!(get_line(s, expected.len() + 1), None, "{:?}", s);
    }
}

#[test]
fn assignment_takes_the_rest_of_the_line() {
    assert_eq!(statements("name=World"), vec![assignment("name", "World")]);
    assert_eq!(statements("  app_name=my app  "), vec![assignment("app_name", "my app")]);
    assert_eq!(statements("x=\"quoted\""), vec![assignment("x", "\"quoted\"")]);
    assert_eq!(statements("x="), vec![assignment("x", "")]);
    assert_eq!(statements("x==y"), vec![assignment("x", "=y")]);
}

#[test]
fn spaces_around_the_equals_sign_make_a_command() {
    assert_eq!(statements("name = World"), vec![command("name = World")]);
    assert_eq!(statements("name= World"), vec![command("name= World")]);
    assert_eq!(statements("make CC=gcc"), vec![command("make CC=gcc")]);
    assert_eq!(statements("1x=2"), vec![command("1x=2")]);
}

#[test]
fn simple_definition_keeps_quotes_and_sets_operators_apart() {
    assert_eq!(
        statements("count() echo \"one\\ntwo\\nthree\" | wc -l"),
        vec![simple("count", "echo \"one\\ntwo\\nthree\" | wc -l")]
    );
    assert_eq!(
        statements("docker:shell() docker   compose exec $1   bash"),
        vec![simple("docker:shell", "docker compose exec $1 bash")]
    );
    assert_eq!(statements("a()b&&c"), vec![simple("a", "b && c")]);
    assert_eq!(statements("a( ) x>>y"), vec![simple("a", "x >> y")]);
}

#[test]
fn a_pipe_stands_between_single_spaces() {
    assert_eq!(
        statements("count() echo \"a\" | wc -l"),
        vec![simple("count", "echo \"a\" | wc -l")]
    );
    assert_eq!(statements("a|b"), vec![command("a | b")]);
    assert_eq!(statements("a   |   b"), vec![command("a | b")]);
}

#[test]
fn adjacent_tokens_are_set_apart() {
    assert_eq!(statements("echo \"a\"b"), vec![command("echo \"a\" b")]);
    assert_eq!(statements("echo --name=\"x y\""), vec![command("echo --name= \"x y\"")]);
    assert_eq!(statements("echo $HOME/bin"), vec![command("echo $HOME/bin")]);
}

#[test]
fn runs_of_operator_characters_are_one_operator() {
    assert_eq!(statements("a && b || c"), vec![command("a && b || c")]);
    assert_eq!(statements("cmd 2>&1"), vec![command("cmd 2 >& 1")]);
    assert_eq!(statements("a;b"), vec![command("a ; b")]);
    assert_eq!(statements("sort < in > out"), vec![command("sort < in > out")]);
}

#[test]
fn an_operator_may_stand_at_an_end() {
    assert_eq!(statements("| wc"), vec![command("| wc")]);
    assert_eq!(statements("sleep 1 &"), vec![command("sleep 1 &")]);
}

#[test]
fn calls_with_parentheses() {
    assert_eq!(statements("hello()"), vec![call("hello", &[])]);
    assert_eq!(statements("hello( )"), vec![call("hello", &[])]);
    assert_eq!(statements("greet(World)"), vec![call("greet", &["World"])]);
    assert_eq!(statements("docker:logs(app)"), vec![call("docker:logs", &["app"])]);
    assert_eq!(statements("greet(\"Alice\", \"Bob\")"), vec![call("greet", &["Alice", "Bob"])]);
    assert_eq!(statements("show(bare, \"quoted\")"), vec![call("show", &["bare", "quoted"])]);
    assert_eq!(statements("f( a ,b,  \"c d\" )"), vec![call("f", &["a", "b", "c d"])]);
    assert_eq!(statements("f($1, \"\")"), vec![call("f", &["$1", ""])]);
}

#[test]
fn what_is_no_call_is_a_command() {
    assert_eq!(statements("f(a b)"), vec![command("f(a b)")]);
    assert_eq!(statements("f(a,)"), vec![command("f(a,)")]);
    assert_eq!(statements("f(a) b"), vec![command("f(a) b")]);
    assert_eq!(statements("f(a"), vec![command("f(a")]);
    assert_eq!(statements("f (a)"), vec![command("f (a)")]);
    assert_eq!(statements("echo (a)"), vec![command("echo (a)")]);
    assert_eq!(statements("}"), vec![command("}")]);
    assert_eq!(statements("invalid syntax here"), vec![command("invalid syntax here")]);
}

#[test]
fn a_block_makes_a_full_function() {
    let source = "deploy() {\n    build()\n    # note\n    echo \"deploying\" $1\n    target=prod\n}\nhello()";
    assert_eq!(
        statements(source),
        vec![
            Statement::FunctionDef {
                name: "deploy".to_string(),
                body: vec![
                    call("build", &[]),
                    command("echo \"deploying\" $1"),
                    assignment("target", "prod"),
                ],
            },
            call("hello", &[]),
        ]
    );
}

#[test]
fn blocks_nest() {
    let source = "outer() {\ninner() {\necho in\n}\necho out\n}\n}";
    assert_eq!(
        statements(source),
        vec![
            Statement::FunctionDef {
                name: "outer".to_string(),
                body: vec![
                    Statement::FunctionDef {
                        name: "inner".to_string(),
                        body: vec![command("echo in")],
                    },
                    command("echo out"),
                ],
            },
            command("}"),
        ]
    );
}

#[test]
fn an_empty_block_is_a_function_without_statements() {
    assert_eq!(
        statements("noop() {\n}"),
        vec![Statement::FunctionDef { name: "noop".to_string(), body: vec![] }]
    );
}

#[test]
fn braces_on_one_line_make_a_template() {
    assert_eq!(statements("f() { echo a; }"), vec![simple("f", "{ echo a ; }")]);
}

#[test]
fn an_open_quote_is_an_error_with_its_place() {
    assert_eq!(
        parse_script("echo ok\n\n  echo \"abc"),
        Err(ParseError { line: 3, column: 8, kind: ParseErrorKind::UnterminatedQuote })
    );
    assert_eq!(
        parse_script("f() echo \"a\" \"b"),
        Err(ParseError { line: 1, column: 14, kind: ParseErrorKind::UnterminatedQuote })
    );
    assert_eq!(
        parse_script("f(\"a)"),
        Err(ParseError { line: 1, column: 3, kind: ParseErrorKind::UnterminatedQuote })
    );
}

#[test]
fn error_lines_are_logical_lines() {
    assert_eq!(
        parse_script("echo a \\\n b\necho \"c"),
        Err(ParseError { line: 2, column: 6, kind: ParseErrorKind::UnterminatedQuote })
    );
}

#[test]
fn an_open_block_is_an_error_at_its_first_line() {
    assert_eq!(
        parse_script("a=1\nf() {\necho a"),
        Err(ParseError { line: 2, column: 1, kind: ParseErrorKind::UnclosedBlock })
    );
    assert_eq!(
        parse_script("f() {\ng() {\n}\n"),
        Err(ParseError { line: 1, column: 1, kind: ParseErrorKind::UnclosedBlock })
    );
    assert_eq!(
        parse_script("f() {\ng() {\n"),
        Err(ParseError { line: 2, column: 1, kind: ParseErrorKind::UnclosedBlock })
    );
}

#[test]
fn the_first_error_in_line_order_is_reported() {
    assert_eq!(
        parse_script("f() {\necho \"a\n"),
        Err(ParseError { line: 2, column: 6, kind: ParseErrorKind::UnterminatedQuote })
    );
}

#[test]
fn parse_error_messages() {
    let e = ParseError { line: 1, column: 1, kind: ParseErrorKind::UnterminatedQuote };
    assert_eq!(e.message(), "unterminated quoted string");
    let e = ParseError { line: 1, column: 1, kind: ParseErrorKind::UnclosedBlock };
    assert_eq!(e.message(), "function body is never closed");
}

#[test]
fn tokens_of_a_command() {
    let line = chars_of("a \"b c\"|d");
    assert_eq!(
        tokenize(&line, 0),
        Ok(vec![
            Token { kind: TokenKind::Word, start: 0, end: 1 },
            Token { kind: TokenKind::Quoted, start: 3, end: 6 },
            Token { kind: TokenKind::Operator, start: 7, end: 8 },
            Token { kind: TokenKind::Word, start: 8, end: 9 },
        ])
    );
    assert_eq!(tokenize(&line, 9), Ok(vec![]));
    assert_eq!(tokenize(&chars_of("a \"b"), 0), Err(2));
    assert_eq!(parse_command(&line, 0), Ok("a \"b c\" | d".to_string()));
    assert_eq!(parse_command(&line, 1), Ok("\"b c\" | d".to_string()));
}

#[test]
fn arguments_of_a_call() {
    let line = chars_of("f(a, \"b\") x");
    assert_eq!(parse_arguments(&line, 2), Some((vec!["a".to_string(), "b".to_string()], 8)));
    assert_eq!(parse_arguments(&line, 1), None);
    assert_eq!(parse_arguments(&line, 11), None);
}

#[test]
fn lines_are_told_apart() {
    assert_eq!(parse_statement(&chars_of("")), Line::Empty);
    assert_eq!(parse_statement(&chars_of("   ")), Line::Empty);
    assert_eq!(parse_statement(&chars_of(" # x")), Line::Empty);
    assert_eq!(parse_statement(&chars_of("f() {")), Line::BlockStart("f".to_string()));
    assert_eq!(parse_statement(&chars_of("f(){  ")), Line::BlockStart("f".to_string()));
    assert_eq!(parse_statement(&chars_of("  }  ")), Line::BlockEnd);
    assert_eq!(parse_statement(&chars_of("} x")), Line::Statement(command("} x")));
    assert_eq!(parse_statement(&chars_of("x \"")), Line::Invalid(2));
    assert_eq!(parse_statement(&chars_of("a=b")), Line::Statement(assignment("a", "b")));
}

#[test]
fn script_parser_reads_logical_lines() {
    let parser = ScriptParser::new("a() b \\\n c\n");
    assert_eq!(parser.parse(), Ok(Program { statements: vec![simple("a", "b c")] }));
}

#[test]
fn test_list_flag_with_functions() {
    let source = "\nbuild() echo \"Building...\"\ntest() echo \"Testing...\"\ndeploy() echo \"Deploying...\"\n";
    let program = parse_script(source).unwrap();
    assert_eq!(
        program.function_names(),
        vec!["build".to_string(), "test".to_string(), "deploy".to_string()]
    );
}

#[test]
fn test_list_flag_short() {
    let program = parse_script("\nhello() echo \"Hello, World!\"\n").unwrap();
    assert_eq!(program.function_names(), vec!["hello".to_string()]);
}

#[test]
fn function_names_leave_other_statements_out() {
    let source = "x=1\nf() {\ninner() echo\n}\ng() echo\ng() echo again\necho hi";
    let program = parse_script(source).unwrap();
    assert_eq!(program.function_names(), vec!["g".to_string(), "g".to_string()]);
}

#[test]
fn programs_can_be_cloned() {
    let program = parse_script("f() {\na(b)\n}\nx=1\ng() echo\necho hi").unwrap();
    assert_eq!(program.clone(), program);
}

#[test]
fn parse_errors_in_one_line_of_text() {
    let e = ParseError { line: 3, column: 14, kind: ParseErrorKind::UnterminatedQuote };
    assert_eq!(e.describe(), "unterminated quoted string --> 3:14");
    let e = ParseError { line: 120, column: 1, kind: ParseErrorKind::UnclosedBlock };
    assert_eq!(e.describe(), "function body is never closed --> 120:1");
}

#[test]
fn the_line_is_found_in_the_text_of_an_error() {
    let text = " --> 2:1\n  |\n2 | echo \"abc\n  | ^---\n  |\n  = expected word";
    assert_eq!(
        extract_line_from_error(text),
        Some(LineInfo { line: 2, message: text.to_string() })
    );
    assert_eq!(
        extract_line_from_error("x --> 17:4"),
        Some(LineInfo { line: 17, message: "x --> 17:4".to_string() })
    );
    assert_eq!(
        extract_line_from_error("x --> +7:4 --> 9:9"),
        Some(LineInfo { line: 7, message: "x --> +7:4 --> 9:9".to_string() })
    );
    assert_eq!(
        extract_line_from_error(" --> 0:"),
        Some(LineInfo { line: 0, message: " --> 0:".to_string() })
    );
}

#[test]
fn a_text_without_a_line_gives_none() {
    assert_eq!(extract_line_from_error(""), None);
    assert_eq!(extract_line_from_error("no arrow 3:4"), None);
    assert_eq!(extract_line_from_error("x -->3:4"), None);
    assert_eq!(extract_line_from_error("x --> 34"), None);
    assert_eq!(extract_line_from_error("x --> :4"), None);
    assert_eq!(extract_line_from_error("x --> a:4"), None);
    assert_eq!(extract_line_from_error("x --> 3 :4"), None);
    assert_eq!(extract_line_from_error("x --> -3:4"), None);
    assert_eq!(extract_line_from_error("1:2 --> "), None);
    assert_eq!(extract_line_from_error("x --> y --> 3:4"), None);
    assert_eq!(extract_line_from_error("x --> 99999999999999999999999:4"), None);
}

#[test]
fn the_line_of_a_parse_error_is_found_in_its_text() {
    for source in ["echo \"a", "a\nb\n\nf() {\n", "x\n\n\n\n\n\n\n\n\n\n\necho \"a"] {
        let e = parse_script(source).unwrap_err();
        let text = e.describe();
        assert_eq!(
            extract_line_from_error(&text),
            Some(LineInfo { line: e.line, message: text.clone() })
        );
    }
}
