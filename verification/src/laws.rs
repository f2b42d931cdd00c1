//! What holds of the parser and of the interpreter on all inputs.

use vstd::prelude::*;
use crate::ast::StatementView;
use crate::error::{arrow, line_in_error, ExecutionErrorView, ParseError};
use crate::grammar::{
    classify,
    command_from,
    is_blank_or_comment,
    parse_lines,
    piece,
    pieces,
    script_block,
    statements_from,
    tokens_from,
    BlockView,
    LineView,
    Token,
    TokenKind,
};
use crate::interpreter::{
    ActionView,
    after_resolution,
    after_statement,
    after_step,
    assign,
    lemma_position,
    position,
    resolve_with_args,
    resolve_without_parens,
    value_of,
    with_pending,
    InterpreterView,
    Resolution,
};
use crate::parser::parse;
use crate::preprocess::{
    ends_with_backslash,
    join_continued,
    lines,
    lines_from,
    logical_lines,
    preprocess,
    strip_carriage_return,
    unlines,
};
use crate::resolve::replace_char;
use crate::template::{
    all_placeholder,
    named,
    named_placeholder,
    positional,
    substitute,
    Variables,
};
use crate::text::{
    all_digits,
    decimal,
    digit,
    digit_value,
    digits_value,
    first_occurrence,
    is_digit,
    is_operator_char,
    is_whitespace,
    join,
    lemma_run_end_advances,
    lemma_replace_without_match,
    lemma_run_end,
    lemma_trim_end,
    lemma_run_end_unique,
    matches_at,
    occurs,
    replace_all,
    run_end,
    trim,
    trim_end,
    trim_start,
    CharClass,
};

verus! {

/// Replacing a pattern that does not occur changes nothing.
pub proof fn replacing_what_does_not_occur(s: Seq<char>, pattern: Seq<char>, with: Seq<char>)
    requires
        !occurs(s, pattern),
    ensures
        replace_all(s, pattern, with) == s,
{
    assert forall|j: int| 0 <= j implies !matches_at(s, j, pattern) by {
        if matches_at(s, j, pattern) {
            assert(occurs(s, pattern));
        }
    }
    lemma_replace_without_match(s, 0, pattern, with);
    assert(s.subrange(0, s.len() as int) =~= s);
}

/// Variables whose placeholders do not occur in a text leave it as it is.
proof fn lemma_named_without_placeholders(text: Seq<char>, variables: Variables, n: nat)
    requires
        n <= variables.len(),
        forall|i: int|
            0 <= i < variables.len() ==> !occurs(
                text,
                named_placeholder((#[trigger] variables[i]).0),
            ),
    ensures
        named(text, variables, n) == text,
    decreases n,
{
    if n > 0 {
        lemma_named_without_placeholders(text, variables, (n - 1) as nat);
        let v = variables[n - 1];
        replacing_what_does_not_occur(text, named_placeholder(v.0), v.1);
    }
}

/// A template that holds no placeholder comes back unchanged when it is
/// filled in without arguments: neither `$@` occurs in it, nor `$name` for
/// any variable `name`.
pub proof fn substitution_without_placeholders(template: Seq<char>, variables: Variables)
    requires
        !occurs(template, all_placeholder()),
        forall|i: int|
            0 <= i < variables.len() ==> !occurs(
                template,
                named_placeholder((#[trigger] variables[i]).0),
            ),
    ensures
        substitute(template, Seq::empty(), variables) == template,
{
    let none = Seq::<Seq<char>>::empty();
    assert(positional(template, none, 0) == template);
    replacing_what_does_not_occur(template, all_placeholder(), join(none));
    lemma_named_without_placeholders(template, variables, variables.len());
}

/// A name that is defined as it stands is resolved to that definition, with
/// all arguments, whatever else is defined: a direct match wins over every
/// other strategy, in both kinds of call.
pub proof fn direct_match_wins(state: InterpreterView, name: Seq<char>, args: Seq<Seq<char>>)
    requires
        state.simple_functions.contains_key(name),
    ensures
        resolve_without_parens(state, name, args) == Resolution::Run(
            substitute(state.simple_functions[name], args, state.variables),
        ),
        resolve_with_args(state, name, args) == Resolution::Run(
            substitute(state.simple_functions[name], args, state.variables),
        ),
{
}

/// Where the name itself is not defined but the name, `:` and the first
/// argument is, a call written as separate words is resolved to that
/// definition, and the template gets the arguments after the first. Whether
/// the name with `:` for `_` is defined does not matter.
pub proof fn promotion_passes_remaining_arguments(
    state: InterpreterView,
    name: Seq<char>,
    args: Seq<Seq<char>>,
)
    requires
        args.len() > 0,
        !state.simple_functions.contains_key(name),
        state.simple_functions.contains_key(name + seq![':'] + args[0]),
    ensures
        resolve_without_parens(state, name, args) == Resolution::Run(
            substitute(
                state.simple_functions[name + seq![':'] + args[0]],
                args.skip(1),
                state.variables,
            ),
        ),
{
}

/// Where neither the name nor its promotion is defined, but the name with
/// `:` for each `_` is another name and is defined, a call written as
/// separate words is resolved to that definition, with all arguments.
pub proof fn underscores_resolve_to_colons(
    state: InterpreterView,
    name: Seq<char>,
    args: Seq<Seq<char>>,
)
    requires
        !state.simple_functions.contains_key(name),
        args.len() > 0 ==> !state.simple_functions.contains_key(name + seq![':'] + args[0]),
        replace_char(name, '_', ':') != name,
        state.simple_functions.contains_key(replace_char(name, '_', ':')),
    ensures
        resolve_without_parens(state, name, args) == Resolution::Run(
            substitute(
                state.simple_functions[replace_char(name, '_', ':')],
                args,
                state.variables,
            ),
        ),
{
}

/// Where the name of a call with its arguments in parentheses is not defined
/// as it stands, but holds a space and is defined with `:` for each space,
/// the call is resolved to that definition, with all arguments.
pub proof fn spaces_resolve_to_colons(state: InterpreterView, name: Seq<char>, args: Seq<Seq<char>>)
    requires
        !state.simple_functions.contains_key(name),
        replace_char(name, ' ', ':') != name,
        state.simple_functions.contains_key(replace_char(name, ' ', ':')),
    ensures
        resolve_with_args(state, name, args) == Resolution::Run(
            substitute(
                state.simple_functions[replace_char(name, ' ', ':')],
                args,
                state.variables,
            ),
        ),
{
}

/// A call written as separate words fails, with the name in the error, if
/// the name is defined in no way: not as it stands, not with `:` and the
/// first argument, not with `:` for each `_`, and not as a full function.
/// The failed call leaves the tables as they were, and no statement waits.
pub proof fn unknown_function_is_not_found(
    state: InterpreterView,
    name: Seq<char>,
    args: Seq<Seq<char>>,
)
    requires
        !state.simple_functions.contains_key(name),
        args.len() > 0 ==> !state.simple_functions.contains_key(name + seq![':'] + args[0]),
        !state.simple_functions.contains_key(replace_char(name, '_', ':')),
        !state.functions.contains_key(name),
    ensures
        resolve_without_parens(state, name, args) == Resolution::NotFound,
        after_resolution(state, name, resolve_without_parens(state, name, args)) == (
            with_pending(state, Seq::empty()),
            Err::<crate::interpreter::ActionView, ExecutionErrorView>(
                ExecutionErrorView::FunctionNotFound { name },
            ),
        ),
{
}

/// A call written as separate words fails only if the name is defined in
/// no way.
pub proof fn not_found_means_undefined(
    state: InterpreterView,
    name: Seq<char>,
    args: Seq<Seq<char>>,
)
    requires
        resolve_without_parens(state, name, args) == Resolution::NotFound,
    ensures
        !state.simple_functions.contains_key(name),
        args.len() > 0 ==> !state.simple_functions.contains_key(name + seq![':'] + args[0]),
        !state.simple_functions.contains_key(replace_char(name, '_', ':')),
        !state.functions.contains_key(name),
{
}

/// The state after the statement.
pub open spec fn state_after(state: InterpreterView, statement: StatementView) -> InterpreterView {
    after_statement(state, statement).0
}

/// When a name is defined twice as a simple function, a call finds the
/// second template.
pub proof fn last_definition_wins(
    state: InterpreterView,
    name: Seq<char>,
    first: Seq<char>,
    second: Seq<char>,
    args: Seq<Seq<char>>,
)
    ensures
        ({
            let once = state_after(
                state,
                StatementView::SimpleFunctionDef { name, command_template: first },
            );
            let twice = state_after(
                once,
                StatementView::SimpleFunctionDef { name, command_template: second },
            );
            &&& resolve_without_parens(twice, name, args) == Resolution::Run(
                substitute(second, args, state.variables),
            )
            &&& resolve_with_args(twice, name, args) == Resolution::Run(
                substitute(second, args, state.variables),
            )
            &&& twice == state_after(
                state,
                StatementView::SimpleFunctionDef { name, command_template: second },
            )
        }),
{
    let once = state_after(
        state,
        StatementView::SimpleFunctionDef { name, command_template: first },
    );
    let twice = state_after(
        once,
        StatementView::SimpleFunctionDef { name, command_template: second },
    );
    let direct = state_after(
        state,
        StatementView::SimpleFunctionDef { name, command_template: second },
    );
    assert(twice.simple_functions =~= direct.simple_functions);
}

/// The first variable with the name `wanted` stands where it stood before
/// `name` was assigned, or is the new one.
proof fn lemma_position_after_assign(
    variables: Variables,
    name: Seq<char>,
    value: Seq<char>,
    wanted: Seq<char>,
    from: int,
)
    requires
        0 <= from <= variables.len(),
        from <= position(variables, name, 0),
    ensures
        position(assign(variables, name, value), wanted, from) == if wanted == name {
            position(variables, name, 0)
        } else if position(variables, wanted, from) < variables.len() {
            position(variables, wanted, from)
        } else {
            assign(variables, name, value).len() as int
        },
    decreases variables.len() - from,
{
    lemma_position(variables, name, 0);
    let k = position(variables, name, 0);
    let after = assign(variables, name, value);
    if from < variables.len() {
        if from < k {
            assert(after[from] == variables[from]);
            assert(variables[from].0 != name);
            if variables[from].0 != wanted {
                lemma_position_after_assign(variables, name, value, wanted, from + 1);
                assert(position(after, wanted, from) == position(after, wanted, from + 1));
                assert(position(variables, wanted, from) == position(variables, wanted, from + 1));
            }
        } else {
            assert(after[from].0 == name);
            assert(after.len() == variables.len());
            if wanted != name {
                lemma_same_names_same_position(variables, after, wanted, from + 1);
                lemma_position(variables, wanted, from + 1);
                assert(position(after, wanted, from) == position(after, wanted, from + 1));
                assert(position(variables, wanted, from) == position(variables, wanted, from + 1));
            }
        }
    } else {
        assert(k == variables.len());
        assert(after[from] == (name, value));
        assert(after.len() == variables.len() + 1);
        if wanted != name {
            assert(position(after, wanted, from) == position(after, wanted, from + 1));
            assert(position(after, wanted, from + 1) == after.len());
        }
    }
}

/// Variables with the same names at the same places are found at the same places.
proof fn lemma_same_names_same_position(a: Variables, b: Variables, wanted: Seq<char>, from: int)
    requires
        0 <= from <= a.len(),
        a.len() == b.len(),
        forall|j: int| from <= j < a.len() ==> (#[trigger] a[j]).0 == b[j].0,
    ensures
        position(a, wanted, from) == position(b, wanted, from),
    decreases a.len() - from,
{
    if from < a.len() {
        assert(a[from].0 == b[from].0);
        if a[from].0 != wanted {
            lemma_same_names_same_position(a, b, wanted, from + 1);
        }
    }
}

/// After an assignment the name has the new value, and every other name has
/// the value that it had.
pub proof fn assignment_overwrites(
    variables: Variables,
    name: Seq<char>,
    value: Seq<char>,
    other: Seq<char>,
)
    ensures
        value_of(assign(variables, name, value), name) == Some(value),
        other != name ==> value_of(assign(variables, name, value), other) == value_of(
            variables,
            other,
        ),
{
    lemma_position(variables, name, 0);
    lemma_position(variables, other, 0);
    lemma_position_after_assign(variables, name, value, name, 0);
    lemma_position_after_assign(variables, name, value, other, 0);
}

/// A step that fails leaves the variables and the functions as they were
/// before it, and leaves no statement waiting.
pub proof fn failure_keeps_what_was_stored(state: InterpreterView)
    requires
        after_step(state).1 is Err,
    ensures
        after_step(state).0 == with_pending(state, Seq::empty()),
{
}

/// What is trimmed at its end is not changed by trimming it again.
pub proof fn trimming_twice(s: Seq<char>)
    ensures
        trim_end(trim_end(s)) == trim_end(s),
{
    lemma_trim_end(s);
}

/// The lines from `i` on, each trimmed at its end.
spec fn trimmed_lines(ls: Seq<Seq<char>>, i: int) -> Seq<Seq<char>> {
    Seq::new((ls.len() - i) as nat, |k: int| trim_end(ls[i + k]))
}

/// Lines of which none is continued are joined to themselves.
proof fn lemma_nothing_to_join(ls: Seq<Seq<char>>, i: int)
    requires
        0 <= i <= ls.len(),
        forall|j: int| i <= j < ls.len() ==> !ends_with_backslash(trim_end(#[trigger] ls[j])),
    ensures
        join_continued(ls, i, Seq::empty()) == trimmed_lines(ls, i),
    decreases ls.len() - i,
{
    if i < ls.len() {
        let t = trim_end(ls[i]);
        assert(!ends_with_backslash(trim_end(ls[i])));
        trimming_twice(ls[i]);
        assert(Seq::<char>::empty() + t =~= t);
        lemma_nothing_to_join(ls, i + 1);
        assert(seq![t] + trimmed_lines(ls, i + 1) =~= trimmed_lines(ls, i));
    } else {
        assert(trimmed_lines(ls, i) =~= Seq::<Seq<char>>::empty());
    }
}

/// In a source text in which no line ends in a backslash, white space at
/// the end aside, the logical lines are the lines themselves, each trimmed at
/// its end.
pub proof fn lines_without_backslash_pass_through(source: Seq<char>)
    requires
        forall|i: int|
            0 <= i < lines(source).len() ==> !ends_with_backslash(
                trim_end(#[trigger] lines(source)[i]),
            ),
    ensures
        logical_lines(source) == lines(source).map_values(|l: Seq<char>| trim_end(l)),
{
    lemma_nothing_to_join(lines(source), 0);
    assert(trimmed_lines(lines(source), 0) =~= lines(source).map_values(
        |l: Seq<char>| trim_end(l),
    ));
}

/// Whether a statement only stores something: an assignment or a definition.
pub open spec fn stores(statement: StatementView) -> bool {
    statement is Assignment || statement is SimpleFunctionDef || statement is FunctionDef
}

/// The state after the statements have been carried out one after the other.
pub open spec fn after_statements(state: InterpreterView, statements: Seq<StatementView>) -> InterpreterView
    decreases statements.len(),
{
    if statements.len() == 0 {
        state
    } else {
        after_statements(state_after(state, statements[0]), statements.drop_first())
    }
}

/// The state after `n` steps.
pub open spec fn after_steps(state: InterpreterView, n: nat) -> InterpreterView
    decreases n,
{
    if n == 0 {
        state
    } else {
        after_steps(after_step(state).0, (n - 1) as nat)
    }
}

/// Whether each of the next `n` steps ends by asking for the next step:
/// none hands out a command, none fails, and none finds the work finished.
pub open spec fn steps_proceed(state: InterpreterView, n: nat) -> bool
    decreases n,
{
    n == 0 || (after_step(state).1 == Ok::<ActionView, ExecutionErrorView>(ActionView::Proceed)
        && steps_proceed(after_step(state).0, (n - 1) as nat))
}

/// The value of the last assignment to `name` among the statements, if
/// there is one.
pub open spec fn last_assigned(statements: Seq<StatementView>, name: Seq<char>) -> Option<
    Seq<char>,
>
    decreases statements.len(),
{
    if statements.len() == 0 {
        None
    } else {
        match last_assigned(statements.drop_first(), name) {
            Some(value) => Some(value),
            None => match statements[0] {
                StatementView::Assignment { name: assigned, value } => if assigned == name {
                    Some(value)
                } else {
                    None
                },
                _ => None,
            },
        }
    }
}

/// The template of the last definition of the simple function `name` among
/// the statements, if there is one.
pub open spec fn last_template(statements: Seq<StatementView>, name: Seq<char>) -> Option<
    Seq<char>,
>
    decreases statements.len(),
{
    if statements.len() == 0 {
        None
    } else {
        match last_template(statements.drop_first(), name) {
            Some(template) => Some(template),
            None => match statements[0] {
                StatementView::SimpleFunctionDef { name: defined, command_template } => if defined
                    == name {
                    Some(command_template)
                } else {
                    None
                },
                _ => None,
            },
        }
    }
}

/// Statements that only store are carried out in their order, one with each
/// step. Each of these steps asks for the next: no command is handed out and
/// nothing fails. After them the statements that waited behind still wait.
pub proof fn storing_statements_run_in_order(
    state: InterpreterView,
    statements: Seq<StatementView>,
    rest: Seq<StatementView>,
)
    requires
        state.pending == statements + rest,
        forall|k: int| 0 <= k < statements.len() ==> stores(#[trigger] statements[k]),
    ensures
        steps_proceed(state, statements.len()),
        after_steps(state, statements.len()) == after_statements(
            with_pending(state, rest),
            statements,
        ),
        after_steps(state, statements.len()).pending == rest,
    decreases statements.len(),
{
    if statements.len() == 0 {
        assert(state.pending =~= rest);
    } else {
        let first = statements[0];
        let others = statements.drop_first();
        assert(stores(first));
        assert(state.pending[0] == first);
        assert(state.pending.drop_first() =~= others + rest);
        let next = after_step(state).0;
        assert(next.pending == others + rest);
        assert forall|k: int| 0 <= k < others.len() implies stores(#[trigger] others[k]) by {
            assert(others[k] == statements[k + 1]);
        }
        storing_statements_run_in_order(next, others, rest);
        assert(with_pending(next, rest) == state_after(with_pending(state, rest), first));
    }
}

/// After statements that only store, a variable has the value of the last
/// assignment to it, or the value that it had if none assigns to it; and a
/// simple function has the template of its last definition, or the one that
/// it had.
pub proof fn stored_values_are_the_last(
    state: InterpreterView,
    statements: Seq<StatementView>,
    name: Seq<char>,
)
    requires
        forall|k: int| 0 <= k < statements.len() ==> stores(#[trigger] statements[k]),
    ensures
        value_of(after_statements(state, statements).variables, name) == match last_assigned(
            statements,
            name,
        ) {
            Some(value) => Some(value),
            None => value_of(state.variables, name),
        },
        match last_template(statements, name) {
            Some(template) => after_statements(state, statements).simple_functions.contains_key(
                name,
            ) && after_statements(state, statements).simple_functions[name] == template,
            None => after_statements(state, statements).simple_functions.contains_key(name)
                == state.simple_functions.contains_key(name) && (
            state.simple_functions.contains_key(name) ==> after_statements(
                state,
                statements,
            ).simple_functions[name] == state.simple_functions[name]),
        },
    decreases statements.len(),
{
    if statements.len() > 0 {
        let first = statements[0];
        let others = statements.drop_first();
        let next = state_after(state, first);
        assert(stores(first));
        assert forall|k: int| 0 <= k < others.len() implies stores(#[trigger] others[k]) by {
            assert(others[k] == statements[k + 1]);
        }
        stored_values_are_the_last(next, others, name);
        match first {
            StatementView::Assignment { name: assigned, value } => {
                assignment_overwrites(state.variables, assigned, value, name);
            },
            _ => {},
        }
    }
}

/// Where a pattern stands first is its first occurrence.
proof fn lemma_first_occurrence(s: Seq<char>, pattern: Seq<char>, from: int, at: int)
    requires
        0 <= from <= at,
        matches_at(s, at, pattern),
        forall|j: int| from <= j < at ==> !matches_at(s, j, pattern),
    ensures
        first_occurrence(s, pattern, from) == Some(at),
    decreases at - from,
{
    if from < at {
        lemma_first_occurrence(s, pattern, from + 1, at);
    }
}

/// A number in decimal digits is one digit or more and reads as the number.
proof fn lemma_decimal_reads_back(n: nat)
    ensures
        decimal(n).len() > 0,
        all_digits(decimal(n)),
        digits_value(decimal(n)) == n,
    decreases n,
{
    if n < 10 {
        let d = decimal(n);
        assert(d.drop_last() =~= Seq::<char>::empty());
        assert(digits_value(d.drop_last()) == 0);
        assert(is_digit(d[0]) && digit_value(d[0]) == n) by {
            lemma_digit(n as int);
        }
    } else {
        lemma_decimal_reads_back(n / 10);
        let d = decimal(n);
        let last = digit((n % 10) as int);
        lemma_digit((n % 10) as int);
        assert(d.drop_last() =~= decimal(n / 10));
        assert(d.last() == last);
        assert forall|i: int| 0 <= i < d.len() implies is_digit(#[trigger] d[i]) by {
            if i < d.len() - 1 {
                assert(d[i] == decimal(n / 10)[i]);
            }
        }
    }
}

/// The digit for a number below ten is a digit and stands for the number.
proof fn lemma_digit(d: int)
    requires
        0 <= d < 10,
    ensures
        is_digit(digit(d)),
        digit_value(digit(d)) == d,
{
    assert(digit(d) as u32 == 0x30 + d);
}

/// The text of an error that is made of a message without `-`, the arrow, a
/// line, `:` and a column names the line.
pub proof fn line_is_found_in_text(message: Seq<char>, line: nat, column: nat)
    requires
        forall|k: int| 0 <= k < message.len() ==> message[k] != '-',
        line <= usize::MAX,
    ensures
        line_in_error(message + arrow() + decimal(line) + seq![':'] + decimal(column)) == Some(
            line,
        ),
{
    let number = decimal(line);
    let text = message + arrow() + number + seq![':'] + decimal(column);
    let at = message.len() as int;
    let colon = at + 5 + number.len();
    lemma_decimal_reads_back(line);
    assert(text.subrange(at, at + 5) =~= arrow());
    assert forall|j: int| 0 <= j < at implies !matches_at(text, j, arrow()) by {
        if matches_at(text, j, arrow()) {
            assert(text.subrange(j, j + 5)[1] == '-');
            assert(text[j + 1] == '-');
            if j + 1 < at {
                assert(text[j + 1] == message[j + 1]);
            } else {
                assert(text[j + 1] == arrow()[0]);
            }
        }
    }
    lemma_first_occurrence(text, arrow(), 0, at);
    assert(text.subrange(colon, colon + 1) =~= seq![':']);
    assert forall|j: int| at + 5 <= j < colon implies !matches_at(text, j, seq![':']) by {
        if matches_at(text, j, seq![':']) {
            assert(text.subrange(j, j + 1)[0] == ':');
            assert(text[j] == number[j - at - 5]);
            assert(is_digit(number[j - at - 5]));
        }
    }
    lemma_first_occurrence(text, seq![':'], at + 5, colon);
    assert(text.subrange(at + 5, colon) =~= number);
    assert(is_digit(number[0]));
}

/// The text of a parse error names the line of the error.
pub proof fn parse_error_names_its_line(e: ParseError)
    ensures
        line_in_error(e.text()) == Some(e.line as nat),
{
    let message = e.kind.description();
    assert forall|k: int| 0 <= k < message.len() implies message[k] != '-' by {
        reveal_strlit("unterminated quoted string");
        reveal_strlit("function body is never closed");
    }
    line_is_found_in_text(message, e.line as nat, e.column as nat);
}

/// Whether `p` is not empty and neither starts nor ends in white space.
spec fn is_solid(p: Seq<char>) -> bool {
    p.len() > 0 && !is_whitespace(p.first()) && !is_whitespace(p.last())
}

/// Each token of a line is written out as a text that is not empty and
/// neither starts nor ends in white space.
proof fn lemma_tokens_are_solid(s: Seq<char>, i: int)
    requires
        0 <= i,
        s.len() <= usize::MAX,
    ensures
        match tokens_from(s, i) {
            Ok(tokens) => forall|k: int|
                0 <= k < tokens.len() ==> is_solid(#[trigger] pieces(s, tokens)[k]),
            Err(_) => true,
        },
    decreases s.len() - i,
{
    if i >= s.len() {
    } else if is_whitespace(s[i]) {
        lemma_tokens_are_solid(s, i + 1);
    } else {
        let (t, next) = if s[i] == '"' {
            let close = run_end(s, i + 1, CharClass::Quoted);
            (
                Token { kind: TokenKind::Quoted, start: (i + 1) as usize, end: close as usize },
                close + 1,
            )
        } else if is_operator_char(s[i]) {
            let e = run_end(s, i, CharClass::Operator);
            (Token { kind: TokenKind::Operator, start: i as usize, end: e as usize }, e)
        } else {
            let e = run_end(s, i, CharClass::Word);
            (Token { kind: TokenKind::Word, start: i as usize, end: e as usize }, e)
        };
        lemma_run_end(s, i + 1, CharClass::Quoted);
        lemma_run_end(s, i, CharClass::Operator);
        lemma_run_end(s, i, CharClass::Word);
        if s[i] == '"' && next > s.len() {
        } else {
            if s[i] != '"' {
                lemma_run_end_advances(
                    s,
                    i,
                    if is_operator_char(s[i]) {
                        CharClass::Operator
                    } else {
                        CharClass::Word
                    },
                );
                let text = s.subrange(i, next);
                assert(piece(s, t) == text);
                assert(text.first() == s[i]);
                assert(text.last() == s[next - 1]);
                if is_operator_char(s[i]) {
                    assert(CharClass::Operator.has(s[next - 1]));
                } else {
                    assert(CharClass::Word.has(s[next - 1]));
                }
            } else {
                assert(piece(s, t).first() == '"');
                assert(piece(s, t).last() == '"');
            }
            assert(is_solid(piece(s, t)));
            lemma_tokens_are_solid(s, next);
            match tokens_from(s, next) {
                Ok(rest) => {
                    let tokens = seq![t] + rest;
                    assert(tokens_from(s, i) == Ok::<Seq<Token>, int>(tokens));
                    assert forall|k: int| 0 <= k < tokens.len() implies is_solid(
                        #[trigger] pieces(s, tokens)[k],
                    ) by {
                        if k > 0 {
                            assert(tokens[k] == rest[k - 1]);
                            assert(pieces(s, tokens)[k] == pieces(s, rest)[k - 1]);
                        } else {
                            assert(pieces(s, tokens)[0] == piece(s, t));
                        }
                    }
                },
                Err(_) => {},
            }
        }
    }
}

/// Texts that neither start nor end in white space are joined into a text
/// that neither starts nor ends in white space.
proof fn lemma_join_of_solid(ps: Seq<Seq<char>>)
    requires
        ps.len() > 0,
        forall|k: int| 0 <= k < ps.len() ==> is_solid(#[trigger] ps[k]),
    ensures
        is_solid(join(ps)),
    decreases ps.len(),
{
    if ps.len() > 1 {
        let before = ps.drop_last();
        assert forall|k: int| 0 <= k < before.len() implies is_solid(#[trigger] before[k]) by {
            assert(before[k] == ps[k]);
        }
        lemma_join_of_solid(before);
        assert(is_solid(ps.last()));
        let joined = join(before) + seq![' '] + ps.last();
        assert(joined.first() == join(before).first());
        assert(joined.last() == ps.last().last());
    } else {
        assert(is_solid(ps[0]));
    }
}

/// A command that is read from a line is the texts of its tokens with one
/// space between each two, and has no white space at either end. The line
/// must be one that a vector can hold.
pub proof fn commands_are_trimmed(s: Seq<char>, i: int)
    requires
        0 <= i,
        s.len() <= usize::MAX,
    ensures
        match (command_from(s, i), tokens_from(s, i)) {
            (Ok(command), Ok(tokens)) => command == join(pieces(s, tokens)) && trim(command)
                == command,
            (Err(at), Err(open)) => at == open,
            _ => false,
        },
{
    lemma_tokens_are_solid(s, i);
    match tokens_from(s, i) {
        Ok(tokens) => {
            let command = join(pieces(s, tokens));
            if tokens.len() > 0 {
                lemma_join_of_solid(pieces(s, tokens));
                assert(trim_end(command) == command);
                assert(trim_start(command) == command);
            } else {
                assert(command =~= Seq::<char>::empty());
                assert(trim_end(command) == command);
                assert(trim_start(command) == command);
            }
        },
        Err(_) => {},
    }
}

/// Whether `l` holds no line feed.
spec fn no_line_feed(l: Seq<char>) -> bool {
    forall|j: int| 0 <= j < l.len() ==> l[j] != '\n'
}

/// Whether `l` holds no line feed and does not end in white space.
spec fn is_clean(l: Seq<char>) -> bool {
    no_line_feed(l) && (l.len() > 0 ==> !is_whitespace(l.last()))
}

/// The lines of a text hold no line feed.
proof fn lemma_lines_hold_no_line_feed(s: Seq<char>, i: int)
    requires
        0 <= i <= s.len(),
    ensures
        forall|k: int|
            0 <= k < lines_from(s, i).len() ==> no_line_feed(#[trigger] lines_from(s, i)[k]),
    decreases s.len() - i,
{
    if i < s.len() {
        let e = run_end(s, i, CharClass::Line);
        lemma_run_end(s, i, CharClass::Line);
        assert forall|j: int| i <= j < e implies s[j] != '\n' by {
            assert(CharClass::Line.has(s[j]));
        }
        if e < s.len() {
            let first = strip_carriage_return(s.subrange(i, e));
            assert(no_line_feed(first));
            lemma_lines_hold_no_line_feed(s, e + 1);
            let rest = lines_from(s, e + 1);
            assert(lines_from(s, i) == seq![first] + rest);
            assert forall|k: int| 0 <= k < lines_from(s, i).len() implies no_line_feed(
                #[trigger] lines_from(s, i)[k],
            ) by {
                if k > 0 {
                    assert(lines_from(s, i)[k] == rest[k - 1]);
                }
            }
        } else {
            assert(no_line_feed(s.subrange(i, s.len() as int)));
        }
    }
}

/// What holds no line feed is clean once it is trimmed at its end.
proof fn lemma_trimmed_is_clean(s: Seq<char>)
    requires
        no_line_feed(s),
    ensures
        is_clean(trim_end(s)),
{
    lemma_trim_end(s);
    let t = trim_end(s);
    assert forall|j: int| 0 <= j < t.len() implies t[j] != '\n' by {
        assert(t[j] == s[j]);
    }
    if t.len() > 0 {
        assert(t.last() == s[t.len() - 1]);
    }
}

/// Lines without a line feed are joined into lines without a line feed that
/// do not end in white space.
proof fn lemma_joined_lines_are_clean(ls: Seq<Seq<char>>, i: int, buffer: Seq<char>)
    requires
        0 <= i <= ls.len(),
        forall|j: int| i <= j < ls.len() ==> no_line_feed(#[trigger] ls[j]),
        no_line_feed(buffer),
    ensures
        forall|k: int|
            0 <= k < join_continued(ls, i, buffer).len() ==> is_clean(
                #[trigger] join_continued(ls, i, buffer)[k],
            ),
    decreases ls.len() - i,
{
    let joined = join_continued(ls, i, buffer);
    if i >= ls.len() {
        if buffer.len() > 0 {
            lemma_trimmed_is_clean(buffer);
            assert(joined =~= seq![trim_end(buffer)]);
        }
    } else {
        let l = ls[i];
        let t = trim_end(l);
        assert(no_line_feed(l));
        lemma_trimmed_is_clean(l);
        if ends_with_backslash(t) {
            let gathered = buffer + t.drop_last() + seq![' '];
            assert forall|j: int| 0 <= j < gathered.len() implies gathered[j] != '\n' by {
                if j < buffer.len() {
                    assert(gathered[j] == buffer[j]);
                } else if j < buffer.len() + t.len() - 1 {
                    assert(gathered[j] == t[j - buffer.len()]);
                }
            }
            lemma_joined_lines_are_clean(ls, i + 1, gathered);
            assert(joined == join_continued(ls, i + 1, gathered));
        } else {
            let whole = buffer + t;
            assert forall|j: int| 0 <= j < whole.len() implies whole[j] != '\n' by {
                if j < buffer.len() {
                    assert(whole[j] == buffer[j]);
                } else {
                    assert(whole[j] == t[j - buffer.len()]);
                }
            }
            lemma_trimmed_is_clean(whole);
            lemma_joined_lines_are_clean(ls, i + 1, Seq::empty());
            let rest = join_continued(ls, i + 1, Seq::empty());
            assert(joined == seq![trim_end(whole)] + rest);
            assert forall|k: int| 0 <= k < joined.len() implies is_clean(#[trigger] joined[k]) by {
                if k > 0 {
                    assert(joined[k] == rest[k - 1]);
                }
            }
        }
    }
}

/// The text of some lines is the first line, a line feed, and the text of
/// the other lines.
proof fn lemma_unlines_first(ls: Seq<Seq<char>>)
    requires
        ls.len() > 0,
    ensures
        unlines(ls) == ls[0] + seq!['\n'] + unlines(ls.drop_first()),
    decreases ls.len(),
{
    if ls.len() == 1 {
        assert(ls.drop_last() =~= Seq::<Seq<char>>::empty());
        assert(ls.drop_first() =~= Seq::<Seq<char>>::empty());
        assert(unlines(ls) =~= ls[0] + seq!['\n'] + unlines(ls.drop_first()));
    } else {
        lemma_unlines_first(ls.drop_last());
        assert(ls.drop_first().drop_last() =~= ls.drop_last().drop_first());
        assert(ls.drop_first().last() == ls.last());
        assert(ls.drop_last()[0] == ls[0]);
        assert(unlines(ls) =~= ls[0] + seq!['\n'] + unlines(ls.drop_first()));
    }
}

/// A run in what follows position `k` of a text is the run in the text itself.
proof fn lemma_run_end_of_rest(s: Seq<char>, k: int, i: int, class: CharClass)
    requires
        0 <= k <= s.len(),
        0 <= i <= s.len() - k,
    ensures
        run_end(s, k + i, class) == k + run_end(s.skip(k), i, class),
{
    let rest = s.skip(k);
    let e = run_end(rest, i, class);
    lemma_run_end(rest, i, class);
    assert forall|j: int| k + i <= j < k + e implies class.has(#[trigger] s[j]) by {
        assert(class.has(rest[j - k]));
    }
    if k + e < s.len() {
        assert(rest[e] == s[k + e]);
    }
    lemma_run_end_unique(s, k + i, k + e, class);
}

/// The lines of what follows position `k` of a text are the lines of the
/// text from `k` on.
proof fn lemma_lines_of_rest(s: Seq<char>, k: int, i: int)
    requires
        0 <= k <= s.len(),
        0 <= i <= s.len() - k,
    ensures
        lines_from(s, k + i) == lines_from(s.skip(k), i),
    decreases s.len() - k - i,
{
    let rest = s.skip(k);
    if k + i < s.len() {
        lemma_run_end_of_rest(s, k, i, CharClass::Line);
        lemma_run_end(rest, i, CharClass::Line);
        let e = run_end(rest, i, CharClass::Line);
        if e >= rest.len() {
            assert(s.subrange(k + i, s.len() as int) =~= rest.subrange(i, rest.len() as int));
        } else {
            assert(s.subrange(k + i, k + e) =~= rest.subrange(i, e));
            lemma_lines_of_rest(s, k, e + 1);
        }
    }
}

/// Lines that hold no line feed and do not end in white space are the lines
/// of their text.
proof fn lemma_lines_of_unlines(ls: Seq<Seq<char>>)
    requires
        forall|k: int| 0 <= k < ls.len() ==> is_clean(#[trigger] ls[k]),
    ensures
        lines(unlines(ls)) == ls,
    decreases ls.len(),
{
    if ls.len() == 0 {
        assert(lines(unlines(ls)) =~= ls);
    } else {
        let first = ls[0];
        let others = ls.drop_first();
        let text = unlines(ls);
        lemma_unlines_first(ls);
        assert(is_clean(first));
        assert forall|j: int| 0 <= j < first.len() implies CharClass::Line.has(
            #[trigger] text[j],
        ) by {
            assert(text[j] == first[j]);
        }
        assert(text[first.len() as int] == '\n');
        lemma_run_end_unique(text, 0, first.len() as int, CharClass::Line);
        assert(text.subrange(0, first.len() as int) =~= first);
        assert(strip_carriage_return(first) == first) by {
            if first.len() > 0 {
                assert(is_whitespace('\r'));
            }
        }
        let n = first.len() as int;
        lemma_lines_of_rest(text, n + 1, 0);
        assert(text.skip(n + 1) =~= unlines(others));
        assert forall|k: int| 0 <= k < others.len() implies is_clean(#[trigger] others[k]) by {
            assert(others[k] == ls[k + 1]);
        }
        lemma_lines_of_unlines(others);
        assert(lines(text) =~= seq![first] + others);
        assert(seq![first] + others =~= ls);
    }
}

/// The lines of the preprocessed text are the logical lines of the source:
/// to read a script from its logical lines is to read it from the
/// preprocessed text.
pub proof fn parsing_reads_the_preprocessed_text(source: Seq<char>)
    ensures
        lines(preprocess(source)) == logical_lines(source),
        parse(source) == parse_lines(lines(preprocess(source))),
{
    lemma_lines_hold_no_line_feed(source, 0);
    lemma_joined_lines_are_clean(lines(source), 0, Seq::empty());
    lemma_lines_of_unlines(logical_lines(source));
}

/// Whether the first character of `s` that is no white space is `#`.
spec fn is_comment(s: Seq<char>) -> bool {
    let a = run_end(s, 0, CharClass::Whitespace);
    a < s.len() && s[a] == '#'
}

/// A text that goes on as a comment begins is a comment.
proof fn lemma_comment_goes_on(b: Seq<char>, c: Seq<char>)
    requires
        is_comment(b),
        run_end(b, 0, CharClass::Whitespace) < c.len(),
        forall|j: int| 0 <= j <= run_end(b, 0, CharClass::Whitespace) ==> c[j] == b[j],
    ensures
        is_comment(c),
{
    let a = run_end(b, 0, CharClass::Whitespace);
    lemma_run_end(b, 0, CharClass::Whitespace);
    assert forall|j: int| 0 <= j < a implies CharClass::Whitespace.has(#[trigger] c[j]) by {
        assert(CharClass::Whitespace.has(b[j]));
    }
    lemma_run_end_unique(c, 0, a, CharClass::Whitespace);
}

/// A comment stays one when it is trimmed at its end; a blank line becomes empty.
proof fn lemma_trimmed_comment(l: Seq<char>)
    requires
        is_blank_or_comment(l),
    ensures
        is_comment(l) ==> is_comment(trim_end(l)),
        !is_comment(l) ==> trim_end(l).len() == 0,
{
    let a = run_end(l, 0, CharClass::Whitespace);
    lemma_run_end(l, 0, CharClass::Whitespace);
    lemma_trim_end(l);
    let n = trim_end(l).len() as int;
    if is_comment(l) {
        if n <= a {
            assert(is_whitespace(l[a]));
        }
        lemma_comment_goes_on(l, trim_end(l));
    } else {
        if n > 0 {
            assert(CharClass::Whitespace.has(l[n - 1]));
        }
    }
}

/// Lines that are blank or comments are joined into lines that are blank
/// or comments.
proof fn lemma_joined_comments(ls: Seq<Seq<char>>, i: int, buffer: Seq<char>)
    requires
        0 <= i <= ls.len(),
        forall|j: int| i <= j < ls.len() ==> is_blank_or_comment(#[trigger] ls[j]),
        buffer.len() == 0 || is_comment(buffer),
    ensures
        forall|k: int|
            0 <= k < join_continued(ls, i, buffer).len() ==> is_blank_or_comment(
                #[trigger] join_continued(ls, i, buffer)[k],
            ),
    decreases ls.len() - i,
{
    let joined = join_continued(ls, i, buffer);
    if i >= ls.len() {
        if buffer.len() > 0 {
            lemma_blank_or_comment_trimmed(buffer);
            assert(joined =~= seq![trim_end(buffer)]);
        }
    } else {
        let l = ls[i];
        let t = trim_end(l);
        assert(is_blank_or_comment(l));
        lemma_trimmed_comment(l);
        if ends_with_backslash(t) {
            let gathered = buffer + t.drop_last() + seq![' '];
            if buffer.len() > 0 {
                lemma_comment_goes_on(buffer, gathered);
            } else {
                assert(is_comment(t));
                let a = run_end(t, 0, CharClass::Whitespace);
                assert(t[a] == '#');
                assert(t.last() == '\\');
                assert(a < t.len() - 1);
                assert forall|j: int| 0 <= j <= a implies gathered[j] == t[j] by {
                    assert(gathered[j] == t.drop_last()[j]);
                }
                lemma_comment_goes_on(t, gathered);
            }
            lemma_joined_comments(ls, i + 1, gathered);
            assert(joined == join_continued(ls, i + 1, gathered));
        } else {
            let whole = buffer + t;
            if buffer.len() > 0 {
                lemma_comment_goes_on(buffer, whole);
            } else {
                assert(whole =~= t);
            }
            if is_comment(whole) {
                lemma_blank_or_comment_trimmed(whole);
            } else {
                assert(whole.len() == 0);
                assert(trim_end(whole) =~= whole);
            }
            assert(is_blank_or_comment(trim_end(whole)));
            lemma_joined_comments(ls, i + 1, Seq::empty());
            let rest = join_continued(ls, i + 1, Seq::empty());
            assert(joined == seq![trim_end(whole)] + rest);
            assert forall|k: int| 0 <= k < joined.len() implies is_blank_or_comment(
                #[trigger] joined[k],
            ) by {
                if k > 0 {
                    assert(joined[k] == rest[k - 1]);
                }
            }
        }
    }
}

/// A line that is blank or a comment is so when it is trimmed at its end.
proof fn lemma_blank_or_comment_trimmed(l: Seq<char>)
    requires
        is_blank_or_comment(l),
    ensures
        is_blank_or_comment(trim_end(l)),
{
    lemma_trimmed_comment(l);
    lemma_run_end(trim_end(l), 0, CharClass::Whitespace);
}

/// Lines that are blank or comments add no statement and close no block.
proof fn lemma_statements_of_comments(ls: Seq<Seq<char>>, i: int, open: Seq<BlockView>)
    requires
        0 <= i <= ls.len(),
        open.len() == 1,
        forall|j: int| i <= j < ls.len() ==> is_blank_or_comment(#[trigger] ls[j]),
    ensures
        statements_from(ls, i, open) == Ok::<Seq<StatementView>, ParseError>(open[0].statements),
    decreases ls.len() - i,
{
    if i < ls.len() {
        assert(is_blank_or_comment(ls[i]));
        assert(classify(ls[i]) == LineView::Empty);
        lemma_statements_of_comments(ls, i + 1, open);
    }
}

/// A source text in which every line is blank or a comment is a script
/// without statements.
pub proof fn comments_make_an_empty_script(source: Seq<char>)
    requires
        forall|i: int|
            0 <= i < lines(source).len() ==> is_blank_or_comment(#[trigger] lines(source)[i]),
    ensures
        parse(source) == Ok::<Seq<StatementView>, ParseError>(Seq::empty()),
{
    lemma_joined_comments(lines(source), 0, Seq::empty());
    lemma_statements_of_comments(logical_lines(source), 0, seq![script_block()]);
}

} // verus!
