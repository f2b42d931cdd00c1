//! The interpreter: the tables of variables and functions, and the statements
//! that wait to be carried out.
//!
//! The interpreter runs no command itself. It works in steps: each step
//! carries out one statement and tells its caller what to do next, which may
//! be to hand a command line to the shell. The caller does so and asks for
//! the next step, until nothing is left. A statement or a call that fails
//! drops all statements that still wait; what the statements before it have
//! stored stays.

use std::collections::VecDeque;
use vstd::prelude::*;
use vstd::hash_map::StringHashMap;
use vstd::string::StringExecFns;
use crate::ast::{
    copy_statements,
    lemma_function_def_view,
    statements_view,
    strings_view,
    Expression,
    Program,
    Statement,
    StatementView,
};
use crate::error::{ExecutionError, ExecutionErrorView};
use crate::resolve::{
    find_with_args,
    find_without_parens,
    found_view,
    match_with_args,
    match_without_parens,
    templates_view,
    Candidate,
    CandidateView,
    Templates,
};
use crate::template::{substitute, substitute_args, variables_view, Variables};
use crate::text::optional_view;

verus! {

/// The bodies of the full functions, by name.
pub type Bodies = Map<Seq<char>, Seq<StatementView>>;

/// The views of the bodies in a table.
pub open spec fn bodies_view(m: Map<Seq<char>, Vec<Statement>>) -> Bodies {
    m.map_values(|b: Vec<Statement>| statements_view(b@))
}

/// The state of an interpreter.
pub struct InterpreterView {
    /// The variables, in the order in which their names were first assigned.
    pub variables: Variables,
    /// The full functions: for each name, the statements of the body.
    pub functions: Bodies,
    /// The simple functions: for each name, the command template.
    pub simple_functions: Templates,
    /// The statements that wait to be carried out, the next one first.
    pub pending: Seq<StatementView>,
}

/// What the caller of the interpreter has to do next.
#[derive(Debug, Clone, PartialEq, Eq)]
pub enum Action {
    /// Nothing: no statement waits.
    Finished,
    /// Ask for the next step.
    Proceed,
    /// Hand this command line to the shell, then ask for the next step.
    Run(String),
}

/// The view of an [`Action`].
pub enum ActionView {
    Finished,
    Proceed,
    Run(Seq<char>),
}

impl View for Action {
    type V = ActionView;

    open spec fn view(&self) -> ActionView {
        match self {
            Action::Finished => ActionView::Finished,
            Action::Proceed => ActionView::Proceed,
            Action::Run(command) => ActionView::Run(command@),
        }
    }
}

/// How a step ends: with something for the caller to do, or with an error.
pub type Outcome = Result<ActionView, ExecutionErrorView>;

/// The view of the result of a step.
pub open spec fn outcome_view(r: Result<Action, ExecutionError>) -> Outcome {
    match r {
        Ok(action) => Ok(action@),
        Err(e) => Err(e@),
    }
}

/// Whether no name occurs twice among the variables.
pub open spec fn distinct_names(variables: Variables) -> bool {
    forall|i: int, j: int|
        0 <= i < j < variables.len() ==> (#[trigger] variables[i]).0 != (#[trigger] variables[j]).0
}

/// The position of the first variable from `from` on that has the given
/// name, or the number of variables if there is none.
pub open spec fn position(variables: Variables, name: Seq<char>, from: int) -> int
    decreases variables.len() - from,
{
    if from < 0 || from >= variables.len() {
        variables.len() as int
    } else if variables[from].0 == name {
        from
    } else {
        position(variables, name, from + 1)
    }
}

/// The variables after `name` has been given `value`: the value takes the
/// place of the one that the name had, or the name comes last.
pub open spec fn assign(variables: Variables, name: Seq<char>, value: Seq<char>) -> Variables {
    let k = position(variables, name, 0);
    if k < variables.len() {
        variables.update(k, (name, value))
    } else {
        variables.push((name, value))
    }
}

/// The value that the variables hold for a name.
pub open spec fn value_of(variables: Variables, name: Seq<char>) -> Option<Seq<char>> {
    let k = position(variables, name, 0);
    if k < variables.len() {
        Some(variables[k].1)
    } else {
        None
    }
}

/// What `position` finds: the first variable with the name.
pub proof fn lemma_position(variables: Variables, name: Seq<char>, from: int)
    requires
        0 <= from <= variables.len(),
    ensures
        from <= position(variables, name, from) <= variables.len(),
        position(variables, name, from) < variables.len() ==> variables[position(
            variables,
            name,
            from,
        )].0 == name,
        forall|j: int|
            from <= j < position(variables, name, from) ==> (#[trigger] variables[j]).0 != name,
    decreases variables.len() - from,
{
    if from < variables.len() && variables[from].0 != name {
        lemma_position(variables, name, from + 1);
    }
}

/// An assignment leaves the names distinct.
pub proof fn lemma_assign_keeps_names_distinct(
    variables: Variables,
    name: Seq<char>,
    value: Seq<char>,
)
    requires
        distinct_names(variables),
    ensures
        distinct_names(assign(variables, name, value)),
{
    lemma_position(variables, name, 0);
    let k = position(variables, name, 0);
    let after = assign(variables, name, value);
    assert forall|i: int, j: int| 0 <= i < j < after.len() implies (#[trigger] after[i]).0 != (
    #[trigger] after[j]).0 by {
        if k < variables.len() {
            assert(after[i].0 == variables[i].0);
            assert(after[j].0 == variables[j].0);
        } else if j < variables.len() {
            assert(after[i] == variables[i]);
            assert(after[j] == variables[j]);
        } else {
            assert(after[i] == variables[i]);
        }
    }
}

/// The state with other statements waiting.
pub open spec fn with_pending(state: InterpreterView, pending: Seq<StatementView>) -> InterpreterView {
    InterpreterView {
        variables: state.variables,
        functions: state.functions,
        simple_functions: state.simple_functions,
        pending,
    }
}

/// What a call comes to.
pub enum Resolution {
    /// A simple function: the command that its template makes.
    Run(Seq<char>),
    /// A full function: the statements of its body.
    Enter(Seq<StatementView>),
    /// No function.
    NotFound,
}

/// What a call comes to, given what the strategies have found among the
/// simple functions: the template found, filled in; else the full function
/// of that name; else nothing.
pub open spec fn resolution(found: Option<CandidateView>, state: InterpreterView, name: Seq<char>) -> Resolution {
    match found {
        Some(candidate) => Resolution::Run(
            substitute(candidate.template, candidate.args, state.variables),
        ),
        None => if state.functions.contains_key(name) {
            Resolution::Enter(state.functions[name])
        } else {
            Resolution::NotFound
        },
    }
}

/// What a call written as separate words comes to.
pub open spec fn resolve_without_parens(
    state: InterpreterView,
    name: Seq<char>,
    args: Seq<Seq<char>>,
) -> Resolution {
    resolution(match_without_parens(state.simple_functions, name, args), state, name)
}

/// What a call with its arguments in parentheses comes to.
pub open spec fn resolve_with_args(state: InterpreterView, name: Seq<char>, args: Seq<Seq<char>>) -> Resolution {
    resolution(match_with_args(state.simple_functions, name, args), state, name)
}

/// The state and the outcome after a call of `name` that came to `resolved`.
/// A simple function gives a command to run. The body of a full function is
/// put before the statements that wait. A call that finds no function fails,
/// and no statement waits any longer.
pub open spec fn after_resolution(state: InterpreterView, name: Seq<char>, resolved: Resolution) -> (
    InterpreterView,
    Outcome,
) {
    match resolved {
        Resolution::Run(command) => (state, Ok(ActionView::Run(command))),
        Resolution::Enter(body) => (
            with_pending(state, body + state.pending),
            Ok(ActionView::Proceed),
        ),
        Resolution::NotFound => (
            with_pending(state, Seq::empty()),
            Err(ExecutionErrorView::FunctionNotFound { name }),
        ),
    }
}

/// The state and the outcome after one statement has been carried out.
pub open spec fn after_statement(state: InterpreterView, statement: StatementView) -> (
    InterpreterView,
    Outcome,
) {
    match statement {
        StatementView::Assignment { name, value } => (
            InterpreterView {
                variables: assign(state.variables, name, value),
                functions: state.functions,
                simple_functions: state.simple_functions,
                pending: state.pending,
            },
            Ok(ActionView::Proceed),
        ),
        StatementView::FunctionDef { name, body } => (
            InterpreterView {
                variables: state.variables,
                functions: state.functions.insert(name, body),
                simple_functions: state.simple_functions,
                pending: state.pending,
            },
            Ok(ActionView::Proceed),
        ),
        StatementView::SimpleFunctionDef { name, command_template } => (
            InterpreterView {
                variables: state.variables,
                functions: state.functions,
                simple_functions: state.simple_functions.insert(name, command_template),
                pending: state.pending,
            },
            Ok(ActionView::Proceed),
        ),
        StatementView::FunctionCall { name, args } => after_resolution(
            state,
            name,
            resolve_with_args(state, name, args),
        ),
        StatementView::Command { command } => (
            state,
            Ok(ActionView::Run(substitute(command, Seq::empty(), state.variables))),
        ),
    }
}

/// The state and the outcome after one step: the first of the statements
/// that wait is carried out; if none waits, the step finds the work finished.
pub open spec fn after_step(state: InterpreterView) -> (InterpreterView, Outcome) {
    if state.pending.len() == 0 {
        (state, Ok(ActionView::Finished))
    } else {
        after_statement(with_pending(state, state.pending.drop_first()), state.pending[0])
    }
}

/// An interpreter: variables, functions, and the statements that wait.
pub struct Interpreter {
    variables: Vec<(String, String)>,
    functions: StringHashMap<Vec<Statement>>,
    simple_functions: StringHashMap<String>,
    pending: VecDeque<Statement>,
}

impl View for Interpreter {
    type V = InterpreterView;

    closed spec fn view(&self) -> InterpreterView {
        InterpreterView {
            variables: variables_view(self.variables@),
            functions: bodies_view(self.functions@),
            simple_functions: templates_view(self.simple_functions@),
            pending: statements_view(self.pending@),
        }
    }
}

impl Interpreter {
    /// The invariant of an interpreter: no name occurs twice among its variables.
    pub open spec fn well_formed(&self) -> bool {
        distinct_names(self@.variables)
    }

    /// An interpreter with no variable, no function, and nothing to do.
    pub fn new() -> (r: Interpreter)
        ensures
            r.well_formed(),
            r@.variables == Seq::<(Seq<char>, Seq<char>)>::empty(),
            r@.functions == Map::<Seq<char>, Seq<StatementView>>::empty(),
            r@.simple_functions == Map::<Seq<char>, Seq<char>>::empty(),
            r@.pending == Seq::<StatementView>::empty(),
    {
        let r = Interpreter {
            variables: Vec::new(),
            functions: StringHashMap::new(),
            simple_functions: StringHashMap::new(),
            pending: VecDeque::new(),
        };
        assert(r@.variables =~= Seq::empty());
        assert(r@.functions =~= Map::empty());
        assert(r@.simple_functions =~= Map::empty());
        assert(r@.pending =~= Seq::empty());
        r
    }

    /// Puts statements before those that wait, in their order.
    fn schedule(&mut self, statements: Vec<Statement>)
        ensures
            final(self)@ == with_pending(
                old(self)@,
                statements_view(statements@) + old(self)@.pending,
            ),
    {
        let mut rest = statements;
        let ghost all = statements_view(statements@);
        assert(all.skip(all.len() as int) + old(self)@.pending =~= old(self)@.pending);
        while rest.len() > 0
            invariant
                rest@ == statements@.take(rest.len() as int),
                rest.len() <= statements.len(),
                all == statements_view(statements@),
                self.variables == old(self).variables,
                self.functions == old(self).functions,
                self.simple_functions == old(self).simple_functions,
                statements_view(self.pending@) == all.skip(rest.len() as int) + old(
                    self,
                )@.pending,
            decreases rest.len(),
        {
            let ghost before = statements_view(self.pending@);
            let ghost n = rest.len();
            let statement = rest.pop().unwrap();
            assert(rest@ =~= statements@.take(n - 1));
            self.pending.push_front(statement);
            assert(statements_view(self.pending@) =~= seq![statement@] + before);
            assert(seq![statement@] + all.skip(n as int) =~= all.skip(n - 1));
            assert(statements_view(self.pending@) =~= all.skip(n - 1) + old(self)@.pending);
        }
        assert(all.skip(0) =~= all);
    }

    /// Takes a script up: its statements are put before those that wait, and
    /// are carried out by the steps that follow.
    pub fn execute(&mut self, program: Program)
        requires
            old(self).well_formed(),
        ensures
            final(self).well_formed(),
            final(self)@ == with_pending(old(self)@, program@ + old(self)@.pending),
    {
        self.schedule(program.statements);
    }

    /// Drops the statements that wait.
    pub fn abort(&mut self)
        requires
            old(self).well_formed(),
        ensures
            final(self).well_formed(),
            final(self)@ == with_pending(old(self)@, Seq::empty()),
    {
        self.pending.clear();
        assert(statements_view(self.pending@) =~= Seq::empty());
    }

    /// Fills a template in with the given arguments and the variables of
    /// the interpreter.
    pub fn substitute_args(&self, template: &str, args: &[String]) -> (r: String)
        ensures
            r@ == substitute(template@, strings_view(args@), self@.variables),
    {
        substitute_args(template, args, &self.variables)
    }

    /// Gives `name` the value `value`.
    fn assign(&mut self, name: String, value: String)
        requires
            old(self).well_formed(),
        ensures
            final(self).well_formed(),
            final(self)@ == (InterpreterView {
                variables: assign(old(self)@.variables, name@, value@),
                functions: old(self)@.functions,
                simple_functions: old(self)@.simple_functions,
                pending: old(self)@.pending,
            }),
    {
        let ghost before = variables_view(self.variables@);
        let mut i: usize = 0;
        while i < self.variables.len() && self.variables[i].0 != name
            invariant
                i <= self.variables.len(),
                self.variables == old(self).variables,
                position(before, name@, 0) == position(before, name@, i as int),
                before == variables_view(self.variables@),
            decreases self.variables.len() - i,
        {
            i += 1;
        }
        proof {
            lemma_assign_keeps_names_distinct(before, name@, value@);
        }
        if i < self.variables.len() {
            self.variables.set(i, (name, value));
            assert(variables_view(self.variables@) =~= before.update(i as int, (name@, value@)));
        } else {
            self.variables.push((name, value));
            assert(variables_view(self.variables@) =~= before.push((name@, value@)));
        }
    }

    /// Concludes a call from what the strategies have found among the simple
    /// functions.
    fn conclude(&mut self, found: Option<Candidate>, name: &str) -> (r: Result<
        Action,
        ExecutionError,
    >)
        requires
            old(self).well_formed(),
        ensures
            final(self).well_formed(),
            (final(self)@, outcome_view(r)) == after_resolution(
                old(self)@,
                name@,
                resolution(found_view(found), old(self)@, name@),
            ),
    {
        match found {
            Some(candidate) => {
                let command = substitute_args(
                    candidate.template.as_str(),
                    candidate.args.as_slice(),
                    &self.variables,
                );
                Ok(Action::Run(command))
            },
            None => {
                match self.functions.get(name) {
                    Some(body) => {
                        let copy = copy_statements(body);
                        self.schedule(copy);
                        Ok(Action::Proceed)
                    },
                    None => {
                        self.pending.clear();
                        assert(statements_view(self.pending@) =~= Seq::empty());
                        Err(ExecutionError::FunctionNotFound { name: String::from_str(name) })
                    },
                }
            },
        }
    }

    /// Calls a function by a name and arguments that come as separate words,
    /// as on a command line.
    ///
    /// The name is looked for among the simple functions: as it is; then with
    /// `:` and the first argument after it, which leaves the other arguments
    /// for the template; then with each `_` turned into `:`. The first
    /// template found is filled in and comes back as a command to run. If
    /// there is none, the full function of that name is entered: the
    /// statements of its body are put before those that wait. If there is
    /// none either, the call fails, and no statement waits any longer.
    pub fn call_function_without_parens(&mut self, function_name: &str, args: &[String]) -> (r:
        Result<Action, ExecutionError>)
        requires
            old(self).well_formed(),
        ensures
            final(self).well_formed(),
            (final(self)@, outcome_view(r)) == after_resolution(
                old(self)@,
                function_name@,
                resolve_without_parens(old(self)@, function_name@, strings_view(args@)),
            ),
    {
        let found = find_without_parens(&self.simple_functions, function_name, args);
        self.conclude(found, function_name)
    }

    /// Calls a function by a name and the arguments written in parentheses
    /// after it.
    ///
    /// The name is looked for among the simple functions: as it is; then with
    /// each space turned into `:`; then as its first two words with `:`
    /// between them. The first template found is filled in with the arguments
    /// and comes back as a command to run. If there is none, the full function
    /// of that name is entered. If there is none either, the call fails, and
    /// no statement waits any longer.
    pub fn call_function_with_args(&mut self, function_name: &str, args: &[String]) -> (r: Result<
        Action,
        ExecutionError,
    >)
        requires
            old(self).well_formed(),
        ensures
            final(self).well_formed(),
            (final(self)@, outcome_view(r)) == after_resolution(
                old(self)@,
                function_name@,
                resolve_with_args(old(self)@, function_name@, strings_view(args@)),
            ),
    {
        let found = find_with_args(&self.simple_functions, function_name, args);
        self.conclude(found, function_name)
    }

    /// Carries out one statement.
    ///
    /// An assignment and a definition store what they name. A call is
    /// resolved by its name. A command has its variables filled in and comes
    /// back as a command to run.
    pub fn execute_statement(&mut self, statement: Statement) -> (r: Result<Action, ExecutionError>)
        requires
            old(self).well_formed(),
        ensures
            final(self).well_formed(),
            (final(self)@, outcome_view(r)) == after_statement(old(self)@, statement@),
    {
        proof {
            if statement is FunctionDef {
                lemma_function_def_view(statement);
            }
        }
        match statement {
            Statement::Assignment { name, value } => {
                let Expression::String(text) = value;
                self.assign(name, text);
                Ok(Action::Proceed)
            },
            Statement::FunctionDef { name, body } => {
                let ghost before = self.functions@;
                self.functions.insert(name, body);
                assert(bodies_view(self.functions@) =~= bodies_view(before).insert(
                    name@,
                    statements_view(body@),
                ));
                Ok(Action::Proceed)
            },
            Statement::SimpleFunctionDef { name, command_template } => {
                let ghost before = self.simple_functions@;
                self.simple_functions.insert(name, command_template);
                assert(templates_view(self.simple_functions@) =~= templates_view(before).insert(
                    name@,
                    command_template@,
                ));
                Ok(Action::Proceed)
            },
            Statement::FunctionCall { name, args } => {
                self.call_function_with_args(name.as_str(), args.as_slice())
            },
            Statement::Command { command } => {
                let none: Vec<String> = Vec::new();
                assert(strings_view(none@) =~= Seq::<Seq<char>>::empty());
                let filled = substitute_args(command.as_str(), none.as_slice(), &self.variables);
                Ok(Action::Run(filled))
            },
        }
    }

    /// Carries out the first of the statements that wait, and tells what
    /// the caller has to do next.
    pub fn step(&mut self) -> (r: Result<Action, ExecutionError>)
        requires
            old(self).well_formed(),
        ensures
            final(self).well_formed(),
            (final(self)@, outcome_view(r)) == after_step(old(self)@),
    {
        let ghost before = statements_view(self.pending@);
        match self.pending.pop_front() {
            None => Ok(Action::Finished),
            Some(statement) => {
                assert(statements_view(self.pending@) =~= before.drop_first());
                assert(before[0] == statement@);
                self.execute_statement(statement)
            },
        }
    }

    /// The value of the variable `name`, if it has one.
    pub fn variable(&self, name: &str) -> (r: Option<String>)
        ensures
            optional_view(r) == value_of(self@.variables, name@),
    {
        let ghost all = variables_view(self.variables@);
        let wanted = String::from_str(name);
        let mut i: usize = 0;
        while i < self.variables.len() && self.variables[i].0 != wanted
            invariant
                i <= self.variables.len(),
                wanted@ == name@,
                all == variables_view(self.variables@),
                position(all, name@, 0) == position(all, name@, i as int),
            decreases self.variables.len() - i,
        {
            i += 1;
        }
        proof {
            lemma_position(all, name@, i as int);
        }
        if i < self.variables.len() {
            Some(self.variables[i].1.clone())
        } else {
            None
        }
    }

    /// The command template of the simple function `name`, if there is one.
    pub fn simple_function(&self, name: &str) -> (r: Option<String>)
        ensures
            optional_view(r) == if self@.simple_functions.contains_key(name@) {
                Some(self@.simple_functions[name@])
            } else {
                None
            },
    {
        match self.simple_functions.get(name) {
            Some(template) => Some(template.clone()),
            None => None,
        }
    }

    /// The body of the full function `name`, if there is one.
    pub fn function(&self, name: &str) -> (r: Option<Vec<Statement>>)
        ensures
            match r {
                Some(body) => self@.functions.contains_key(name@) && self@.functions[name@]
                    == statements_view(body@),
                None => !self@.functions.contains_key(name@),
            },
    {
        match self.functions.get(name) {
            Some(body) => Some(copy_statements(body)),
            None => None,
        }
    }

    /// The number of statements that wait.
    pub fn pending_len(&self) -> (r: usize)
        ensures
            r == self@.pending.len(),
    {
        self.pending.len()
    }
}

} // verus!
