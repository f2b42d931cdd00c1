//! The statements of a script.
//!
//! Each type has a view: the same value with its strings as sequences of
//! characters. The contracts of the parser and of the interpreter speak of
//! these views.

use vstd::prelude::*;

verus! {

/// The value of an assignment.
#[derive(Debug, Clone, PartialEq, Eq)]
pub enum Expression {
    /// The text after the `=`, as it stands in the source.
    String(String),
}

/// One statement of a script.
#[derive(Debug, PartialEq, Eq)]
pub enum Statement {
    /// `name=value`: binds a variable.
    Assignment { name: String, value: Expression },
    /// A function whose body is a block of statements.
    FunctionDef { name: String, body: Vec<Statement> },
    /// `name() command`: a function whose body is one command template.
    SimpleFunctionDef { name: String, command_template: String },
    /// `name(arg, ...)`: a call with the arguments written at the call site.
    FunctionCall { name: String, args: Vec<String> },
    /// A command line for the shell.
    Command { command: String },
}

/// A script: its statements in the order of the source.
#[derive(Debug, PartialEq, Eq)]
pub struct Program {
    pub statements: Vec<Statement>,
}

/// The view of a [`Statement`].
pub enum StatementView {
    Assignment { name: Seq<char>, value: Seq<char> },
    FunctionDef { name: Seq<char>, body: Seq<StatementView> },
    SimpleFunctionDef { name: Seq<char>, command_template: Seq<char> },
    FunctionCall { name: Seq<char>, args: Seq<Seq<char>> },
    Command { command: Seq<char> },
}

/// The views of a sequence of strings.
pub open spec fn strings_view(v: Seq<String>) -> Seq<Seq<char>> {
    v.map_values(|s: String| s@)
}

/// The views of a sequence of statements.
pub open spec fn statements_view(v: Seq<Statement>) -> Seq<StatementView> {
    v.map_values(|s: Statement| s@)
}

impl View for Expression {
    type V = Seq<char>;

    open spec fn view(&self) -> Seq<char> {
        match self {
            Expression::String(s) => s@,
        }
    }
}

impl View for Statement {
    type V = StatementView;

    open spec fn view(&self) -> StatementView
        decreases self,
    {
        match self {
            Statement::Assignment { name, value } => StatementView::Assignment {
                name: name@,
                value: value@,
            },
            Statement::FunctionDef { name, body } => StatementView::FunctionDef {
                name: name@,
                body: Seq::new(
                    body@.len(),
                    |i: int|
                        if 0 <= i < body@.len() {
                            body@[i].view()
                        } else {
                            arbitrary()
                        },
                ),
            },
            Statement::SimpleFunctionDef { name, command_template } => {
                StatementView::SimpleFunctionDef {
                    name: name@,
                    command_template: command_template@,
                }
            },
            Statement::FunctionCall { name, args } => StatementView::FunctionCall {
                name: name@,
                args: strings_view(args@),
            },
            Statement::Command { command } => StatementView::Command { command: command@ },
        }
    }
}

impl View for Program {
    type V = Seq<StatementView>;

    open spec fn view(&self) -> Seq<StatementView> {
        statements_view(self.statements@)
    }
}

/// The view of a function definition holds the views of the statements of its body.
pub proof fn lemma_function_def_view(s: Statement)
    requires
        s is FunctionDef,
    ensures
        s@ == (StatementView::FunctionDef {
            name: s->FunctionDef_name@,
            body: statements_view(s->body@),
        }),
{
    reveal_with_fuel(<Statement as View>::view, 2);
    assert(s@->FunctionDef_body =~= statements_view(s->body@));
}

/// The names of the simple function definitions among `statements`, in their order.
pub open spec fn simple_function_names(statements: Seq<StatementView>) -> Seq<Seq<char>>
    decreases statements.len(),
{
    if statements.len() == 0 {
        Seq::empty()
    } else {
        let before = simple_function_names(statements.drop_last());
        match statements.last() {
            StatementView::SimpleFunctionDef { name, .. } => before.push(name),
            _ => before,
        }
    }
}

/// A copy of each of the given strings.
pub fn copy_strings(v: &[String]) -> (r: Vec<String>)
    ensures
        strings_view(r@) == strings_view(v@),
{
    let mut out: Vec<String> = Vec::new();
    let mut i: usize = 0;
    while i < v.len()
        invariant
            i <= v.len(),
            out.len() == i,
            forall|j: int| 0 <= j < i ==> out@[j]@ == v@[j]@,
        decreases v.len() - i,
    {
        out.push(v[i].clone());
        i += 1;
    }
    assert(strings_view(out@) =~= strings_view(v@));
    out
}

/// A copy of a statement.
pub fn copy_statement(s: &Statement) -> (r: Statement)
    ensures
        r@ == s@,
    decreases s,
{
    match s {
        Statement::Assignment { name, value } => {
            let Expression::String(v) = value;
            Statement::Assignment { name: name.clone(), value: Expression::String(v.clone()) }
        },
        Statement::FunctionDef { name, body } => {
            let mut out: Vec<Statement> = Vec::new();
            let mut i: usize = 0;
            while i < body.len()
                invariant
                    i <= body.len(),
                    out.len() == i,
                    forall|j: int| 0 <= j < i ==> out@[j]@ == body@[j]@,
                    s matches Statement::FunctionDef { body: b, .. } && b == body,
                decreases body.len() - i,
            {
                assert(decreases_to!(s => body@[i as int]));
                let c = copy_statement(&body[i]);
                out.push(c);
                i += 1;
            }
            let r = Statement::FunctionDef { name: name.clone(), body: out };
            assert(r@->FunctionDef_body =~= s@->FunctionDef_body);
            r
        },
        Statement::SimpleFunctionDef { name, command_template } => Statement::SimpleFunctionDef {
            name: name.clone(),
            command_template: command_template.clone(),
        },
        Statement::FunctionCall { name, args } => {
            let copies = copy_strings(args.as_slice());
            Statement::FunctionCall { name: name.clone(), args: copies }
        },
        Statement::Command { command } => Statement::Command { command: command.clone() },
    }
}

/// A copy of each of the given statements.
pub fn copy_statements(v: &Vec<Statement>) -> (r: Vec<Statement>)
    ensures
        statements_view(r@) == statements_view(v@),
{
    let mut out: Vec<Statement> = Vec::new();
    let mut i: usize = 0;
    while i < v.len()
        invariant
            i <= v.len(),
            out.len() == i,
            forall|j: int| 0 <= j < i ==> out@[j]@ == v@[j]@,
        decreases v.len() - i,
    {
        out.push(copy_statement(&v[i]));
        i += 1;
    }
    assert(statements_view(out@) =~= statements_view(v@));
    out
}

impl Clone for Statement {
    fn clone(&self) -> (r: Self)
        ensures
            r@ == self@,
    {
        copy_statement(self)
    }
}

impl Clone for Program {
    fn clone(&self) -> (r: Self)
        ensures
            r@ == self@,
    {
        Program { statements: copy_statements(&self.statements) }
    }
}

impl Program {
    /// The names of the simple functions that the script defines at its top
    /// level, in the order of their definitions. A name that is defined twice
    /// is listed twice.
    pub fn function_names(&self) -> (r: Vec<String>)
        ensures
            strings_view(r@) == simple_function_names(self@),
    {
        let mut out: Vec<String> = Vec::new();
        let mut i: usize = 0;
        let ghost all = statements_view(self.statements@);
        while i < self.statements.len()
            invariant
                i <= self.statements.len(),
                all == statements_view(self.statements@),
                strings_view(out@) == simple_function_names(all.take(i as int)),
            decreases self.statements.len() - i,
        {
            let ghost before = out@;
            assert(all.take(i + 1).drop_last() =~= all.take(i as int));
            assert(all.take(i + 1).last() == self.statements@[i as int]@);
            match &self.statements[i] {
                Statement::SimpleFunctionDef { name, .. } => {
                    out.push(name.clone());
                    assert(strings_view(out@) =~= strings_view(before).push(name@));
                },
                _ => {},
            }
            i += 1;
        }
        assert(all.take(all.len() as int) =~= all);
        out
    }
}

} // verus!

