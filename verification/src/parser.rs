//! The parser: from source text to the statements of a script.

use vstd::prelude::*;
use crate::ast::{
    lemma_function_def_view,
    statements_view,
    strings_view,
    Expression,
    Program,
    Statement,
    StatementView,
};
use crate::error::{ParseError, ParseErrorKind};
use crate::grammar::{
    add_statement,
    arguments_from,
    argument_at,
    classify,
    command_from,
    parse_lines,
    piece,
    pieces,
    render,
    script_block,
    statements_from,
    tokens_from,
    with_arguments,
    with_token,
    BlockView,
    LineView,
    Token,
    TokenKind,
};
use crate::preprocess::{lines_view, logical_lines, logical_lines_of};
use crate::text::{
    append_chars,
    char_is_identifier_start,
    char_is_operator,
    char_is_whitespace,
    copy_range,
    lemma_run_end_advances,
    scan,
    join,
    string_of,
    CharClass,
};

verus! {

/// The statements of a source text, or the first place at which it is no script.
pub open spec fn parse(source: Seq<char>) -> Result<Seq<StatementView>, ParseError> {
    parse_lines(logical_lines(source))
}

/// `rest` with the tokens `before` in front of its own.
pub open spec fn with_tokens(before: Seq<Token>, rest: Result<Seq<Token>, int>) -> Result<
    Seq<Token>,
    int,
> {
    match rest {
        Ok(tokens) => Ok(before + tokens),
        Err(at) => Err(at),
    }
}

/// Whether each token lies inside a line of length `len`.
pub open spec fn tokens_within(tokens: Seq<Token>, len: int) -> bool {
    forall|k: int| 0 <= k < tokens.len() ==> (#[trigger] tokens[k]).start <= tokens[k].end <= len
}

/// Reads the tokens of `s` from position `start` on. Fails with the position
/// of the double quote that is left open.
pub fn tokenize(s: &Vec<char>, start: usize) -> (r: Result<Vec<Token>, usize>)
    ensures
        match r {
            Ok(tokens) => tokens_from(s@, start as int) == Ok::<Seq<Token>, int>(tokens@)
                && tokens_within(tokens@, s@.len() as int),
            Err(at) => tokens_from(s@, start as int) == Err::<Seq<Token>, int>(at as int) && at
                < s.len(),
        },
{
    let mut out: Vec<Token> = Vec::new();
    let mut i: usize = start;
    assert(with_tokens(out@, tokens_from(s@, i as int)) == tokens_from(s@, start as int)) by {
        match tokens_from(s@, i as int) {
            Ok(tokens) => {
                assert(out@ + tokens =~= tokens);
            },
            Err(_) => {},
        }
    }
    while i < s.len()
        invariant
            start <= i,
            tokens_from(s@, start as int) == with_tokens(out@, tokens_from(s@, i as int)),
            tokens_within(out@, s@.len() as int),
        decreases s.len() - i,
    {
        let c: char = s[i];
        let ghost before = out@;
        if char_is_whitespace(c) {
            i += 1;
        } else if c == '"' {
            let close: usize = scan(s, i + 1, CharClass::Quoted);
            if close >= s.len() {
                return Err(i);
            }
            let t = Token { kind: TokenKind::Quoted, start: i + 1, end: close };
            out.push(t);
            proof {
                lemma_with_tokens_push(before, t, tokens_from(s@, close + 1));
            }
            i = close + 1;
        } else if char_is_operator(c) {
            let e: usize = scan(s, i, CharClass::Operator);
            let t = Token { kind: TokenKind::Operator, start: i, end: e };
            out.push(t);
            proof {
                lemma_run_end_advances(s@, i as int, CharClass::Operator);
                lemma_with_tokens_push(before, t, tokens_from(s@, e as int));
            }
            i = e;
        } else {
            let e: usize = scan(s, i, CharClass::Word);
            let t = Token { kind: TokenKind::Word, start: i, end: e };
            out.push(t);
            proof {
                lemma_run_end_advances(s@, i as int, CharClass::Word);
                lemma_with_tokens_push(before, t, tokens_from(s@, e as int));
            }
            i = e;
        }
    }
    assert(out@ + Seq::<Token>::empty() =~= out@);
    Ok(out)
}

/// Putting a token after those before it is the same as putting it before
/// those after it.
pub proof fn lemma_with_tokens_push(before: Seq<Token>, t: Token, rest: Result<Seq<Token>, int>)
    ensures
        with_tokens(before.push(t), rest) == with_tokens(before, with_token(t, rest)),
{
    match rest {
        Ok(tokens) => {
            assert(before.push(t) + tokens =~= before + (seq![t] + tokens));
        },
        Err(_) => {},
    }
}

/// Writes the tokens of the line `s` out as one command.
fn render_tokens(s: &Vec<char>, tokens: &Vec<Token>) -> (r: Vec<char>)
    requires
        tokens_within(tokens@, s@.len() as int),
    ensures
        r@ == render(s@, tokens@),
{
    let mut out: Vec<char> = Vec::new();
    let mut k: usize = 0;
    let ghost all = pieces(s@, tokens@);
    while k < tokens.len()
        invariant
            k <= tokens.len(),
            tokens_within(tokens@, s@.len() as int),
            all == pieces(s@, tokens@),
            out@ == join(all.take(k as int)),
        decreases tokens.len() - k,
    {
        let t: Token = tokens[k];
        let ghost before = out@;
        if k > 0 {
            out.push(' ');
        }
        let text = copy_range(s, t.start, t.end);
        match t.kind {
            TokenKind::Quoted => {
                out.push('"');
                append_chars(&mut out, &text);
                out.push('"');
            },
            TokenKind::Operator => {
                append_chars(&mut out, &text);
            },
            TokenKind::Word => {
                append_chars(&mut out, &text);
            },
        }
        proof {
            assert(all.take(k + 1).drop_last() =~= all.take(k as int));
            assert(all.take(k + 1).last() == piece(s@, t));
            if k == 0 {
                assert(out@ =~= piece(s@, t));
            } else {
                assert(out@ =~= before + seq![' '] + piece(s@, t));
            }
        }
        k += 1;
    }
    assert(all.take(all.len() as int) =~= all);
    out
}

/// Reads the command that stands in the line `s` from position `start` on,
/// and writes it out with single spaces between its tokens. Fails with the
/// position of the double quote that is left open.
pub fn parse_command(s: &Vec<char>, start: usize) -> (r: Result<String, usize>)
    ensures
        match r {
            Ok(command) => command_from(s@, start as int) == Ok::<Seq<char>, int>(command@),
            Err(at) => command_from(s@, start as int) == Err::<Seq<char>, int>(at as int) && at
                < s.len(),
        },
{
    match tokenize(s, start) {
        Ok(tokens) => {
            let text = render_tokens(s, &tokens);
            Ok(string_of(&text))
        },
        Err(at) => Err(at),
    }
}

/// Reads the arguments of a call, of which the first starts at `start`, up
/// to the parenthesis that closes them. Gives the arguments and the position
/// of the parenthesis, or `None` if no such list stands there.
pub fn parse_arguments(s: &Vec<char>, start: usize) -> (r: Option<(Vec<String>, usize)>)
    ensures
        match r {
            Some((args, close)) => arguments_from(s@, start as int) == Some(
                (strings_view(args@), close as int),
            ) && close < s.len(),
            None => arguments_from(s@, start as int) is None,
        },
{
    if start > s.len() {
        return None;
    }
    let mut out: Vec<String> = Vec::new();
    let mut i: usize = start;
    assert(with_arguments(strings_view(out@), arguments_from(s@, i as int)) == arguments_from(
        s@,
        start as int,
    )) by {
        match arguments_from(s@, i as int) {
            Some((arguments, close)) => {
                assert(strings_view(out@) + arguments =~= arguments);
            },
            None => {},
        }
    }
    loop
        invariant
            start <= i <= s.len(),
            arguments_from(s@, start as int) == with_arguments(
                strings_view(out@),
                arguments_from(s@, i as int),
            ),
        decreases s.len() - i,
    {
        let from: usize;
        let to: usize;
        let after: usize;
        if i < s.len() && s[i] == '"' {
            let close: usize = scan(s, i + 1, CharClass::Quoted);
            if close >= s.len() {
                return None;
            }
            from = i + 1;
            to = close;
            after = close + 1;
        } else {
            let e: usize = scan(s, i, CharClass::Bare);
            if e <= i {
                return None;
            }
            from = i;
            to = e;
            after = e;
        }
        assert(argument_at(s@, i as int) == Some((s@.subrange(from as int, to as int), after as int)));
        let j: usize = scan(s, after, CharClass::Whitespace);
        if j >= s.len() {
            return None;
        }
        let ghost before = out@;
        let value = string_of(&copy_range(s, from, to));
        if s[j] == ')' {
            out.push(value);
            assert(strings_view(out@) =~= strings_view(before) + seq![value@]);
            return Some((out, j));
        } else if s[j] == ',' {
            out.push(value);
            let next: usize = scan(s, j + 1, CharClass::Whitespace);
            proof {
                let rest = arguments_from(s@, next as int);
                match rest {
                    Some((arguments, close)) => {
                        assert(strings_view(out@) + arguments =~= strings_view(before) + (
                        seq![value@] + arguments));
                    },
                    None => {},
                }
            }
            i = next;
        } else {
            return None;
        }
    }
}

/// What a line of a script is.
#[derive(Debug, PartialEq, Eq)]
pub enum Line {
    /// Nothing: an empty line or a comment.
    Empty,
    /// An assignment, a definition with a command template, a call or a command.
    Statement(Statement),
    /// The line that opens the body of the function with this name.
    BlockStart(String),
    /// A line that holds only `}`.
    BlockEnd,
    /// No line of a script: the double quote at this position is left open.
    Invalid(usize),
}

impl View for Line {
    type V = LineView;

    open spec fn view(&self) -> LineView {
        match self {
            Line::Empty => LineView::Empty,
            Line::Statement(statement) => LineView::Statement(statement@),
            Line::BlockStart(name) => LineView::BlockStart(name@),
            Line::BlockEnd => LineView::BlockEnd,
            Line::Invalid(at) => LineView::Invalid(*at as int),
        }
    }
}

/// Reads a line that is neither empty, nor an assignment, a definition or a
/// call. `a` is the position of its first character.
fn parse_plain_line(s: &Vec<char>, a: usize) -> (r: Line)
    requires
        a < s.len(),
    ensures
        r@ == crate::grammar::plain_line(s@, a as int),
        r matches Line::Invalid(at) ==> at < s.len(),
{
    if s[a] == '}' && scan(s, a + 1, CharClass::Whitespace) >= s.len() {
        Line::BlockEnd
    } else {
        match parse_command(s, a) {
            Ok(command) => Line::Statement(Statement::Command { command }),
            Err(at) => Line::Invalid(at),
        }
    }
}

/// Reads a line that starts with a name and `(`. The name runs from `a` to
/// `n`, where the parenthesis stands.
fn parse_parenthesized_line(s: &Vec<char>, a: usize, n: usize) -> (r: Line)
    requires
        a < n < s.len(),
    ensures
        r@ == crate::grammar::parenthesized_line(s@, a as int, n as int),
        r matches Line::Invalid(at) ==> at < s.len(),
{
    let j: usize = scan(s, n + 1, CharClass::Whitespace);
    if j < s.len() && s[j] == ')' {
        let name = string_of(&copy_range(s, a, n));
        let r: usize = scan(s, j + 1, CharClass::Whitespace);
        if r >= s.len() {
            let args: Vec<String> = Vec::new();
            assert(strings_view(args@) =~= Seq::<Seq<char>>::empty());
            Line::Statement(Statement::FunctionCall { name, args })
        } else if s[r] == '{' && scan(s, r + 1, CharClass::Whitespace) >= s.len() {
            Line::BlockStart(name)
        } else {
            match parse_command(s, r) {
                Ok(command_template) => Line::Statement(
                    Statement::SimpleFunctionDef { name, command_template },
                ),
                Err(at) => Line::Invalid(at),
            }
        }
    } else {
        match parse_arguments(s, j) {
            Some((args, close)) => {
                if scan(s, close + 1, CharClass::Whitespace) >= s.len() {
                    let name = string_of(&copy_range(s, a, n));
                    Line::Statement(Statement::FunctionCall { name, args })
                } else {
                    parse_plain_line(s, a)
                }
            },
            None => parse_plain_line(s, a),
        }
    }
}

/// Tells what a line is, and reads the statement that it holds.
pub fn parse_statement(line: &Vec<char>) -> (r: Line)
    ensures
        r@ == classify(line@),
        r matches Line::Invalid(at) ==> at < line.len(),
{
    let a: usize = scan(line, 0, CharClass::Whitespace);
    if a >= line.len() {
        Line::Empty
    } else if line[a] == '#' {
        Line::Empty
    } else if char_is_identifier_start(line[a]) {
        let n: usize = scan(line, a, CharClass::Identifier);
        proof {
            lemma_run_end_advances(line@, a as int, CharClass::Identifier);
        }
        if n < line.len() && line[n] == '=' && !(n + 1 < line.len() && char_is_whitespace(
            line[n + 1],
        )) {
            let name = string_of(&copy_range(line, a, n));
            let value = string_of(&copy_range(line, n + 1, line.len()));
            Line::Statement(Statement::Assignment { name, value: Expression::String(value) })
        } else if n < line.len() && line[n] == '(' {
            parse_parenthesized_line(line, a, n)
        } else {
            parse_plain_line(line, a)
        }
    } else {
        parse_plain_line(line, a)
    }
}

/// A block that is being read: the name of its function, the line that
/// opened it, and its statements so far.
struct Block {
    name: String,
    line: usize,
    statements: Vec<Statement>,
}

impl Block {
    spec fn view(&self) -> BlockView {
        BlockView {
            name: self.name@,
            line: self.line as int,
            statements: statements_view(self.statements@),
        }
    }
}

/// The views of the blocks.
spec fn blocks_view(v: Seq<Block>) -> Seq<BlockView> {
    v.map_values(|b: Block| b@)
}

/// Adds a statement to the innermost of the open blocks.
fn push_statement(open: &mut Vec<Block>, statement: Statement)
    requires
        old(open).len() > 0,
    ensures
        blocks_view(final(open)@) == add_statement(blocks_view(old(open)@), statement@),
        final(open).len() == old(open).len(),
        forall|k: int| 0 <= k < final(open).len() ==> (#[trigger] final(open)@[k]).line == old(open)@[k].line,
{
    let ghost before = open@;
    let mut block = open.pop().unwrap();
    let ghost inner = block@;
    block.statements.push(statement);
    assert(statements_view(block.statements@) =~= inner.statements.push(statement@));
    open.push(block);
    assert(blocks_view(open@) =~= add_statement(blocks_view(before), statement@));
}

/// A parser over the logical lines of one source text.
pub struct ScriptParser {
    lines: Vec<Vec<char>>,
}

impl ScriptParser {
    /// The logical lines that the parser reads.
    pub closed spec fn lines(&self) -> Seq<Seq<char>> {
        lines_view(self.lines@)
    }

    /// A parser for the given source text: its continued lines are joined.
    pub fn new(input: &str) -> (r: ScriptParser)
        ensures
            r.lines() == logical_lines(input@),
    {
        ScriptParser { lines: logical_lines_of(input) }
    }

    /// Reads the statements of the script.
    pub fn parse(&self) -> (r: Result<Program, ParseError>)
        ensures
            match r {
                Ok(program) => parse_lines(self.lines()) == Ok::<Seq<StatementView>, ParseError>(
                    program@,
                ),
                Err(e) => parse_lines(self.lines()) == Err::<Seq<StatementView>, ParseError>(e),
            },
    {
        let ghost all = lines_view(self.lines@);
        let mut open: Vec<Block> = Vec::new();
        open.push(Block { name: String::new(), line: 0, statements: Vec::new() });
        assert(blocks_view(open@) =~= seq![script_block()]) by {
            assert(open@[0]@.statements =~= Seq::<StatementView>::empty());
        }
        let mut i: usize = 0;
        while i < self.lines.len()
            invariant
                i <= self.lines.len(),
                all == lines_view(self.lines@),
                open.len() >= 1,
                forall|k: int| 1 <= k < open.len() ==> (#[trigger] open@[k]).line < self.lines.len(),
                parse_lines(all) == statements_from(all, i as int, blocks_view(open@)),
            decreases self.lines.len() - i,
        {
            let ghost before = blocks_view(open@);
            assert(all[i as int] == self.lines@[i as int]@);
            match parse_statement(&self.lines[i]) {
                Line::Empty => {},
                Line::Statement(statement) => {
                    push_statement(&mut open, statement);
                },
                Line::BlockStart(name) => {
                    let block = Block { name, line: i, statements: Vec::new() };
                    assert(block@.statements =~= Seq::<StatementView>::empty());
                    open.push(block);
                    assert(blocks_view(open@) =~= before.push(block@));
                },
                Line::BlockEnd => {
                    if open.len() > 1 {
                        let block = open.pop().unwrap();
                        assert(blocks_view(open@) =~= before.drop_last());
                        let definition = Statement::FunctionDef {
                            name: block.name,
                            body: block.statements,
                        };
                        proof {
                            lemma_function_def_view(definition);
                        }
                        push_statement(&mut open, definition);
                    } else {
                        let mut brace: Vec<char> = Vec::new();
                        brace.push('}');
                        assert(brace@ =~= seq!['}']);
                        let command = string_of(&brace);
                        push_statement(&mut open, Statement::Command { command });
                    }
                },
                Line::Invalid(at) => {
                    return Err(
                        ParseError {
                            line: i + 1,
                            column: at + 1,
                            kind: ParseErrorKind::UnterminatedQuote,
                        },
                    );
                },
            }
            i += 1;
        }
        if open.len() == 1 {
            let block = open.pop().unwrap();
            Ok(Program { statements: block.statements })
        } else {
            let line: usize = open[open.len() - 1].line;
            Err(ParseError { line: line + 1, column: 1, kind: ParseErrorKind::UnclosedBlock })
        }
    }
}

/// Reads a script: joins the continued lines of `input`, then reads its
/// statements line by line. Fails at the first line that is no line of a
/// script.
pub fn parse_script(input: &str) -> (r: Result<Program, ParseError>)
    ensures
        match r {
            Ok(program) => parse(input@) == Ok::<Seq<StatementView>, ParseError>(program@),
            Err(e) => parse(input@) == Err::<Seq<StatementView>, ParseError>(e),
        },
{
    let parser = ScriptParser::new(input);
    parser.parse()
}

} // verus!
