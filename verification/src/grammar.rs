//! The grammar of the language, as functions on sequences of characters.
//!
//! A script is read line by line, from its logical lines. Each line is, in
//! this order of precedence:
//!
//! 1. empty, or a comment: its first character that is no white space is `#`;
//! 2. an assignment `name=value`, with no white space on either side of `=`;
//! 3. a line `name() {`, which opens the body of a function; the body runs up
//!    to the next line that holds only `}` and closes this block;
//! 4. a definition `name() command`, of a function with one command template;
//! 5. a call `name(argument, ...)` that fills the line;
//! 6. a command for the shell.
//!
//! A name is an identifier: an ASCII letter or `_`, then ASCII letters,
//! digits, `_` and `:`. White space at the start of a line does not count.
//!
//! A command and a command template are read as tokens: strings in double
//! quotes, which hold no double quote; operators, which are runs of the
//! characters `|`, `&`, `;`, `<` and `>`; and words, which are runs of all
//! other characters but white space. A variable such as `$1` or `$name` is
//! part of the word in which it stands. The tokens are written out again
//! with one space between each two: a string in its quotes, an operator and
//! a word as they are. So `a|b` comes out as `a | b`.
//!
//! Two things make a source text no script: a command in which a double
//! quote is left open, and a body that no line closes.

use vstd::prelude::*;
use crate::ast::StatementView;
use crate::error::{ParseError, ParseErrorKind};
use crate::text::{
    is_identifier_start,
    is_operator_char,
    is_whitespace,
    lemma_run_end,
    lemma_run_end_advances,
    join,
    run_end,
    CharClass,
};

verus! {

/// The kinds of token in a command.
#[derive(Debug, Clone, Copy, PartialEq, Eq)]
pub enum TokenKind {
    /// A string between two double quotes.
    Quoted,
    /// A run of operator characters.
    Operator,
    /// A run of other characters.
    Word,
}

/// A token of a command: its kind, and where its text stands in the line.
/// The text of a quoted string is what stands between the quotes.
#[derive(Debug, Clone, Copy, PartialEq, Eq)]
pub struct Token {
    pub kind: TokenKind,
    pub start: usize,
    pub end: usize,
}

/// `rest` with the token `t` before it.
pub open spec fn with_token(t: Token, rest: Result<Seq<Token>, int>) -> Result<Seq<Token>, int> {
    match rest {
        Ok(tokens) => Ok(seq![t] + tokens),
        Err(at) => Err(at),
    }
}

/// The tokens of `s` from position `i` on, or the position of the double
/// quote that is left open.
pub open spec fn tokens_from(s: Seq<char>, i: int) -> Result<Seq<Token>, int>
    decreases s.len() - i,
{
    if i < 0 || i >= s.len() {
        Ok(Seq::empty())
    } else if is_whitespace(s[i]) {
        tokens_from(s, i + 1)
    } else if s[i] == '"' {
        let close = run_end(s, i + 1, CharClass::Quoted);
        if close >= s.len() {
            Err(i)
        } else {
            proof {
                lemma_run_end(s, i + 1, CharClass::Quoted);
            }
            with_token(
                Token { kind: TokenKind::Quoted, start: (i + 1) as usize, end: close as usize },
                tokens_from(s, close + 1),
            )
        }
    } else if is_operator_char(s[i]) {
        let e = run_end(s, i, CharClass::Operator);
        proof {
            lemma_run_end_advances(s, i, CharClass::Operator);
        }
        with_token(
            Token { kind: TokenKind::Operator, start: i as usize, end: e as usize },
            tokens_from(s, e),
        )
    } else {
        let e = run_end(s, i, CharClass::Word);
        proof {
            lemma_run_end_advances(s, i, CharClass::Word);
        }
        with_token(
            Token { kind: TokenKind::Word, start: i as usize, end: e as usize },
            tokens_from(s, e),
        )
    }
}

/// How a token is written out: a quoted string between double quotes, an
/// operator and a word as they are.
pub open spec fn piece(s: Seq<char>, t: Token) -> Seq<char> {
    let text = s.subrange(t.start as int, t.end as int);
    match t.kind {
        TokenKind::Quoted => seq!['"'] + text + seq!['"'],
        TokenKind::Operator => text,
        TokenKind::Word => text,
    }
}

/// The tokens as they are written out, one by one.
pub open spec fn pieces(s: Seq<char>, tokens: Seq<Token>) -> Seq<Seq<char>> {
    tokens.map_values(|t: Token| piece(s, t))
}

/// The command that the tokens make: the tokens written out, with one space
/// between each two.
pub open spec fn render(s: Seq<char>, tokens: Seq<Token>) -> Seq<char> {
    join(pieces(s, tokens))
}

/// The argument that starts at `i`, and the position after it. An argument
/// is a string in double quotes, which stands for what is between the quotes,
/// or a run of characters other than white space, `,`, `(`, `)` and `"`.
pub open spec fn argument_at(s: Seq<char>, i: int) -> Option<(Seq<char>, int)> {
    if 0 <= i < s.len() && s[i] == '"' {
        let close = run_end(s, i + 1, CharClass::Quoted);
        if close < s.len() {
            Some((s.subrange(i + 1, close), close + 1))
        } else {
            None
        }
    } else {
        let e = run_end(s, i, CharClass::Bare);
        if i < e {
            Some((s.subrange(i, e), e))
        } else {
            None
        }
    }
}

/// `found` with the arguments `before` in front of its own.
pub open spec fn with_arguments(
    before: Seq<Seq<char>>,
    found: Option<(Seq<Seq<char>>, int)>,
) -> Option<(Seq<Seq<char>>, int)> {
    match found {
        Some((arguments, close)) => Some((before + arguments, close)),
        None => None,
    }
}

/// The arguments, separated by commas, of which the first starts at `i`, and
/// the position of the parenthesis that closes the list; `None` if what
/// stands there is no such list.
pub open spec fn arguments_from(s: Seq<char>, i: int) -> Option<(Seq<Seq<char>>, int)>
    decreases s.len() - i,
{
    match argument_at(s, i) {
        None => None,
        Some((value, after)) => {
            let j = run_end(s, after, CharClass::Whitespace);
            if i < after <= j < s.len() {
                if s[j] == ')' {
                    Some((seq![value], j))
                } else if s[j] == ',' {
                    proof {
                        lemma_run_end(s, j + 1, CharClass::Whitespace);
                    }
                    with_arguments(
                        seq![value],
                        arguments_from(s, run_end(s, j + 1, CharClass::Whitespace)),
                    )
                } else {
                    None
                }
            } else {
                None
            }
        },
    }
}

/// What a line is.
pub enum LineView {
    /// Nothing: an empty line or a comment.
    Empty,
    /// An assignment, a definition with a command template, a call or a command.
    Statement(StatementView),
    /// The line that opens the body of the function with this name.
    BlockStart(Seq<char>),
    /// A line that holds only `}`.
    BlockEnd,
    /// No line of a script: the double quote at this position is left open.
    Invalid(int),
}

/// The command that the tokens of `s` from `i` on make.
pub open spec fn command_from(s: Seq<char>, i: int) -> Result<Seq<char>, int> {
    match tokens_from(s, i) {
        Ok(tokens) => Ok(render(s, tokens)),
        Err(at) => Err(at),
    }
}

/// A line that is neither empty, nor an assignment, a definition or a call:
/// `}` alone, or a command. `a` is the position of its first character.
pub open spec fn plain_line(s: Seq<char>, a: int) -> LineView {
    if s[a] == '}' && run_end(s, a + 1, CharClass::Whitespace) >= s.len() {
        LineView::BlockEnd
    } else {
        match command_from(s, a) {
            Ok(command) => LineView::Statement(StatementView::Command { command }),
            Err(at) => LineView::Invalid(at),
        }
    }
}

/// A line that starts with a name and `(`. The name runs from `a` to `n`,
/// where the parenthesis stands.
pub open spec fn parenthesized_line(s: Seq<char>, a: int, n: int) -> LineView {
    let name = s.subrange(a, n);
    let j = run_end(s, n + 1, CharClass::Whitespace);
    if j < s.len() && s[j] == ')' {
        let r = run_end(s, j + 1, CharClass::Whitespace);
        if r >= s.len() {
            LineView::Statement(StatementView::FunctionCall { name, args: Seq::empty() })
        } else if s[r] == '{' && run_end(s, r + 1, CharClass::Whitespace) >= s.len() {
            LineView::BlockStart(name)
        } else {
            match command_from(s, r) {
                Ok(command_template) => LineView::Statement(
                    StatementView::SimpleFunctionDef { name, command_template },
                ),
                Err(at) => LineView::Invalid(at),
            }
        }
    } else {
        match arguments_from(s, j) {
            Some((args, close)) => if run_end(s, close + 1, CharClass::Whitespace) >= s.len() {
                LineView::Statement(StatementView::FunctionCall { name, args })
            } else {
                plain_line(s, a)
            },
            None => plain_line(s, a),
        }
    }
}

/// Whether the line `s` holds nothing but white space, or is a comment: its
/// first character that is no white space is `#`.
pub open spec fn is_blank_or_comment(s: Seq<char>) -> bool {
    let a = run_end(s, 0, CharClass::Whitespace);
    a >= s.len() || s[a] == '#'
}

/// What the line `s` is.
pub open spec fn classify(s: Seq<char>) -> LineView {
    let a = run_end(s, 0, CharClass::Whitespace);
    if is_blank_or_comment(s) {
        LineView::Empty
    } else if is_identifier_start(s[a]) {
        let n = run_end(s, a, CharClass::Identifier);
        if n < s.len() && s[n] == '=' && !(n + 1 < s.len() && is_whitespace(s[n + 1])) {
            LineView::Statement(
                StatementView::Assignment {
                    name: s.subrange(a, n),
                    value: s.subrange(n + 1, s.len() as int),
                },
            )
        } else if n < s.len() && s[n] == '(' {
            parenthesized_line(s, a, n)
        } else {
            plain_line(s, a)
        }
    } else {
        plain_line(s, a)
    }
}

/// A block that is being read: the name of its function, the line that
/// opened it, and its statements so far. The outermost block is the script
/// itself, which has no name.
pub struct BlockView {
    pub name: Seq<char>,
    pub line: int,
    pub statements: Seq<StatementView>,
}

/// The blocks with `statement` added to the innermost.
pub open spec fn add_statement(open: Seq<BlockView>, statement: StatementView) -> Seq<BlockView> {
    open.drop_last().push(
        BlockView {
            name: open.last().name,
            line: open.last().line,
            statements: open.last().statements.push(statement),
        },
    )
}

/// The script as it is left open before any line is read.
pub open spec fn script_block() -> BlockView {
    BlockView { name: Seq::empty(), line: 0, statements: Seq::empty() }
}

/// The statements of a script whose lines before `i` have left the blocks
/// `open` open, the outermost first.
///
/// `}` closes the innermost body and makes it a function definition, a
/// statement of the block around it. Where no body is open, `}` is a command.
/// The first line that is no line of a script ends the reading; so does the
/// end of the lines while a body is open, which is reported at the line that
/// opened the innermost one.
pub open spec fn statements_from(lines: Seq<Seq<char>>, i: int, open: Seq<BlockView>) -> Result<
    Seq<StatementView>,
    ParseError,
>
    decreases lines.len() - i,
{
    if i < 0 || i >= lines.len() {
        if open.len() == 1 {
            Ok(open[0].statements)
        } else {
            Err(
                ParseError {
                    line: (open.last().line + 1) as usize,
                    column: 1,
                    kind: ParseErrorKind::UnclosedBlock,
                },
            )
        }
    } else {
        match classify(lines[i]) {
            LineView::Empty => statements_from(lines, i + 1, open),
            LineView::Statement(statement) => statements_from(
                lines,
                i + 1,
                add_statement(open, statement),
            ),
            LineView::BlockStart(name) => statements_from(
                lines,
                i + 1,
                open.push(BlockView { name, line: i, statements: Seq::empty() }),
            ),
            LineView::BlockEnd => if open.len() > 1 {
                statements_from(
                    lines,
                    i + 1,
                    add_statement(
                        open.drop_last(),
                        StatementView::FunctionDef {
                            name: open.last().name,
                            body: open.last().statements,
                        },
                    ),
                )
            } else {
                statements_from(
                    lines,
                    i + 1,
                    add_statement(open, StatementView::Command { command: seq!['}'] }),
                )
            },
            LineView::Invalid(at) => Err(
                ParseError {
                    line: (i + 1) as usize,
                    column: (at + 1) as usize,
                    kind: ParseErrorKind::UnterminatedQuote,
                },
            ),
        }
    }
}

/// The statements that the logical lines `lines` make.
pub open spec fn parse_lines(lines: Seq<Seq<char>>) -> Result<Seq<StatementView>, ParseError> {
    statements_from(lines, 0, seq![script_block()])
}

} // verus!
