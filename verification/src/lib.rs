//! A small scripting language for command-line automation.
//!
//! A script defines variables and functions and runs commands:
//!
//! ```text
//! # a comment
//! app_name=myapp
//! greet() echo "Hello, $1!"
//! docker:shell() docker compose exec $1 bash
//! release() {
//!     greet($app_name)
//!     cargo build --release
//! }
//! greet(World)
//! ```
//!
//! The library has two halves. The parser turns source text into statements:
//! [`parser::parse_script`]. The interpreter keeps the variables and the
//! functions, fills in command templates, and finds the function that a call
//! means: [`interpreter::Interpreter`]. It starts no process. It works in
//! steps and hands each command line that is due to its caller, who runs it
//! in a shell and asks for the next step:
//!
//! ```text
//! interpreter.execute(program);
//! loop {
//!     match interpreter.step()? {
//!         Action::Finished => break,
//!         Action::Proceed => {}
//!         Action::Run(command) => run_in_shell(&command),
//!     }
//! }
//! ```
//!
//! Every function states what it computes over a mathematical model: strings
//! are sequences of characters, and each type has a view. [`grammar`] holds
//! the grammar of the language, [`template`] the rules of substitution,
//! [`resolve`] the strategies that match a name to a definition, and [`laws`]
//! what holds of them on all inputs.

pub mod ast;
pub mod completion;
pub mod error;
pub mod grammar;
pub mod interpreter;
pub mod laws;
pub mod parser;
pub mod preprocess;
pub mod resolve;
pub mod shell;
pub mod template;
pub mod text;
