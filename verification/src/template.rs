//! Command templates and the substitution of their placeholders.
//!
//! A template holds three kinds of placeholder: `$1`, `$2`, ... for the
//! arguments of a call, `$@` for all of them, and `$name` for a variable.
//! They are replaced in this order, each by plain replacement of text: first
//! `$1`, then `$2`, up to the number of arguments, then `$@`, then the
//! variables in the order in which they were first assigned. A placeholder
//! for an argument that the call does not give stays as it is.

use vstd::prelude::*;
use crate::ast::strings_view;
use crate::text::{
    append_chars,
    chars_of,
    decimal,
    decimal_of,
    join,
    replace_all,
    replace_all_chars,
    string_of,
};

verus! {

/// The variables of an interpreter: names and values, in the order in which
/// the names were first assigned.
pub type Variables = Seq<(Seq<char>, Seq<char>)>;

/// The views of a vector of variables.
pub open spec fn variables_view(v: Seq<(String, String)>) -> Variables {
    v.map_values(|p: (String, String)| (p.0@, p.1@))
}

/// The placeholder for the argument with the given number, counted from 1.
pub open spec fn positional_placeholder(number: nat) -> Seq<char> {
    seq!['$'] + decimal(number)
}

/// The placeholder for all arguments.
pub open spec fn all_placeholder() -> Seq<char> {
    seq!['$', '@']
}

/// The placeholder for the variable with the given name.
pub open spec fn named_placeholder(name: Seq<char>) -> Seq<char> {
    seq!['$'] + name
}

/// The template with the placeholders of the first `n` arguments replaced,
/// one after the other.
pub open spec fn positional(template: Seq<char>, args: Seq<Seq<char>>, n: nat) -> Seq<char>
    decreases n,
{
    if n == 0 {
        template
    } else {
        replace_all(
            positional(template, args, (n - 1) as nat),
            positional_placeholder(n),
            args[n - 1],
        )
    }
}

/// The text with the placeholders of the first `n` variables replaced, one
/// after the other.
pub open spec fn named(text: Seq<char>, variables: Variables, n: nat) -> Seq<char>
    decreases n,
{
    if n == 0 {
        text
    } else {
        replace_all(
            named(text, variables, (n - 1) as nat),
            named_placeholder(variables[n - 1].0),
            variables[n - 1].1,
        )
    }
}

/// The command that a template makes with the given arguments and variables.
pub open spec fn substitute(template: Seq<char>, args: Seq<Seq<char>>, variables: Variables) -> Seq<
    char,
> {
    named(
        replace_all(positional(template, args, args.len()), all_placeholder(), join(args)),
        variables,
        variables.len(),
    )
}

/// Joins the arguments with one space between each two.
pub fn join_arguments(args: &[String]) -> (r: Vec<char>)
    ensures
        r@ == join(strings_view(args@)),
{
    let mut out: Vec<char> = Vec::new();
    let mut k: usize = 0;
    let ghost all = strings_view(args@);
    while k < args.len()
        invariant
            k <= args.len(),
            all == strings_view(args@),
            out@ == join(all.take(k as int)),
        decreases args.len() - k,
    {
        if k > 0 {
            out.push(' ');
        }
        let arg = chars_of(args[k].as_str());
        append_chars(&mut out, &arg);
        proof {
            assert(all.take(k + 1).drop_last() =~= all.take(k as int));
            assert(all.take(k + 1).last() == arg@);
            if k == 0 {
                assert(out@ =~= arg@);
            }
        }
        k += 1;
    }
    assert(all.take(all.len() as int) =~= all);
    out
}

/// Fills a template in: replaces the placeholders of the arguments, the
/// placeholder of all arguments, and the placeholders of the variables.
pub fn substitute_args(template: &str, args: &[String], variables: &Vec<(String, String)>) -> (r:
    String)
    ensures
        r@ == substitute(template@, strings_view(args@), variables_view(variables@)),
{
    let ghost a = strings_view(args@);
    let ghost v = variables_view(variables@);
    let mut result: Vec<char> = chars_of(template);
    let mut i: usize = 0;
    while i < args.len()
        invariant
            i <= args.len(),
            a == strings_view(args@),
            result@ == positional(template@, a, i as nat),
        decreases args.len() - i,
    {
        let mut placeholder: Vec<char> = Vec::new();
        placeholder.push('$');
        let number = decimal_of(i + 1);
        append_chars(&mut placeholder, &number);
        assert(placeholder@ =~= positional_placeholder((i + 1) as nat));
        let arg = chars_of(args[i].as_str());
        assert(arg@ == a[i as int]);
        result = replace_all_chars(&result, &placeholder, &arg);
        i += 1;
    }
    let mut all: Vec<char> = Vec::new();
    all.push('$');
    all.push('@');
    assert(all@ =~= all_placeholder());
    let joined = join_arguments(args);
    result = replace_all_chars(&result, &all, &joined);
    let ghost filled = result@;
    let mut k: usize = 0;
    while k < variables.len()
        invariant
            k <= variables.len(),
            v == variables_view(variables@),
            result@ == named(filled, v, k as nat),
        decreases variables.len() - k,
    {
        let mut placeholder: Vec<char> = Vec::new();
        placeholder.push('$');
        let name = chars_of(variables[k].0.as_str());
        append_chars(&mut placeholder, &name);
        assert(placeholder@ =~= named_placeholder(v[k as int].0));
        let value = chars_of(variables[k].1.as_str());
        assert(value@ == v[k as int].1);
        result = replace_all_chars(&result, &placeholder, &value);
        k += 1;
    }
    string_of(&result)
}

} // verus!
