//! The strategies by which the name at a call site is matched to the
//! definition of a simple function.
//!
//! Each strategy gives, for a name and the arguments of a call, the template
//! to fill in and the arguments to fill it with, or nothing. The strategies
//! are tried in a fixed order and the first that gives a template decides.
//!
//! For a call written as separate words, as on a command line:
//!
//! 1. the name as it is, with all arguments;
//! 2. the name, `:` and the first argument, with the arguments after the first;
//! 3. the name with each `_` turned into `:`, if that changes it, with all
//!    arguments.
//!
//! For a call with its arguments in parentheses:
//!
//! 1. the name as it is;
//! 2. the name with each space turned into `:`, if that changes it;
//! 3. what stands before the first space of the name, `:`, and what stands
//!    between the first space and the second;
//!
//! each with all arguments.

use vstd::prelude::*;
use vstd::hash_map::StringHashMap;
use crate::ast::strings_view;
use crate::text::{append_chars, chars_of, copy_range, run_end, scan, string_of, CharClass};

verus! {

/// The templates of the simple functions, by name.
pub type Templates = Map<Seq<char>, Seq<char>>;

/// The views of the templates in a table.
pub open spec fn templates_view(m: Map<Seq<char>, String>) -> Templates {
    m.map_values(|t: String| t@)
}

/// What a strategy finds: a template, and the arguments to fill it with.
#[derive(Debug, Clone, PartialEq, Eq)]
pub struct Candidate {
    pub template: String,
    pub args: Vec<String>,
}

/// The view of a [`Candidate`].
pub struct CandidateView {
    pub template: Seq<char>,
    pub args: Seq<Seq<char>>,
}

impl View for Candidate {
    type V = CandidateView;

    open spec fn view(&self) -> CandidateView {
        CandidateView { template: self.template@, args: strings_view(self.args@) }
    }
}

/// The view of what a strategy gives.
pub open spec fn found_view(found: Option<Candidate>) -> Option<CandidateView> {
    match found {
        Some(candidate) => Some(candidate@),
        None => None,
    }
}

/// The template defined under `name`, with the given arguments.
pub open spec fn lookup(table: Templates, name: Seq<char>, args: Seq<Seq<char>>) -> Option<
    CandidateView,
> {
    if table.contains_key(name) {
        Some(CandidateView { template: table[name], args })
    } else {
        None
    }
}

/// `s` with each `from` turned into `to`.
pub open spec fn replace_char(s: Seq<char>, from: char, to: char) -> Seq<char> {
    Seq::new(
        s.len(),
        |i: int|
            if s[i] == from {
                to
            } else {
                s[i]
            },
    )
}

/// The name made of the first two words of `name`, with `:` between them, if
/// `name` holds a space. Words are what single spaces separate.
pub open spec fn leading_pair(name: Seq<char>) -> Option<Seq<char>> {
    let p = run_end(name, 0, CharClass::Unspaced);
    if p < name.len() {
        let q = run_end(name, p + 1, CharClass::Unspaced);
        Some(name.subrange(0, p) + seq![':'] + name.subrange(p + 1, q))
    } else {
        None
    }
}

/// Direct match: the name as it is, with all arguments.
pub open spec fn direct_candidate(table: Templates, name: Seq<char>, args: Seq<Seq<char>>) -> Option<
    CandidateView,
> {
    lookup(table, name, args)
}

/// Subcommand promotion: the name, `:` and the first argument, with the
/// arguments after the first.
pub open spec fn promoted_candidate(table: Templates, name: Seq<char>, args: Seq<Seq<char>>) -> Option<
    CandidateView,
> {
    if args.len() > 0 {
        lookup(table, name + seq![':'] + args[0], args.skip(1))
    } else {
        None
    }
}

/// Normalization: the name with each `from` turned into `:`, if that changes
/// it, with all arguments.
pub open spec fn normalized_candidate(
    table: Templates,
    name: Seq<char>,
    args: Seq<Seq<char>>,
    from: char,
) -> Option<CandidateView> {
    if replace_char(name, from, ':') != name {
        lookup(table, replace_char(name, from, ':'), args)
    } else {
        None
    }
}

/// The first two words of the name with `:` between them, with all arguments.
pub open spec fn pair_candidate(table: Templates, name: Seq<char>, args: Seq<Seq<char>>) -> Option<
    CandidateView,
> {
    match leading_pair(name) {
        Some(pair) => lookup(table, pair, args),
        None => None,
    }
}

/// `first` if it gives something, else `second`.
pub open spec fn or_else(first: Option<CandidateView>, second: Option<CandidateView>) -> Option<
    CandidateView,
> {
    if first is Some {
        first
    } else {
        second
    }
}

/// What the strategies for a call written as separate words find.
pub open spec fn match_without_parens(table: Templates, name: Seq<char>, args: Seq<Seq<char>>) -> Option<
    CandidateView,
> {
    or_else(
        direct_candidate(table, name, args),
        or_else(
            promoted_candidate(table, name, args),
            normalized_candidate(table, name, args, '_'),
        ),
    )
}

/// What the strategies for a call with its arguments in parentheses find.
pub open spec fn match_with_args(table: Templates, name: Seq<char>, args: Seq<Seq<char>>) -> Option<
    CandidateView,
> {
    or_else(
        direct_candidate(table, name, args),
        or_else(
            normalized_candidate(table, name, args, ' '),
            pair_candidate(table, name, args),
        ),
    )
}

/// Looks `name` up in the table, and copies the template found and the
/// arguments from position `from` on.
fn find(table: &StringHashMap<String>, name: &str, args: &[String], from: usize) -> (r: Option<
    Candidate,
>)
    requires
        from <= args.len(),
    ensures
        found_view(r) == lookup(templates_view(table@), name@, strings_view(args@).skip(from as int)),
{
    match table.get(name) {
        Some(template) => {
            let mut rest: Vec<String> = Vec::new();
            let mut i: usize = from;
            while i < args.len()
                invariant
                    from <= i <= args.len(),
                    rest.len() == i - from,
                    forall|j: int| 0 <= j < rest.len() ==> rest@[j]@ == args@[from + j]@,
                decreases args.len() - i,
            {
                rest.push(args[i].clone());
                i += 1;
            }
            assert(strings_view(rest@) =~= strings_view(args@).skip(from as int));
            Some(Candidate { template: template.clone(), args: rest })
        },
        None => None,
    }
}

/// Turns each `from` in `s` into `to`, and tells whether that changed anything.
pub fn replace_chars(s: &Vec<char>, from: char, to: char) -> (r: (Vec<char>, bool))
    ensures
        r.0@ == replace_char(s@, from, to),
        r.1 == (r.0@ != s@),
{
    let mut out: Vec<char> = Vec::new();
    let mut changed: bool = false;
    let mut i: usize = 0;
    assert(out@ =~= s@.take(0));
    assert(out@ =~= replace_char(s@, from, to).take(0));
    while i < s.len()
        invariant
            i <= s.len(),
            out@ == replace_char(s@, from, to).take(i as int),
            changed == (out@ != s@.take(i as int)),
        decreases s.len() - i,
    {
        let c: char = s[i];
        let ghost before = out@;
        if c == from {
            out.push(to);
            if from != to {
                changed = true;
            }
        } else {
            out.push(c);
        }
        proof {
            let all = replace_char(s@, from, to);
            assert(out@ =~= all.take(i + 1));
            assert(before =~= out@.take(i as int));
            assert(s@.take(i as int) =~= s@.take(i + 1).take(i as int));
            if before != s@.take(i as int) {
                assert(out@ != s@.take(i + 1));
            } else if out@[i as int] == s@[i as int] {
                assert(out@ =~= s@.take(i + 1));
            } else {
                assert(out@[i as int] != s@.take(i + 1)[i as int]);
            }
        }
        i += 1;
    }
    assert(replace_char(s@, from, to).take(s@.len() as int) =~= replace_char(s@, from, to));
    assert(s@.take(s@.len() as int) =~= s@);
    (out, changed)
}

/// Direct match: looks the name up as it is.
pub fn direct_match(table: &StringHashMap<String>, name: &str, args: &[String]) -> (r: Option<
    Candidate,
>)
    ensures
        found_view(r) == direct_candidate(templates_view(table@), name@, strings_view(args@)),
{
    assert(strings_view(args@).skip(0) =~= strings_view(args@));
    find(table, name, args, 0)
}

/// Subcommand promotion: looks up the name, `:` and the first argument.
pub fn subcommand_promotion(table: &StringHashMap<String>, name: &str, args: &[String]) -> (r:
    Option<Candidate>)
    ensures
        found_view(r) == promoted_candidate(templates_view(table@), name@, strings_view(args@)),
{
    if args.len() > 0 {
        let mut nested: Vec<char> = chars_of(name);
        nested.push(':');
        let first = chars_of(args[0].as_str());
        append_chars(&mut nested, &first);
        assert(nested@ =~= name@ + seq![':'] + strings_view(args@)[0]);
        let nested_name = string_of(&nested);
        find(table, nested_name.as_str(), args, 1)
    } else {
        None
    }
}

/// Normalization: looks up the name with each `from` turned into `:`, if
/// that changes the name.
pub fn normalization(table: &StringHashMap<String>, name: &str, args: &[String], from: char) -> (r:
    Option<Candidate>)
    ensures
        found_view(r) == normalized_candidate(
            templates_view(table@),
            name@,
            strings_view(args@),
            from,
        ),
{
    let chars = chars_of(name);
    let (with_colons, changed) = replace_chars(&chars, from, ':');
    if changed {
        let normalized = string_of(&with_colons);
        assert(strings_view(args@).skip(0) =~= strings_view(args@));
        find(table, normalized.as_str(), args, 0)
    } else {
        None
    }
}

/// Looks up the first two words of the name with `:` between them.
pub fn pair_promotion(table: &StringHashMap<String>, name: &str, args: &[String]) -> (r: Option<
    Candidate,
>)
    ensures
        found_view(r) == pair_candidate(templates_view(table@), name@, strings_view(args@)),
{
    let chars = chars_of(name);
    let p: usize = scan(&chars, 0, CharClass::Unspaced);
    if p < chars.len() {
        let q: usize = scan(&chars, p + 1, CharClass::Unspaced);
        let mut pair: Vec<char> = copy_range(&chars, 0, p);
        pair.push(':');
        let second = copy_range(&chars, p + 1, q);
        append_chars(&mut pair, &second);
        assert(pair@ =~= name@.subrange(0, p as int) + seq![':'] + name@.subrange(
            p + 1,
            q as int,
        ));
        let pair_name = string_of(&pair);
        assert(strings_view(args@).skip(0) =~= strings_view(args@));
        find(table, pair_name.as_str(), args, 0)
    } else {
        None
    }
}

/// Tries the strategies for a call written as separate words, in their order.
pub fn find_without_parens(table: &StringHashMap<String>, name: &str, args: &[String]) -> (r:
    Option<Candidate>)
    ensures
        found_view(r) == match_without_parens(templates_view(table@), name@, strings_view(args@)),
{
    match direct_match(table, name, args) {
        Some(candidate) => Some(candidate),
        None => match subcommand_promotion(table, name, args) {
            Some(candidate) => Some(candidate),
            None => normalization(table, name, args, '_'),
        },
    }
}

/// Tries the strategies for a call with its arguments in parentheses, in
/// their order.
pub fn find_with_args(table: &StringHashMap<String>, name: &str, args: &[String]) -> (r: Option<
    Candidate,
>)
    ensures
        found_view(r) == match_with_args(templates_view(table@), name@, strings_view(args@)),
{
    match direct_match(table, name, args) {
        Some(candidate) => Some(candidate),
        None => match normalization(table, name, args, ' ') {
            Some(candidate) => Some(candidate),
            None => pair_promotion(table, name, args),
        },
    }
}

} // verus!
