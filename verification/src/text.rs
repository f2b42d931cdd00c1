//! Character classes and basic operations on character sequences.
//!
//! Strings are handled as sequences of `char`. Positions are indices into
//! such a sequence, never byte offsets.

use vstd::prelude::*;

verus! {

/// `String::push` of the standard library, taken on trust: after the call
/// the string holds the characters that it held before, and then `c`.
pub assume_specification[ std::string::String::push ](s: &mut std::string::String, c: char)
    ensures
        final(s)@ == old(s)@.push(c),
;

/// The characters with the Unicode property `White_Space`.
pub open spec fn is_whitespace(c: char) -> bool {
    let n = c as u32;
    ||| 0x09 <= n <= 0x0D
    ||| n == 0x20
    ||| n == 0x85
    ||| n == 0xA0
    ||| n == 0x1680
    ||| 0x2000 <= n <= 0x200A
    ||| n == 0x2028
    ||| n == 0x2029
    ||| n == 0x202F
    ||| n == 0x205F
    ||| n == 0x3000
}

/// The first character of an identifier: an ASCII letter or `_`.
pub open spec fn is_identifier_start(c: char) -> bool {
    let n = c as u32;
    ||| 0x41 <= n <= 0x5A
    ||| 0x61 <= n <= 0x7A
    ||| c == '_'
}

/// A character of an identifier: an ASCII letter or digit, `_` or `:`.
pub open spec fn is_identifier_char(c: char) -> bool {
    let n = c as u32;
    ||| is_identifier_start(c)
    ||| 0x30 <= n <= 0x39
    ||| c == ':'
}

/// A character of a shell operator such as `|`, `&&`, `;` or `>>`.
pub open spec fn is_operator_char(c: char) -> bool {
    c == '|' || c == '&' || c == ';' || c == '<' || c == '>'
}

/// The sets of characters that the scanner tells apart.
#[derive(Clone, Copy, Debug, PartialEq, Eq)]
pub enum CharClass {
    /// White space.
    Whitespace,
    /// The characters of an identifier.
    Identifier,
    /// The characters of an operator.
    Operator,
    /// The characters of a bare word: neither white space, nor `"`, nor of an operator.
    Word,
    /// The characters of an unquoted argument: neither white space nor one of `,` `(` `)` `"`.
    Bare,
    /// What may stand between two double quotes: anything but `"`.
    Quoted,
    /// What may stand in a line: anything but a line feed.
    Line,
    /// Anything but a space.
    Unspaced,
}

impl CharClass {
    /// Whether `c` belongs to the class.
    pub open spec fn has(self, c: char) -> bool {
        match self {
            CharClass::Whitespace => is_whitespace(c),
            CharClass::Identifier => is_identifier_char(c),
            CharClass::Operator => is_operator_char(c),
            CharClass::Word => !is_whitespace(c) && c != '"' && !is_operator_char(c),
            CharClass::Bare => !is_whitespace(c) && c != ',' && c != '(' && c != ')' && c != '"',
            CharClass::Quoted => c != '"',
            CharClass::Line => c != '\n',
            CharClass::Unspaced => c != ' ',
        }
    }

    /// Tells whether `c` belongs to the class.
    pub fn contains(&self, c: char) -> (r: bool)
        ensures
            r == self.has(c),
    {
        match self {
            CharClass::Whitespace => char_is_whitespace(c),
            CharClass::Identifier => char_is_identifier(c),
            CharClass::Operator => char_is_operator(c),
            CharClass::Word => !char_is_whitespace(c) && c != '"' && !char_is_operator(c),
            CharClass::Bare => !char_is_whitespace(c) && c != ',' && c != '(' && c != ')' && c
                != '"',
            CharClass::Quoted => c != '"',
            CharClass::Line => c != '\n',
            CharClass::Unspaced => c != ' ',
        }
    }
}

/// Tells whether `c` is a white-space character.
pub fn char_is_whitespace(c: char) -> (r: bool)
    ensures
        r == is_whitespace(c),
{
    let n: u32 = c as u32;
    (0x09 <= n && n <= 0x0D) || n == 0x20 || n == 0x85 || n == 0xA0 || n == 0x1680 || (0x2000 <= n
        && n <= 0x200A) || n == 0x2028 || n == 0x2029 || n == 0x202F || n == 0x205F || n == 0x3000
}

/// Tells whether `c` can start an identifier.
pub fn char_is_identifier_start(c: char) -> (r: bool)
    ensures
        r == is_identifier_start(c),
{
    let n: u32 = c as u32;
    (0x41 <= n && n <= 0x5A) || (0x61 <= n && n <= 0x7A) || c == '_'
}

/// Tells whether `c` can stand in an identifier.
pub fn char_is_identifier(c: char) -> (r: bool)
    ensures
        r == is_identifier_char(c),
{
    let n: u32 = c as u32;
    char_is_identifier_start(c) || (0x30 <= n && n <= 0x39) || c == ':'
}

/// Tells whether `c` is a character of an operator.
pub fn char_is_operator(c: char) -> (r: bool)
    ensures
        r == is_operator_char(c),
{
    c == '|' || c == '&' || c == ';' || c == '<' || c == '>'
}

/// Where the run of characters of `class` that starts at `i` ends: the first
/// position from `i` on whose character is not in the class, or the length of
/// `s` if there is none.
pub open spec fn run_end(s: Seq<char>, i: int, class: CharClass) -> int
    decreases s.len() - i,
{
    if 0 <= i < s.len() && class.has(s[i]) {
        run_end(s, i + 1, class)
    } else {
        i
    }
}

/// A run lies inside the sequence, holds only characters of its class, and
/// cannot be extended.
pub proof fn lemma_run_end(s: Seq<char>, i: int, class: CharClass)
    requires
        0 <= i <= s.len(),
    ensures
        i <= run_end(s, i, class) <= s.len(),
        forall|j: int| i <= j < run_end(s, i, class) ==> class.has(#[trigger] s[j]),
        run_end(s, i, class) < s.len() ==> !class.has(s[run_end(s, i, class)]),
    decreases s.len() - i,
{
    if i < s.len() && class.has(s[i]) {
        lemma_run_end(s, i + 1, class);
    }
}

/// A run that starts on a character of its class is not empty.
pub proof fn lemma_run_end_advances(s: Seq<char>, i: int, class: CharClass)
    requires
        0 <= i < s.len(),
        class.has(s[i]),
    ensures
        i < run_end(s, i, class) <= s.len(),
{
    lemma_run_end(s, i + 1, class);
}

/// A run is known by its end: the position up to which all characters are in
/// the class and at which the next one is not.
pub proof fn lemma_run_end_unique(s: Seq<char>, i: int, e: int, class: CharClass)
    requires
        0 <= i <= e <= s.len(),
        forall|j: int| i <= j < e ==> class.has(#[trigger] s[j]),
        e < s.len() ==> !class.has(s[e]),
    ensures
        run_end(s, i, class) == e,
    decreases e - i,
{
    if i < e {
        lemma_run_end_unique(s, i + 1, e, class);
    }
}

/// Finds the end of the run of characters of `class` that starts at `i`.
pub fn scan(s: &Vec<char>, i: usize, class: CharClass) -> (e: usize)
    ensures
        e == run_end(s@, i as int, class),
        i <= e,
        i <= s.len() ==> e <= s.len(),
{
    if i > s.len() {
        return i;
    }
    let mut e: usize = i;
    while e < s.len() && class.contains(s[e])
        invariant
            i <= e <= s.len(),
            forall|j: int| i <= j < e ==> class.has(#[trigger] s@[j]),
        decreases s.len() - e,
    {
        e += 1;
    }
    proof {
        lemma_run_end_unique(s@, i as int, e as int, class);
    }
    e
}

/// `s` without the white space at its end.
pub open spec fn trim_end(s: Seq<char>) -> Seq<char>
    decreases s.len(),
{
    if s.len() > 0 && is_whitespace(s.last()) {
        trim_end(s.drop_last())
    } else {
        s
    }
}

/// `s` without the white space at its start.
pub open spec fn trim_start(s: Seq<char>) -> Seq<char>
    decreases s.len(),
{
    if s.len() > 0 && is_whitespace(s.first()) {
        trim_start(s.drop_first())
    } else {
        s
    }
}

/// `s` without the white space at both ends.
pub open spec fn trim(s: Seq<char>) -> Seq<char> {
    trim_start(trim_end(s))
}

/// What trimming at the end leaves: a prefix that does not end in white
/// space, after which only white space follows.
pub proof fn lemma_trim_end(s: Seq<char>)
    ensures
        trim_end(s).len() <= s.len(),
        trim_end(s) == s.take(trim_end(s).len() as int),
        trim_end(s).len() > 0 ==> !is_whitespace(s[trim_end(s).len() - 1]),
        forall|j: int| trim_end(s).len() <= j < s.len() ==> is_whitespace(#[trigger] s[j]),
    decreases s.len(),
{
    if s.len() > 0 && is_whitespace(s.last()) {
        let d = s.drop_last();
        lemma_trim_end(d);
        assert(d.take(trim_end(d).len() as int) =~= s.take(trim_end(d).len() as int));
        assert forall|j: int| trim_end(s).len() <= j < s.len() implies is_whitespace(
            #[trigger] s[j],
        ) by {
            if j < d.len() {
                assert(d[j] == s[j]);
            }
        }
    } else {
        assert(s.take(s.len() as int) =~= s);
    }
}

/// The characters of `s` from `from` up to `to`, as a vector of their own.
pub(crate) fn copy_range(s: &Vec<char>, from: usize, to: usize) -> (r: Vec<char>)
    requires
        from <= to <= s.len(),
    ensures
        r@ == s@.subrange(from as int, to as int),
{
    let mut out: Vec<char> = Vec::new();
    let mut i: usize = from;
    while i < to
        invariant
            from <= i <= to <= s.len(),
            out@ == s@.subrange(from as int, i as int),
        decreases to - i,
    {
        out.push(s[i]);
        assert(s@.subrange(from as int, i as int).push(s@[i as int]) =~= s@.subrange(
            from as int,
            i + 1,
        ));
        i += 1;
    }
    out
}

/// Appends the characters of `tail` to `out`.
pub fn append_chars(out: &mut Vec<char>, tail: &Vec<char>)
    ensures
        final(out)@ == old(out)@ + tail@,
{
    let mut i: usize = 0;
    while i < tail.len()
        invariant
            i <= tail.len(),
            out@ == old(out)@ + tail@.take(i as int),
        decreases tail.len() - i,
    {
        out.push(tail[i]);
        assert(tail@.take(i as int).push(tail@[i as int]) =~= tail@.take(i + 1));
        assert(out@ =~= old(out)@ + tail@.take(i + 1));
        i += 1;
    }
    assert(tail@.take(tail@.len() as int) =~= tail@);
}

/// The length of `s` once the white space at its end is left out.
pub fn trimmed_length(s: &Vec<char>) -> (n: usize)
    ensures
        n <= s.len(),
        trim_end(s@) == s@.take(n as int),
{
    let mut n: usize = s.len();
    assert(s@.take(n as int) =~= s@);
    while n > 0 && char_is_whitespace(s[n - 1])
        invariant
            n <= s.len(),
            trim_end(s@) == trim_end(s@.take(n as int)),
        decreases n,
    {
        assert(s@.take(n as int).drop_last() =~= s@.take(n - 1));
        n -= 1;
    }
    n
}

/// Where `s` starts once the white space at its start is left out.
pub fn trimmed_start(s: &Vec<char>) -> (k: usize)
    ensures
        k <= s.len(),
        trim_start(s@) == s@.skip(k as int),
{
    let mut k: usize = 0;
    assert(s@.skip(0) =~= s@);
    while k < s.len() && char_is_whitespace(s[k])
        invariant
            k <= s.len(),
            trim_start(s@) == trim_start(s@.skip(k as int)),
        decreases s.len() - k,
    {
        assert(s@.skip(k as int).drop_first() =~= s@.skip(k + 1));
        k += 1;
    }
    k
}

/// Removes the white space at the end of `s`.
pub fn trimmed_end(s: &Vec<char>) -> (r: Vec<char>)
    ensures
        r@ == trim_end(s@),
{
    let n: usize = trimmed_length(s);
    copy_range(s, 0, n)
}

/// The view of a string that may be missing.
pub open spec fn optional_view(s: Option<String>) -> Option<Seq<char>> {
    match s {
        Some(text) => Some(text@),
        None => None,
    }
}

/// The characters of a string slice.
pub fn chars_of(s: &str) -> (r: Vec<char>)
    ensures
        r@ == s@,
{
    let mut out: Vec<char> = Vec::new();
    for c in it: s.chars()
        invariant
            out@ == it.seq().take(it.index() as int),
            it.seq() == s@,
    {
        out.push(c);
        assert(it.seq().take(it.index() as int).push(c) =~= it.seq().take(it.index() + 1));
    }
    assert(s@.take(s@.len() as int) =~= s@);
    out
}

/// The string made of the given characters.
pub fn string_of(v: &Vec<char>) -> (r: String)
    ensures
        r@ == v@,
{
    let mut out = String::new();
    let mut i: usize = 0;
    while i < v.len()
        invariant
            i <= v.len(),
            out@ == v@.take(i as int),
        decreases v.len() - i,
    {
        out.push(v[i]);
        assert(v@.take(i as int).push(v@[i as int]) =~= v@.take(i + 1));
        i += 1;
    }
    assert(v@.take(v@.len() as int) =~= v@);
    out
}

/// The texts with one space between each two.
pub open spec fn join(texts: Seq<Seq<char>>) -> Seq<char>
    decreases texts.len(),
{
    if texts.len() == 0 {
        Seq::empty()
    } else if texts.len() == 1 {
        texts[0]
    } else {
        join(texts.drop_last()) + seq![' '] + texts.last()
    }
}

/// Whether `pattern` stands in `s` at position `i`.
pub open spec fn matches_at(s: Seq<char>, i: int, pattern: Seq<char>) -> bool {
    0 <= i && i + pattern.len() <= s.len() && s.subrange(i, i + pattern.len()) == pattern
}

/// Whether `pattern` stands somewhere in `s`.
pub open spec fn occurs(s: Seq<char>, pattern: Seq<char>) -> bool {
    exists|i: int| matches_at(s, i, pattern)
}

/// `s` from position `i` on, with each place where `pattern` stands taken by
/// `with`. The places are found from left to right and do not overlap. An
/// empty pattern stands nowhere.
pub open spec fn replace_from(s: Seq<char>, i: int, pattern: Seq<char>, with: Seq<char>) -> Seq<
    char,
>
    decreases s.len() - i,
{
    if i < 0 || i >= s.len() {
        Seq::empty()
    } else if pattern.len() > 0 && matches_at(s, i, pattern) {
        with + replace_from(s, i + pattern.len(), pattern, with)
    } else {
        seq![s[i]] + replace_from(s, i + 1, pattern, with)
    }
}

/// `s` with each place where `pattern` stands taken by `with`.
pub open spec fn replace_all(s: Seq<char>, pattern: Seq<char>, with: Seq<char>) -> Seq<char> {
    replace_from(s, 0, pattern, with)
}

/// Where the pattern does not stand, nothing is replaced.
pub proof fn lemma_replace_without_match(
    s: Seq<char>,
    i: int,
    pattern: Seq<char>,
    with: Seq<char>,
)
    requires
        0 <= i <= s.len(),
        forall|j: int| i <= j ==> !matches_at(s, j, pattern),
    ensures
        replace_from(s, i, pattern, with) == s.subrange(i, s.len() as int),
    decreases s.len() - i,
{
    if i < s.len() {
        lemma_replace_without_match(s, i + 1, pattern, with);
        assert(seq![s[i]] + s.subrange(i + 1, s.len() as int) =~= s.subrange(i, s.len() as int));
    } else {
        assert(s.subrange(i, s.len() as int) =~= Seq::<char>::empty());
    }
}

/// Tells whether `pattern` stands in `s` at position `i`.
pub fn starts_at(s: &Vec<char>, i: usize, pattern: &Vec<char>) -> (r: bool)
    ensures
        r == matches_at(s@, i as int, pattern@),
{
    if i > s.len() || pattern.len() > s.len() - i {
        return false;
    }
    let mut k: usize = 0;
    while k < pattern.len()
        invariant
            k <= pattern.len(),
            i + pattern.len() <= s.len(),
            forall|j: int| 0 <= j < k ==> s@[i + j] == pattern@[j],
        decreases pattern.len() - k,
    {
        if s[i + k] != pattern[k] {
            assert(s@.subrange(i as int, i + pattern.len())[k as int] != pattern@[k as int]);
            return false;
        }
        k += 1;
    }
    assert(s@.subrange(i as int, i + pattern.len()) =~= pattern@);
    true
}

/// Tells whether `pattern` stands somewhere in `s`.
pub fn contains_chars(s: &Vec<char>, pattern: &Vec<char>) -> (r: bool)
    ensures
        r == occurs(s@, pattern@),
{
    let mut i: usize = 0;
    while i < s.len()
        invariant
            i <= s.len(),
            forall|j: int| 0 <= j < i ==> !matches_at(s@, j, pattern@),
        decreases s.len() - i,
    {
        if starts_at(s, i, pattern) {
            return true;
        }
        i += 1;
    }
    starts_at(s, i, pattern)
}

/// Replaces each place where `pattern` stands in `s` by `with`.
pub fn replace_all_chars(s: &Vec<char>, pattern: &Vec<char>, with: &Vec<char>) -> (r: Vec<char>)
    ensures
        r@ == replace_all(s@, pattern@, with@),
{
    let mut out: Vec<char> = Vec::new();
    let mut i: usize = 0;
    assert(out@ + replace_from(s@, 0, pattern@, with@) =~= replace_all(s@, pattern@, with@));
    while i < s.len()
        invariant
            i <= s.len(),
            replace_all(s@, pattern@, with@) == out@ + replace_from(
                s@,
                i as int,
                pattern@,
                with@,
            ),
        decreases s.len() - i,
    {
        let ghost before = out@;
        if pattern.len() > 0 && starts_at(s, i, pattern) {
            append_chars(&mut out, with);
            assert(out@ + replace_from(s@, i + pattern.len(), pattern@, with@) =~= before
                + replace_from(s@, i as int, pattern@, with@));
            i += pattern.len();
        } else {
            out.push(s[i]);
            assert(out@ + replace_from(s@, i + 1, pattern@, with@) =~= before + replace_from(
                s@,
                i as int,
                pattern@,
                with@,
            ));
            i += 1;
        }
    }
    assert(out@ + replace_from(s@, i as int, pattern@, with@) =~= out@);
    out
}

/// The decimal digit for `d`, a number below ten.
pub open spec fn digit(d: int) -> char {
    ((0x30 + d) as u8) as char
}

/// `n` in decimal digits.
pub open spec fn decimal(n: nat) -> Seq<char>
    decreases n,
{
    if n < 10 {
        seq![digit(n as int)]
    } else {
        decimal(n / 10).push(digit((n % 10) as int))
    }
}

/// Writes `n` in decimal digits.
pub fn decimal_of(n: usize) -> (r: Vec<char>)
    ensures
        r@ == decimal(n as nat),
    decreases n,
{
    if n < 10 {
        let mut out: Vec<char> = Vec::new();
        out.push((0x30u8 + (n as u8)) as char);
        assert(out@ =~= seq![digit(n as int)]);
        out
    } else {
        let mut out = decimal_of(n / 10);
        out.push((0x30u8 + ((n % 10) as u8)) as char);
        out
    }
}

/// The first position from `from` on at which `pattern` stands in `s`, if
/// there is one.
pub open spec fn first_occurrence(s: Seq<char>, pattern: Seq<char>, from: int) -> Option<int>
    decreases s.len() - from,
{
    if from < 0 || from + pattern.len() > s.len() {
        None
    } else if matches_at(s, from, pattern) {
        Some(from)
    } else if from < s.len() {
        first_occurrence(s, pattern, from + 1)
    } else {
        None
    }
}

/// Finds the first position from `from` on at which `pattern` stands in `s`.
pub fn find_chars(s: &Vec<char>, pattern: &Vec<char>, from: usize) -> (r: Option<usize>)
    ensures
        match r {
            Some(at) => first_occurrence(s@, pattern@, from as int) == Some(at as int) && from
                <= at && at + pattern.len() <= s.len(),
            None => first_occurrence(s@, pattern@, from as int) is None,
        },
{
    let mut i: usize = from;
    while i < s.len()
        invariant
            from <= i,
            first_occurrence(s@, pattern@, from as int) == first_occurrence(
                s@,
                pattern@,
                i as int,
            ),
        decreases s.len() - i,
    {
        if starts_at(s, i, pattern) {
            return Some(i);
        }
        i += 1;
    }
    if starts_at(s, i, pattern) {
        Some(i)
    } else {
        None
    }
}

/// Whether `c` is a decimal digit.
pub open spec fn is_digit(c: char) -> bool {
    0x30 <= c as u32 <= 0x39
}

/// The number that the digit `c` stands for.
pub open spec fn digit_value(c: char) -> nat {
    if is_digit(c) {
        (c as u32 - 0x30) as nat
    } else {
        0
    }
}

/// The number that the decimal digits `s` write.
pub open spec fn digits_value(s: Seq<char>) -> nat
    decreases s.len(),
{
    if s.len() == 0 {
        0
    } else {
        digits_value(s.drop_last()) * 10 + digit_value(s.last())
    }
}

/// Whether `s` holds decimal digits only.
pub open spec fn all_digits(s: Seq<char>) -> bool {
    forall|i: int| 0 <= i < s.len() ==> is_digit(#[trigger] s[i])
}

/// The number that `s` reads as, if it reads as one that a `usize` holds:
/// one decimal digit or more, with or without a `+` before them.
pub open spec fn number_read(s: Seq<char>) -> Option<nat> {
    let digits = if s.len() > 0 && s[0] == '+' {
        s.drop_first()
    } else {
        s
    };
    if digits.len() > 0 && all_digits(digits) && digits_value(digits) <= usize::MAX {
        Some(digits_value(digits))
    } else {
        None
    }
}

/// The digits at the start of a number write no more than all of its digits.
pub proof fn lemma_digits_value_grows(s: Seq<char>, k: int)
    requires
        0 <= k <= s.len(),
    ensures
        digits_value(s.take(k)) <= digits_value(s),
    decreases s.len() - k,
{
    if k < s.len() {
        lemma_digits_value_grows(s.drop_last(), k);
        assert(s.drop_last().take(k) =~= s.take(k));
    } else {
        assert(s.take(k) =~= s);
    }
}

/// Reads `s` as a number.
pub fn read_number(s: &Vec<char>) -> (r: Option<usize>)
    ensures
        match r {
            Some(n) => number_read(s@) == Some(n as nat),
            None => number_read(s@) is None,
        },
{
    let start: usize = if s.len() > 0 && s[0] == '+' {
        1
    } else {
        0
    };
    let ghost digits = if s@.len() > 0 && s@[0] == '+' {
        s@.drop_first()
    } else {
        s@
    };
    assert(digits =~= s@.subrange(start as int, s@.len() as int));
    if start == s.len() {
        return None;
    }
    let mut value: usize = 0;
    let mut k: usize = start;
    assert(digits.take(0) =~= Seq::<char>::empty());
    while k < s.len()
        invariant
            start <= k <= s.len(),
            start < s.len(),
            digits == s@.subrange(start as int, s@.len() as int),
            digits == if s@.len() > 0 && s@[0] == '+' {
                s@.drop_first()
            } else {
                s@
            },
            all_digits(digits.take(k - start)),
            value == digits_value(digits.take(k - start)),
        decreases s.len() - k,
    {
        let c: char = s[k];
        let n: u32 = c as u32;
        let ghost seen = digits.take(k - start);
        let ghost more = digits.take(k - start + 1);
        assert(digits[k - start] == c);
        assert(more.drop_last() =~= seen);
        assert(more.last() == c);
        if n < 0x30 || n > 0x39 {
            assert(!is_digit(digits[k - start]));
            return None;
        }
        let d: usize = (n - 0x30) as usize;
        assert(digit_value(c) == d);
        assert(digits_value(more) == value * 10 + d);
        if value > (usize::MAX - d) / 10 {
            proof {
                lemma_digits_value_grows(digits, k - start + 1);
            }
            assert(digits_value(digits) > usize::MAX);
            return None;
        }
        value = value * 10 + d;
        assert forall|i: int| 0 <= i < more.len() implies is_digit(#[trigger] more[i]) by {
            if i < seen.len() {
                assert(more[i] == seen[i]);
            }
        }
        k += 1;
    }
    assert(digits.take(digits.len() as int) =~= digits);
    Some(value)
}

} // verus!
