//! The pattern compiler: translates a glob-like pattern into a fully
//! anchored regular expression and compiles it with the `regex` crate.
//!
//! The translation itself is verified character by character; only the
//! compilation and matching calls into the `regex` crate are trusted.

use vstd::prelude::*;
use vstd::string::*;
use crate::strutil::push_char;

verus! {

/// Whether `c` is a regex metacharacter that the translation escapes
/// outside bracket expressions.
pub open spec fn is_escaped_meta(c: char) -> bool {
    c == '.' || c == '+' || c == '(' || c == ')' || c == '|' || c == '^' || c == '$' || c == '@'
        || c == '%'
}

/// What one pattern character becomes, given the bracket state.
pub open spec fn glob_step(c: char, in_brackets: bool) -> Seq<char> {
    if c == '*' {
        if in_brackets {
            seq!['*']
        } else {
            seq!['.', '*']
        }
    } else if c == '?' {
        if in_brackets {
            seq!['?']
        } else {
            seq!['.']
        }
    } else if is_escaped_meta(c) {
        if in_brackets {
            seq![c]
        } else {
            seq!['\\', c]
        }
    } else {
        seq![c]
    }
}

/// The bracket state after one pattern character.
pub open spec fn next_state(c: char, in_brackets: bool) -> bool {
    if c == '[' {
        true
    } else if c == ']' {
        false
    } else {
        in_brackets
    }
}

/// The body of the translated expression for `s`, starting in bracket
/// state `in_brackets`.
pub open spec fn glob_body(s: Seq<char>, in_brackets: bool) -> Seq<char>
    decreases s.len(),
{
    if s.len() == 0 {
        Seq::empty()
    } else {
        glob_step(s.first(), in_brackets) + glob_body(s.drop_first(), next_state(
            s.first(),
            in_brackets,
        ))
    }
}

/// The bracket state after the whole of `s`, starting in `in_brackets`.
pub open spec fn bracket_state(s: Seq<char>, in_brackets: bool) -> bool
    decreases s.len(),
{
    if s.len() == 0 {
        in_brackets
    } else {
        bracket_state(s.drop_first(), next_state(s.first(), in_brackets))
    }
}

/// The full translation: the body anchored at both ends.
pub open spec fn glob_regex(s: Seq<char>) -> Seq<char> {
    seq!['^'] + glob_body(s, false) + seq!['$']
}

proof fn lemma_glob_snoc(s: Seq<char>, in_brackets: bool, c: char)
    ensures
        glob_body(s.push(c), in_brackets) == glob_body(s, in_brackets) + glob_step(
            c,
            bracket_state(s, in_brackets),
        ),
        bracket_state(s.push(c), in_brackets) == next_state(c, bracket_state(s, in_brackets)),
    decreases s.len(),
{
    let t = s.push(c);
    if s.len() == 0 {
        assert(t.first() == c);
        assert(t.drop_first() =~= Seq::<char>::empty());
        assert(glob_body(t, in_brackets) == glob_step(c, in_brackets) + glob_body(
            Seq::<char>::empty(),
            next_state(c, in_brackets),
        ));
        assert(glob_body(Seq::<char>::empty(), next_state(c, in_brackets))
            == Seq::<char>::empty());
        assert(glob_body(s, in_brackets) == Seq::<char>::empty());
        assert(bracket_state(s, in_brackets) == in_brackets);
        assert(glob_body(t, in_brackets) =~= glob_body(s, in_brackets) + glob_step(
            c,
            bracket_state(s, in_brackets),
        ));
        assert(bracket_state(t, in_brackets) == bracket_state(
            Seq::<char>::empty(),
            next_state(c, in_brackets),
        ));
    } else {
        let ns = next_state(s.first(), in_brackets);
        assert(t.first() == s.first());
        assert(t.drop_first() =~= s.drop_first().push(c));
        lemma_glob_snoc(s.drop_first(), ns, c);
        assert(glob_body(t, in_brackets) == glob_step(s.first(), in_brackets) + glob_body(
            t.drop_first(),
            ns,
        ));
        assert(glob_body(t.drop_first(), ns) == glob_body(s.drop_first(), ns) + glob_step(
            c,
            bracket_state(s.drop_first(), ns),
        ));
        assert(bracket_state(s, in_brackets) == bracket_state(s.drop_first(), ns));
        assert(glob_body(s, in_brackets) == glob_step(s.first(), in_brackets) + glob_body(
            s.drop_first(),
            ns,
        ));
        assert(glob_body(t, in_brackets) =~= glob_body(s, in_brackets) + glob_step(
            c,
            bracket_state(s, in_brackets),
        ));
        assert(bracket_state(t, in_brackets) == bracket_state(t.drop_first(), ns));
    }
}

proof fn lemma_glob_body_concat(a: Seq<char>, b: Seq<char>, st: bool)
    ensures
        glob_body(a + b, st) == glob_body(a, st) + glob_body(b, bracket_state(a, st)),
        bracket_state(a + b, st) == bracket_state(b, bracket_state(a, st)),
    decreases a.len(),
{
    if a.len() == 0 {
        assert(a + b =~= b);
        assert(glob_body(a, st) == Seq::<char>::empty());
        assert(glob_body(a + b, st) =~= glob_body(a, st) + glob_body(b, bracket_state(a, st)));
    } else {
        let ns = next_state(a.first(), st);
        assert((a + b).first() == a.first());
        assert((a + b).drop_first() =~= a.drop_first() + b);
        lemma_glob_body_concat(a.drop_first(), b, ns);
        assert(glob_body(a + b, st) == glob_step(a.first(), st) + glob_body(
            a.drop_first() + b,
            ns,
        ));
        assert(glob_body(a + b, st) =~= glob_body(a, st) + glob_body(b, bracket_state(a, st)));
        assert(bracket_state(a + b, st) == bracket_state((a + b).drop_first(), ns));
    }
}

/// The positional translation law: each pattern character contributes
/// exactly its own step, decided by the bracket state reached at its
/// position — `*` and `?` become wildcards outside a bracket expression
/// and stay literal inside one, a metacharacter gains a backslash
/// outside and stays unescaped inside, `[` and `]` pass through and
/// toggle the state, and every other character passes through
/// unchanged.
pub proof fn lemma_glob_translation_at(s: Seq<char>, i: int)
    requires
        0 <= i < s.len(),
    ensures
        glob_body(s, false) == glob_body(s.take(i), false) + glob_step(
            s[i],
            bracket_state(s.take(i), false),
        ) + glob_body(s.skip(i + 1), bracket_state(s.take(i + 1), false)),
{
    let one = seq![s[i]];
    assert(s =~= s.take(i) + (one + s.skip(i + 1)));
    lemma_glob_body_concat(s.take(i), one + s.skip(i + 1), false);
    let st = bracket_state(s.take(i), false);
    lemma_glob_body_concat(one, s.skip(i + 1), st);
    let ns = next_state(s[i], st);
    assert(one.first() == s[i]);
    assert(one.drop_first() =~= Seq::<char>::empty());
    assert(glob_body(Seq::<char>::empty(), ns) == Seq::<char>::empty());
    assert(glob_body(one, st) == glob_step(s[i], st) + glob_body(Seq::<char>::empty(), ns));
    assert(glob_body(one, st) =~= glob_step(s[i], st));
    assert(bracket_state(Seq::<char>::empty(), ns) == ns);
    assert(bracket_state(one, st) == next_state(s[i], st));
    lemma_glob_snoc(s.take(i), false, s[i]);
    assert(s.take(i).push(s[i]) =~= s.take(i + 1));
    assert(bracket_state(s.take(i + 1), false) == next_state(s[i], st));
}

/// The compiled pattern is anchored at both ends: the translated
/// expression always begins with `^` and ends with `$`, whatever the
/// input pattern, so a match must cover the whole string.
pub proof fn lemma_glob_regex_anchored(s: Seq<char>)
    ensures
        glob_regex(s).len() >= 2,
        glob_regex(s).first() == '^',
        glob_regex(s).last() == '$',
{
}

/// Translates a glob pattern into an anchored regular expression.
///
/// `*` and `?` become wildcards outside bracket expressions and stay
/// literal inside them; `[` and `]` pass through and toggle the bracket
/// state; metacharacters are escaped outside brackets; everything else
/// passes through unchanged. The result is anchored with `^` and `$`.
pub fn glob_to_regex(pattern: &str) -> (r: String)
    ensures
        r@ == glob_regex(pattern@),
{
    let n = pattern.unicode_len();
    let mut out = String::new();
    push_char(&mut out, '^');
    let mut in_brackets = false;
    let mut i: usize = 0;
    while i < n
        invariant
            n == pattern@.len(),
            i <= n,
            out@ == seq!['^'] + glob_body(pattern@.take(i as int), false),
            in_brackets == bracket_state(pattern@.take(i as int), false),
        decreases n - i,
    {
        let c = pattern.get_char(i);
        proof {
            lemma_glob_snoc(pattern@.take(i as int), false, c);
            assert(pattern@.take(i as int).push(c) =~= pattern@.take(i as int + 1));
        }
        if c == '*' {
            if !in_brackets {
                push_char(&mut out, '.');
                push_char(&mut out, '*');
            } else {
                push_char(&mut out, '*');
            }
        } else if c == '?' {
            if !in_brackets {
                push_char(&mut out, '.');
            } else {
                push_char(&mut out, '?');
            }
        } else if c == '[' {
            in_brackets = true;
            push_char(&mut out, '[');
        } else if c == ']' {
            in_brackets = false;
            push_char(&mut out, ']');
        } else if c == '.' || c == '+' || c == '(' || c == ')' || c == '|' || c == '^' || c == '$'
            || c == '@' || c == '%' {
            if !in_brackets {
                push_char(&mut out, '\\');
            }
            push_char(&mut out, c);
        } else {
            push_char(&mut out, c);
        }
        proof {
            assert(out@ =~= seq!['^'] + glob_body(pattern@.take(i as int + 1), false));
        }
        i += 1;
    }
    proof {
        assert(pattern@.take(n as int) =~= pattern@);
    }
    push_char(&mut out, '$');
    proof {
        assert(out@ =~= glob_regex(pattern@));
    }
    out
}

#[verifier::external_type_specification]
#[verifier::external_body]
pub struct ExRegex(regex::Regex);

/// The source expression a compiled `regex::Regex` was built from.
pub uninterp spec fn regex_source(re: regex::Regex) -> Seq<char>;

/// Whether the regular expression with source `pattern` matches anywhere
/// in `text`; matching is a function of the two strings alone.
pub uninterp spec fn regex_match(pattern: Seq<char>, text: Seq<char>) -> bool;

/// Whether the regex crate's default compiler accepts a source
/// expression; with the default builder, acceptance is a function of
/// the source alone.
pub uninterp spec fn regex_compiles(src: Seq<char>) -> bool;

/// Relies on regex::Regex::new: compiles the source expression, or
/// reports an error for an invalid or oversized expression; under the
/// default builder, which way it goes depends on the source alone.
#[verifier::external_body]
fn regex_new(pattern: &str) -> (r: Result<regex::Regex, String>)
    ensures
        r is Ok <==> regex_compiles(pattern@),
        r matches Ok(re) ==> regex_source(re) == pattern@,
{
    match regex::Regex::new(pattern) {
        Ok(re) => Ok(re),
        Err(e) => Err(e.to_string()),
    }
}

/// Relies on regex::Regex::is_match: true exactly when the expression
/// matches somewhere in the haystack; deterministic in the source
/// expression and the haystack.
#[verifier::external_body]
fn regex_is_match(re: &regex::Regex, text: &str) -> (r: bool)
    ensures
        r == regex_match(regex_source(*re), text@),
{
    re.is_match(text)
}

/// The user's pattern failed to compile as a regular expression.
#[derive(Debug)]
pub struct PatternError {
    pub message: String,
}

/// A compiled, anchored pattern, shared read-only by the traversal.
pub struct Pattern {
    re: regex::Regex,
}

impl View for Pattern {
    type V = Seq<char>;

    closed spec fn view(&self) -> Seq<char> {
        regex_source(self.re)
    }
}

impl Pattern {
    /// Translates the glob pattern and compiles it. Compilation
    /// succeeds exactly when the regex crate accepts the anchored
    /// translation, and the compiled pattern's source is then that
    /// translation.
    pub fn compile(glob: &str) -> (r: Result<Pattern, PatternError>)
        ensures
            r is Ok <==> regex_compiles(glob_regex(glob@)),
            r matches Ok(p) ==> p@ == glob_regex(glob@),
    {
        let source = glob_to_regex(glob);
        match regex_new(source.as_str()) {
            Ok(re) => Ok(Pattern { re }),
            Err(message) => Err(PatternError { message }),
        }
    }

    /// Whether this pattern matches `text`.
    pub fn is_match(&self, text: &str) -> (r: bool)
        ensures
            r == regex_match(self@, text@),
    {
        regex_is_match(&self.re, text)
    }
}

} // verus!
