//! Small string helpers shared by the rest of the crate: appending a
//! character, decimal rendering of integers, string equality, the
//! file-name component of a path, and path joining.

use vstd::prelude::*;
use vstd::string::*;

verus! {

/// Relies on String::push: appends exactly one character at the end.
#[verifier::external_body]
pub fn push_char(s: &mut String, c: char)
    ensures
        final(s)@ == old(s)@.push(c),
{
    s.push(c);
}

/// The decimal digit character for a value below ten.
pub open spec fn digit(d: int) -> char {
    if d == 0 {
        '0'
    } else if d == 1 {
        '1'
    } else if d == 2 {
        '2'
    } else if d == 3 {
        '3'
    } else if d == 4 {
        '4'
    } else if d == 5 {
        '5'
    } else if d == 6 {
        '6'
    } else if d == 7 {
        '7'
    } else if d == 8 {
        '8'
    } else {
        '9'
    }
}

/// The usual decimal rendering of a non-negative integer, most
/// significant digit first, with no leading zeros.
pub open spec fn dec_of(n: int) -> Seq<char>
    decreases n,
{
    if n < 10 {
        seq![digit(n)]
    } else {
        dec_of(n / 10).push(digit(n % 10))
    }
}

fn digit_char(d: u64) -> (c: char)
    requires
        d < 10,
    ensures
        c == digit(d as int),
{
    if d == 0 {
        '0'
    } else if d == 1 {
        '1'
    } else if d == 2 {
        '2'
    } else if d == 3 {
        '3'
    } else if d == 4 {
        '4'
    } else if d == 5 {
        '5'
    } else if d == 6 {
        '6'
    } else if d == 7 {
        '7'
    } else if d == 8 {
        '8'
    } else {
        '9'
    }
}

/// Appends the decimal rendering of `n` to `out`.
pub fn push_dec(n: u64, out: &mut String)
    ensures
        final(out)@ == old(out)@ + dec_of(n as int),
    decreases n,
{
    if n < 10 {
        push_char(out, digit_char(n));
    } else {
        push_dec(n / 10, out);
        push_char(out, digit_char(n % 10));
    }
    assert(final(out)@ =~= old(out)@ + dec_of(n as int));
}

/// Character-for-character string equality.
pub fn str_equal(a: &str, b: &str) -> (r: bool)
    ensures
        r == (a@ == b@),
{
    let na = a.unicode_len();
    let nb = b.unicode_len();
    if na != nb {
        return false;
    }
    let mut i: usize = 0;
    while i < na
        invariant
            na == a@.len(),
            nb == b@.len(),
            na == nb,
            i <= na,
            forall|j: int| 0 <= j < i ==> a@[j] == b@[j],
        decreases na - i,
    {
        if a.get_char(i) != b.get_char(i) {
            return false;
        }
        i += 1;
    }
    proof {
        assert(a@ =~= b@);
    }
    true
}

/// The file-name component of a path: everything after the last `/`,
/// or the whole path when it has no `/`.
pub open spec fn file_name_of(p: Seq<char>) -> Seq<char>
    decreases p.len(),
{
    if p.len() == 0 {
        p
    } else if p.last() == '/' {
        Seq::empty()
    } else {
        file_name_of(p.drop_last()).push(p.last())
    }
}

proof fn lemma_file_name_suffix(p: Seq<char>, j: int)
    requires
        0 <= j <= p.len(),
        forall|k: int| j <= k < p.len() ==> p[k] != '/',
    ensures
        file_name_of(p) == file_name_of(p.take(j)) + p.skip(j),
    decreases p.len() - j,
{
    if j == p.len() {
        assert(p.take(j) =~= p);
        assert(file_name_of(p) =~= file_name_of(p.take(j)) + p.skip(j));
    } else {
        assert(p.len() > 0);
        assert(p.last() != '/');
        lemma_file_name_suffix(p.drop_last(), j);
        assert(p.drop_last().take(j) =~= p.take(j));
        assert(file_name_of(p) == file_name_of(p.drop_last()).push(p.last()));
        assert(file_name_of(p) =~= file_name_of(p.take(j)) + p.skip(j));
    }
}

/// The file-name component of `path` as an owned string.
pub fn file_name(path: &str) -> (r: String)
    ensures
        r@ == file_name_of(path@),
{
    let n = path.unicode_len();
    let mut i: usize = n;
    while i > 0 && path.get_char(i - 1) != '/'
        invariant
            n == path@.len(),
            i <= n,
            forall|k: int| i <= k < n ==> path@[k] != '/',
        decreases i,
    {
        i -= 1;
    }
    proof {
        lemma_file_name_suffix(path@, i as int);
        if i > 0 {
            assert(path@.take(i as int).last() == '/');
            assert(file_name_of(path@.take(i as int)) == Seq::<char>::empty());
        } else {
            assert(path@.take(0) =~= Seq::<char>::empty());
            assert(file_name_of(Seq::<char>::empty()) == Seq::<char>::empty());
        }
        assert(file_name_of(path@) =~= path@.skip(i as int));
    }
    let part = path.substring_char(i, n);
    String::from_str(part)
}

/// `dir` and `name` joined with a single `/` separator.
pub fn join_path(dir: &str, name: &str) -> (r: String)
    ensures
        r@ == dir@ + seq!['/'] + name@,
{
    let mut s = String::from_str(dir);
    push_char(&mut s, '/');
    s.append(name);
    proof {
        assert(s@ =~= dir@ + seq!['/'] + name@);
    }
    s
}

} // verus!
