//! The result pipeline's ordering: a stable insertion sort of the
//! collected records by name (ascending, on the file-name component),
//! size (descending) or modification date (descending).

use vstd::prelude::*;
use vstd::relations::sorted_by;
use vstd::seq_lib::*;
use crate::record::{FileRecord, RecordView, SortKey};
use crate::strutil::{file_name, file_name_of};

verus! {

broadcast use vstd::seq_lib::group_filter_ensures;

/// Code-point order on character sequences: `a` sorts at or before `b`.
pub open spec fn lex_le(a: Seq<char>, b: Seq<char>) -> bool
    decreases a.len(),
{
    if a.len() == 0 {
        true
    } else if b.len() == 0 {
        false
    } else if (a.first() as u32) < (b.first() as u32) {
        true
    } else if (a.first() as u32) > (b.first() as u32) {
        false
    } else {
        lex_le(a.drop_first(), b.drop_first())
    }
}

proof fn lemma_lex_le_refl(a: Seq<char>)
    ensures
        lex_le(a, a),
    decreases a.len(),
{
    if a.len() > 0 {
        lemma_lex_le_refl(a.drop_first());
    }
}

proof fn lemma_lex_le_total(a: Seq<char>, b: Seq<char>)
    ensures
        lex_le(a, b) || lex_le(b, a),
    decreases a.len(),
{
    if a.len() > 0 && b.len() > 0 && (a.first() as u32) == (b.first() as u32) {
        lemma_lex_le_total(a.drop_first(), b.drop_first());
    }
}

proof fn lemma_lex_le_trans(a: Seq<char>, b: Seq<char>, c: Seq<char>)
    requires
        lex_le(a, b),
        lex_le(b, c),
    ensures
        lex_le(a, c),
    decreases a.len(),
{
    if a.len() > 0 && b.len() > 0 && c.len() > 0 && (a.first() as u32) == (b.first() as u32) && (
    b.first() as u32) == (c.first() as u32) {
        lemma_lex_le_trans(a.drop_first(), b.drop_first(), c.drop_first());
    }
}

/// The sort order a key induces on records: names ascending, sizes and
/// dates descending.
pub open spec fn le_key(key: SortKey, a: RecordView, b: RecordView) -> bool {
    match key {
        SortKey::Name => lex_le(file_name_of(a.path), file_name_of(b.path)),
        SortKey::Size => a.size >= b.size,
        SortKey::Date => a.modified >= b.modified,
    }
}

/// Whether two records carry the same sort key, so that a stable sort
/// must keep them in their original order.
pub open spec fn same_key(key: SortKey, a: RecordView, b: RecordView) -> bool {
    match key {
        SortKey::Name => file_name_of(a.path) == file_name_of(b.path),
        SortKey::Size => a.size == b.size,
        SortKey::Date => a.modified == b.modified,
    }
}

/// The order as a binary predicate over records, for `sorted_by`.
pub open spec fn le_pred(key: SortKey) -> spec_fn(FileRecord, FileRecord) -> bool {
    |a: FileRecord, b: FileRecord| le_key(key, a@, b@)
}

/// Membership of the key class of `r`, for the stability statement.
pub open spec fn key_pred(key: SortKey, r: RecordView) -> spec_fn(FileRecord) -> bool {
    |x: FileRecord| same_key(key, x@, r)
}

proof fn lemma_le_key_total(key: SortKey, a: RecordView, b: RecordView)
    ensures
        le_key(key, a, b) || le_key(key, b, a),
{
    if key is Name {
        lemma_lex_le_total(file_name_of(a.path), file_name_of(b.path));
    }
}

proof fn lemma_le_key_trans(key: SortKey, a: RecordView, b: RecordView, c: RecordView)
    requires
        le_key(key, a, b),
        le_key(key, b, c),
    ensures
        le_key(key, a, c),
{
    if key is Name {
        lemma_lex_le_trans(file_name_of(a.path), file_name_of(b.path), file_name_of(c.path));
    }
}

proof fn lemma_same_key_le(key: SortKey, a: RecordView, b: RecordView)
    requires
        same_key(key, a, b),
    ensures
        le_key(key, a, b),
        le_key(key, b, a),
{
    if key is Name {
        lemma_lex_le_refl(file_name_of(a.path));
    }
}

proof fn lemma_filter_none<A>(s: Seq<A>, p: spec_fn(A) -> bool)
    requires
        forall|i: int| 0 <= i < s.len() ==> !p(s[i]),
    ensures
        s.filter(p) == Seq::<A>::empty(),
    decreases s.len(),
{
    reveal(Seq::filter);
    if s.len() > 0 {
        lemma_filter_none(s.drop_last(), p);
    }
}

proof fn lemma_filter_singleton<A>(x: A, p: spec_fn(A) -> bool)
    ensures
        p(x) ==> seq![x].filter(p) == seq![x],
        !p(x) ==> seq![x].filter(p) == Seq::<A>::empty(),
{
    reveal(Seq::filter);
    assert(seq![x].drop_last() =~= Seq::<A>::empty());
    assert(seq![x].last() == x);
    assert(Seq::<A>::empty().filter(p) == Seq::<A>::empty());
    if p(x) {
        assert(seq![x].filter(p) =~= seq![x]);
    }
}

/// Compares two strings in code-point order.
fn lex_le_exec(a: &str, b: &str) -> (r: bool)
    ensures
        r == lex_le(a@, b@),
{
    let na = a.unicode_len();
    let nb = b.unicode_len();
    let mut i: usize = 0;
    proof {
        assert(a@.skip(0) =~= a@);
        assert(b@.skip(0) =~= b@);
    }
    while i < na
        invariant
            na == a@.len(),
            nb == b@.len(),
            i <= na,
            i <= nb,
            lex_le(a@, b@) == lex_le(a@.skip(i as int), b@.skip(i as int)),
        decreases na - i,
    {
        if i >= nb {
            proof {
                assert(b@.skip(i as int).len() == 0);
                assert(a@.skip(i as int).len() > 0);
            }
            return false;
        }
        let ca = a.get_char(i);
        let cb = b.get_char(i);
        proof {
            assert(a@.skip(i as int).first() == a@[i as int]);
            assert(b@.skip(i as int).first() == b@[i as int]);
            assert(a@.skip(i as int).drop_first() =~= a@.skip(i as int + 1));
            assert(b@.skip(i as int).drop_first() =~= b@.skip(i as int + 1));
        }
        if (ca as u32) < (cb as u32) {
            return true;
        }
        if (ca as u32) > (cb as u32) {
            return false;
        }
        i += 1;
    }
    proof {
        assert(a@.skip(i as int).len() == 0);
    }
    true
}

/// Compares two records under `key`.
fn le_exec(key: SortKey, a: &FileRecord, b: &FileRecord) -> (r: bool)
    ensures
        r == le_key(key, a@, b@),
{
    match key {
        SortKey::Name => {
            let an = file_name(a.path.as_str());
            let bn = file_name(b.path.as_str());
            lex_le_exec(an.as_str(), bn.as_str())
        },
        SortKey::Size => b.size <= a.size,
        SortKey::Date => b.modified <= a.modified,
    }
}

fn strictly_above(key: SortKey, v: &Vec<FileRecord>, j: usize, x: &FileRecord) -> (r: bool)
    requires
        1 <= j <= v@.len(),
    ensures
        r == !le_key(key, v@[j - 1]@, x@),
{
    !le_exec(key, &v[j - 1], x)
}

/// Sorts the records by the given key with a stable insertion sort.
///
/// The result is ordered by the key, and within one key class the
/// records keep their original discovery order: filtering the result by
/// any key class gives exactly the same sequence as filtering the input.
pub fn sort_records(v: &mut Vec<FileRecord>, key: SortKey)
    ensures
        final(v)@.len() == old(v)@.len(),
        sorted_by(final(v)@, le_pred(key)),
        forall|r: RecordView| #[trigger] final(v)@.filter(key_pred(key, r)) == old(v)@.filter(
            key_pred(key, r),
        ),
{
    let ghost orig = old(v)@;
    let mut i: usize = 0;
    while i < v.len()
        invariant
            i <= v@.len(),
            v@.len() == orig.len(),
            orig == old(v)@,
            sorted_by(v@.take(i as int), le_pred(key)),
            v@.skip(i as int) == orig.skip(i as int),
            forall|r: RecordView| #[trigger] v@.take(i as int).filter(key_pred(key, r))
                == orig.take(i as int).filter(key_pred(key, r)),
        decreases v@.len() - i,
    {
        let ghost pre = v@;
        let x = v.remove(i);
        proof {
            assert(pre.skip(i as int)[0] == pre[i as int]);
            assert(orig.skip(i as int)[0] == orig[i as int]);
            assert(pre[i as int] == orig[i as int]);
            assert(v@ =~= pre.remove(i as int));
            assert(v@.take(i as int) =~= pre.take(i as int));
        }
        let ghost w = v@;
        let mut j: usize = i;
        while j > 0 && strictly_above(key, v, j, &x)
            invariant
                j <= i,
                i < orig.len(),
                v@ == w,
                w.len() == orig.len() - 1,
                i <= w.len(),
                x == orig[i as int],
                forall|m: int| j <= m < i ==> !le_key(key, #[trigger] w[m]@, x@),
            decreases j,
        {
            j -= 1;
        }
        let ghost s = w.take(i as int);
        proof {
            assert(sorted_by(s, le_pred(key)));
            if j > 0 {
                assert(le_key(key, w[j - 1]@, x@));
            }
            // everything before the insertion point sorts at or before x
            assert forall|m: int| 0 <= m < j implies le_key(key, #[trigger] s[m]@, x@) by {
                if m < j - 1 {
                    assert(le_pred(key)(s[m], s[j - 1]));
                    lemma_le_key_trans(key, s[m]@, s[j - 1]@, x@);
                }
            }
            // everything from the insertion point on sorts strictly after x
            assert forall|m: int| j <= m < i implies !le_key(key, #[trigger] s[m]@, x@) by {}
        }
        v.insert(j, x);
        proof {
            let u = v@;
            assert(u == w.insert(j as int, x));
            let t = u.take(i as int + 1);
            let a_part = s.take(j as int);
            let b_part = s.skip(j as int);
            assert(t =~= a_part + seq![x] + b_part);
            assert(s =~= a_part + b_part);
            // sortedness of the new prefix
            assert forall|p: int, q: int| 0 <= p < q < t.len() implies le_pred(key)(
                t[p],
                t[q],
            ) by {
                let jj = j as int;
                if p < jj && q < jj {
                    assert(le_pred(key)(s[p], s[q]));
                } else if p < jj && q == jj {
                    assert(t[q] == x);
                    assert(le_key(key, s[p]@, x@));
                } else if p < jj && q > jj {
                    assert(t[q] == s[q - 1]);
                    assert(le_pred(key)(s[p], s[q - 1]));
                } else if p == jj && q > jj {
                    assert(t[p] == x);
                    assert(t[q] == s[q - 1]);
                    assert(!le_key(key, s[q - 1]@, x@));
                    lemma_le_key_total(key, x@, s[q - 1]@);
                } else if p > jj && q > jj {
                    assert(t[p] == s[p - 1]);
                    assert(t[q] == s[q - 1]);
                    assert(le_pred(key)(s[p - 1], s[q - 1]));
                }
            }
            assert(sorted_by(t, le_pred(key)));
            assert(u.take(i as int + 1) == t);
            // the untouched tail
            assert forall|m: int| i + 1 <= m < u.len() implies u[m] == orig[m] by {
                assert(u[m] == w[m - 1]);
                assert(w[m - 1] == pre[m]);
                assert(pre.skip(i as int)[m - i] == orig.skip(i as int)[m - i]);
                assert(pre[m] == orig[m]);
            }
            assert(u.skip(i as int + 1) =~= orig.skip(i as int + 1));
            // stability: each key class is preserved
            assert forall|r: RecordView| #[trigger] u.take(i as int + 1).filter(key_pred(key, r))
                == orig.take(i as int + 1).filter(key_pred(key, r)) by {
                let p = key_pred(key, r);
                Seq::filter_distributes_over_add(a_part + seq![x], b_part, p);
                Seq::filter_distributes_over_add(a_part, seq![x], p);
                Seq::filter_distributes_over_add(a_part, b_part, p);
                lemma_filter_singleton(x, p);
                assert(orig.take(i as int + 1) =~= orig.take(i as int) + seq![orig[i as int]]);
                Seq::filter_distributes_over_add(orig.take(i as int), seq![orig[i as int]], p);
                lemma_filter_singleton(orig[i as int], p);
                assert(x == orig[i as int]);
                if p(x) {
                    // no record after the insertion point shares x's key
                    assert forall|m: int| 0 <= m < b_part.len() implies !p(b_part[m]) by {
                        assert(b_part[m] == s[j + m]);
                        assert(!le_key(key, s[j + m]@, x@));
                        if same_key(key, b_part[m]@, x@) {
                            lemma_same_key_le(key, b_part[m]@, x@);
                        }
                        if p(b_part[m]) {
                            assert(same_key(key, b_part[m]@, r));
                            assert(same_key(key, x@, r));
                            assert(same_key(key, b_part[m]@, x@));
                        }
                    }
                    lemma_filter_none(b_part, p);
                    assert(t.filter(p) =~= a_part.filter(p) + seq![x]);
                    assert(s.filter(p) =~= a_part.filter(p));
                    assert(s.filter(p) == orig.take(i as int).filter(p));
                    assert(orig.take(i as int + 1).filter(p) =~= orig.take(i as int).filter(p)
                        + seq![x]);
                    assert(t.filter(p) =~= orig.take(i as int + 1).filter(p));
                } else {
                    assert(t.filter(p) =~= a_part.filter(p) + b_part.filter(p));
                    assert(s.filter(p) =~= a_part.filter(p) + b_part.filter(p));
                    assert(s.filter(p) == orig.take(i as int).filter(p));
                    assert(orig.take(i as int + 1).filter(p) =~= orig.take(i as int).filter(p));
                    assert(t.filter(p) =~= orig.take(i as int + 1).filter(p));
                }
            }
        }
        i += 1;
    }
    proof {
        assert(v@.take(i as int) =~= v@);
        assert(orig.take(i as int) =~= orig);
    }
}

/// Sorts by the requested key, if one was given; with no sort key the
/// records stay in discovery order.
pub fn sort_records_opt(v: &mut Vec<FileRecord>, key: Option<SortKey>)
    ensures
        final(v)@.len() == old(v)@.len(),
        key is None ==> final(v)@ == old(v)@,
        key matches Some(k) ==> sorted_by(final(v)@, le_pred(k)) && (forall|r: RecordView|
            #[trigger] final(v)@.filter(key_pred(k, r)) == old(v)@.filter(key_pred(k, r))),
{
    match key {
        None => {},
        Some(k) => sort_records(v, k),
    }
}

} // verus!
