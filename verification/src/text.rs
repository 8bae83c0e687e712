//! Character-level string helpers: equality and lexicographic order over
//! the character sequences of `&str` values.

use vstd::prelude::*;

verus! {

/// Strict lexicographic order on character sequences, comparing characters
/// by their scalar values.
pub open spec fn lex_lt(a: Seq<char>, b: Seq<char>) -> bool
    decreases a.len(),
{
    if b.len() == 0 {
        false
    } else if a.len() == 0 {
        true
    } else if a[0] != b[0] {
        (a[0] as u32) < (b[0] as u32)
    } else {
        lex_lt(a.drop_first(), b.drop_first())
    }
}

/// Non-strict lexicographic order.
pub open spec fn lex_le(a: Seq<char>, b: Seq<char>) -> bool {
    lex_lt(a, b) || a == b
}

/// Indexing a vector's deep view is deep-viewing its element.
pub proof fn lemma_vec_deep_view_index<T: DeepView>(v: Vec<T>)
    ensures
        v.deep_view().len() == v@.len(),
        forall|j: int| 0 <= j < v@.len() ==> #[trigger] v.deep_view()[j] == v@[j].deep_view(),
{
}

/// Pushes a string onto a vector, tracked on the deep view.
pub fn push_str(v: &mut Vec<String>, x: String)
    ensures
        final(v).deep_view() == old(v).deep_view().push(x@),
        final(v)@.len() == old(v)@.len() + 1,
{
    proof {
        lemma_vec_deep_view_index(*v);
    }
    let ghost snap: Seq<Seq<char>> = v.deep_view();
    let ghost xv: Seq<char> = x@;
    v.push(x);
    proof {
        lemma_vec_deep_view_index(*v);
        assert(v.deep_view() =~= snap.push(xv));
    }
}

/// Whether the two strings hold the same characters.
pub fn str_eq(a: &str, b: &str) -> (r: bool)
    ensures
        r == (a@ == b@),
{
    let a_len = a.unicode_len();
    let b_len = b.unicode_len();
    if a_len != b_len {
        return false;
    }
    let mut i: usize = 0;
    while i < a_len
        invariant
            a_len == a@.len(),
            b_len == b@.len(),
            a_len == b_len,
            i <= a_len,
            forall|j: int| 0 <= j < i ==> a@[j] == b@[j],
        decreases a_len - i,
    {
        if a.get_char(i) != b.get_char(i) {
            return false;
        }
        i += 1;
    }
    proof {
        assert(a@ =~= b@);
    }
    true
}

/// Three-way outcome of comparing `a` and `b` lexicographically: returns
/// `true` when `a` sorts strictly before `b`.
pub fn str_lt(a: &str, b: &str) -> (r: bool)
    ensures
        r == lex_lt(a@, b@),
{
    let a_len = a.unicode_len();
    let b_len = b.unicode_len();
    proof {
        assert(a@.skip(0) =~= a@);
        assert(b@.skip(0) =~= b@);
    }
    let mut i: usize = 0;
    loop
        invariant
            a_len == a@.len(),
            b_len == b@.len(),
            i <= a_len,
            i <= b_len,
            forall|j: int| 0 <= j < i ==> a@[j] == b@[j],
            lex_lt(a@, b@) == lex_lt(a@.skip(i as int), b@.skip(i as int)),
        decreases a_len - i,
    {
        if i >= b_len {
            return false;
        }
        if i >= a_len {
            return true;
        }
        let ca = a.get_char(i);
        let cb = b.get_char(i);
        proof {
            assert(a@.skip(i as int)[0] == a@[i as int]);
            assert(b@.skip(i as int)[0] == b@[i as int]);
            assert(a@.skip(i as int).drop_first() =~= a@.skip(i as int + 1));
            assert(b@.skip(i as int).drop_first() =~= b@.skip(i as int + 1));
        }
        if ca != cb {
            return (ca as u32) < (cb as u32);
        }
        i += 1;
    }
}

/// No sequence sorts strictly before itself.
pub proof fn lemma_lex_lt_irrefl(a: Seq<char>)
    ensures
        !lex_lt(a, a),
    decreases a.len(),
{
    if a.len() > 0 {
        lemma_lex_lt_irrefl(a.drop_first());
    }
}

/// Two sequences never sort strictly before each other.
pub proof fn lemma_lex_lt_asym(a: Seq<char>, b: Seq<char>)
    ensures
        !(lex_lt(a, b) && lex_lt(b, a)),
    decreases a.len(),
{
    if a.len() > 0 && b.len() > 0 && a[0] == b[0] {
        lemma_lex_lt_asym(a.drop_first(), b.drop_first());
    }
}

/// Any two sequences are ordered one way or the other, or equal.
pub proof fn lemma_lex_lt_connex(a: Seq<char>, b: Seq<char>)
    ensures
        lex_lt(a, b) || lex_lt(b, a) || a == b,
    decreases a.len(),
{
    if a.len() == 0 && b.len() == 0 {
        assert(a =~= b);
    } else if a.len() > 0 && b.len() > 0 && a[0] != b[0] {
        vstd::utf8::char_u32_cast(a[0], a[0] as u32);
        vstd::utf8::char_u32_cast(b[0], b[0] as u32);
    } else if a.len() > 0 && b.len() > 0 && a[0] == b[0] {
        lemma_lex_lt_connex(a.drop_first(), b.drop_first());
        if !lex_lt(a, b) && !lex_lt(b, a) {
            assert(a.drop_first() == b.drop_first());
            assert forall|i: int| 0 <= i < a.len() implies a[i] == b[i] by {
                if i > 0 {
                    assert(a[i] == a.drop_first()[i - 1]);
                    assert(b[i] == b.drop_first()[i - 1]);
                }
            }
            assert(a =~= b);
        }
    }
}

/// Strict lexicographic order is transitive.
pub proof fn lemma_lex_lt_trans(a: Seq<char>, b: Seq<char>, c: Seq<char>)
    requires
        lex_lt(a, b),
        lex_lt(b, c),
    ensures
        lex_lt(a, c),
    decreases a.len(),
{
    if a.len() > 0 && b.len() > 0 && c.len() > 0 {
        if a[0] == b[0] && b[0] == c[0] {
            lemma_lex_lt_trans(a.drop_first(), b.drop_first(), c.drop_first());
        } else {
            vstd::utf8::char_u32_cast(a[0], a[0] as u32);
            vstd::utf8::char_u32_cast(c[0], c[0] as u32);
        }
    }
}

/// Removes a string from a vector, tracked on the deep view.
pub fn remove_str(v: &mut Vec<String>, i: usize) -> (r: String)
    requires
        i < old(v)@.len(),
    ensures
        final(v).deep_view() == old(v).deep_view().remove(i as int),
        r@ == old(v).deep_view()[i as int],
        final(v)@.len() == old(v)@.len() - 1,
{
    proof {
        lemma_vec_deep_view_index(*v);
    }
    let ghost snap: Seq<Seq<char>> = v.deep_view();
    let r = v.remove(i);
    proof {
        lemma_vec_deep_view_index(*v);
        assert forall|j: int| 0 <= j < v@.len() implies #[trigger] v.deep_view()[j] == snap.remove(
            i as int,
        )[j] by {
            assert(v.deep_view()[j] == v@[j]@);
            if j < i {
                assert(v@[j] == old(v)@[j]);
                assert(snap[j] == old(v)@[j]@);
            } else {
                assert(v@[j] == old(v)@[j + 1]);
                assert(snap[j + 1] == old(v)@[j + 1]@);
            }
        }
        assert(v.deep_view() =~= snap.remove(i as int));
    }
    r
}

/// A vector of machine integers deep-views as its own view.
pub proof fn lemma_vec_usize_deep_view(v: Vec<usize>)
    ensures
        v.deep_view() == v@,
{
    assert(v.deep_view() =~= v@);
}

/// Membership in a sequence splits into the last element and the rest.
pub proof fn lemma_seq_contains_drop_last<T>(s: Seq<T>, x: T)
    requires
        s.len() > 0,
    ensures
        s.contains(x) == (s.drop_last().contains(x) || s.last() == x),
{
    if s.contains(x) {
        let i = choose|i: int| 0 <= i < s.len() && s[i] == x;
        if i < s.len() - 1 {
            assert(s.drop_last()[i] == x);
        }
    }
    if s.drop_last().contains(x) {
        let i = choose|i: int| 0 <= i < s.drop_last().len() && s.drop_last()[i] == x;
        assert(s[i] == x);
    }
    if s.last() == x {
        assert(s[s.len() - 1] == x);
    }
}

/// Membership in a pushed sequence splits into the pushed element and the
/// original.
pub proof fn lemma_seq_contains_push<T>(s: Seq<T>, y: T, x: T)
    ensures
        s.push(y).contains(x) == (s.contains(x) || x == y),
{
    if s.push(y).contains(x) {
        let i = choose|i: int| 0 <= i < s.push(y).len() && s.push(y)[i] == x;
        if i < s.len() {
            assert(s[i] == x);
        }
    }
    if s.contains(x) {
        let i = choose|i: int| 0 <= i < s.len() && s[i] == x;
        assert(s.push(y)[i] == x);
    }
    if x == y {
        assert(s.push(y)[s.len() as int] == x);
    }
}

} // verus!
