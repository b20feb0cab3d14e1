//! Helpers on byte sequences shared by the version order and the wire codec:
//! locating a separator byte, splitting on it, and lexicographic comparison.

use vstd::prelude::*;

verus! {

/// Index of the first occurrence of `t` in `s`, or `s.len()` if absent.
pub open spec fn find_byte(s: Seq<u8>, t: u8) -> nat
    decreases s.len(),
{
    if s.len() == 0 {
        0
    } else if s[0] == t {
        0
    } else {
        1 + find_byte(s.drop_first(), t)
    }
}

/// If no byte of `s` is `t`, the search runs off the end.
pub proof fn lemma_find_byte_absent(s: Seq<u8>, t: u8)
    requires
        forall|i: int| 0 <= i < s.len() ==> s[i] != t,
    ensures
        find_byte(s, t) == s.len(),
    decreases s.len(),
{
    if s.len() > 0 {
        lemma_find_byte_absent(s.drop_first(), t);
    }
}

/// With a clean prefix `a`, the first `t` of `a + [t] + b` sits right after `a`.
pub proof fn lemma_find_byte_prefix(a: Seq<u8>, b: Seq<u8>, t: u8)
    requires
        forall|i: int| 0 <= i < a.len() ==> a[i] != t,
    ensures
        find_byte(a + seq![t] + b, t) == a.len(),
    decreases a.len(),
{
    if a.len() == 0 {
        assert((a + seq![t] + b)[0] == t);
    } else {
        let s = a + seq![t] + b;
        assert(s[0] == a[0]);
        assert(s.drop_first() =~= a.drop_first() + seq![t] + b);
        lemma_find_byte_prefix(a.drop_first(), b, t);
    }
}

/// Split `s` at every occurrence of `t`. A segment between two separators
/// may be empty; a trailing empty segment is dropped, and the empty sequence
/// splits to no segments.
pub open spec fn split_byte(s: Seq<u8>, t: u8) -> Seq<Seq<u8>>
    decreases s.len(),
{
    if s.len() == 0 {
        seq![]
    } else {
        let d = find_byte(s, t);
        if d >= s.len() {
            seq![s]
        } else {
            seq![s.take(d as int)] + split_byte(s.skip(d as int + 1), t)
        }
    }
}

/// Splitting a clean, nonempty segment yields just that segment.
pub proof fn lemma_split_byte_clean(s: Seq<u8>, t: u8)
    requires
        s.len() > 0,
        forall|i: int| 0 <= i < s.len() ==> s[i] != t,
    ensures
        split_byte(s, t) == seq![s],
{
    lemma_find_byte_absent(s, t);
}

/// Splitting `a + [t] + rest` with clean `a` peels off `a` and recurses.
pub proof fn lemma_split_byte_step(a: Seq<u8>, rest: Seq<u8>, t: u8)
    requires
        forall|i: int| 0 <= i < a.len() ==> a[i] != t,
    ensures
        split_byte(a + seq![t] + rest, t) == seq![a] + split_byte(rest, t),
{
    let s = a + seq![t] + rest;
    lemma_find_byte_prefix(a, rest, t);
    assert(s.len() > 0);
    assert(find_byte(s, t) == a.len());
    assert(s.take(a.len() as int) =~= a);
    assert(s.skip(a.len() as int + 1) =~= rest);
    assert(split_byte(s, t) =~= seq![a] + split_byte(rest, t));
}

/// Strict lexicographic (bytewise) order; a proper prefix is smaller.
pub open spec fn lex_lt(a: Seq<u8>, b: Seq<u8>) -> bool
    decreases a.len(),
{
    if b.len() == 0 {
        false
    } else if a.len() == 0 {
        true
    } else if a[0] != b[0] {
        a[0] < b[0]
    } else {
        lex_lt(a.drop_first(), b.drop_first())
    }
}

pub proof fn lemma_lex_lt_irrefl(a: Seq<u8>)
    ensures
        !lex_lt(a, a),
    decreases a.len(),
{
    if a.len() > 0 {
        lemma_lex_lt_irrefl(a.drop_first());
    }
}

pub proof fn lemma_lex_lt_trans(a: Seq<u8>, b: Seq<u8>, c: Seq<u8>)
    requires
        lex_lt(a, b),
        lex_lt(b, c),
    ensures
        lex_lt(a, c),
    decreases a.len() + b.len() + c.len(),
{
    if a.len() > 0 && b.len() > 0 && c.len() > 0 && a[0] == b[0] && b[0] == c[0] {
        lemma_lex_lt_trans(a.drop_first(), b.drop_first(), c.drop_first());
    }
}

pub proof fn lemma_lex_lt_trichotomy(a: Seq<u8>, b: Seq<u8>)
    ensures
        lex_lt(a, b) || lex_lt(b, a) || a == b,
    decreases a.len(),
{
    if a.len() > 0 && b.len() > 0 && a[0] == b[0] {
        lemma_lex_lt_trichotomy(a.drop_first(), b.drop_first());
        if a.drop_first() == b.drop_first() {
            assert(a =~= seq![a[0]] + a.drop_first());
            assert(b =~= seq![b[0]] + b.drop_first());
        }
    }
}

/// Skipping an equal prefix does not change the lexicographic order.
pub proof fn lemma_lex_lt_skip(a: Seq<u8>, b: Seq<u8>, i: int)
    requires
        0 <= i <= a.len(),
        i <= b.len(),
        forall|j: int| 0 <= j < i ==> a[j] == b[j],
    ensures
        lex_lt(a, b) == lex_lt(a.skip(i), b.skip(i)),
    decreases i,
{
    if i > 0 {
        assert(a[0] == b[0]);
        assert(a.drop_first().skip(i - 1) =~= a.skip(i));
        assert(b.drop_first().skip(i - 1) =~= b.skip(i));
        assert(forall|j: int|
            0 <= j < i - 1 ==> #[trigger] a.drop_first()[j] == b.drop_first()[j]);
        lemma_lex_lt_skip(a.drop_first(), b.drop_first(), i - 1);
    } else {
        assert(a.skip(0) =~= a);
        assert(b.skip(0) =~= b);
    }
}

/// The deep view of a byte-string list indexes to the views of its elements.
pub proof fn lemma_deep_view_elts(a: &Vec<Vec<u8>>)
    ensures
        a.deep_view().len() == a@.len(),
        forall|k: int| 0 <= k < a@.len() ==> #[trigger] a.deep_view()[k] == a@[k]@,
{
    assert forall|k: int| 0 <= k < a@.len() implies #[trigger] a.deep_view()[k] == a@[k]@ by {
        assert(a@[k].deep_view() =~= a@[k]@);
    }
}

/// Split a byte vector at every occurrence of `t`, as [`split_byte`] does.
pub fn split_at_byte(s: &Vec<u8>, t: u8) -> (r: Vec<Vec<u8>>)
    ensures
        r.deep_view() == split_byte(s@, t),
{
    let n = s.len();
    let mut done: Vec<Vec<u8>> = Vec::new();
    let mut cur: Vec<u8> = Vec::new();
    let mut i: usize = 0;
    proof {
        assert(done.deep_view() =~= Seq::<Seq<u8>>::empty());
        assert(cur@ + s@.skip(0) =~= s@);
    }
    while i < n
        invariant
            n == s.len(),
            i <= n,
            forall|j: int| 0 <= j < cur@.len() ==> cur@[j] != t,
            split_byte(s@, t) == done.deep_view() + split_byte(cur@ + s@.skip(i as int), t),
        decreases n - i,
    {
        let ghost rest = s@.skip(i as int);
        let ghost rest1 = s@.skip(i as int + 1);
        proof {
            assert(rest =~= seq![s@[i as int]] + rest1);
        }
        let c = s[i];
        if c == t {
            proof {
                assert(cur@ + rest =~= cur@ + seq![t] + rest1);
                lemma_split_byte_step(cur@, rest1, t);
            }
            let ghost old_done = done.deep_view();
            let ghost old_cur = cur@;
            done.push(cur);
            cur = Vec::new();
            proof {
                assert(done.deep_view() =~~= old_done + seq![old_cur]);
                assert(done.deep_view() + split_byte(cur@ + rest1, t) =~= split_byte(s@, t));
            }
        } else {
            let ghost old_cur = cur@;
            cur.push(c);
            proof {
                assert(cur@ + rest1 =~= old_cur + rest);
            }
        }
        i += 1;
    }
    proof {
        assert(cur@ + s@.skip(n as int) =~= cur@);
    }
    if cur.len() > 0 {
        proof {
            lemma_split_byte_clean(cur@, t);
        }
        let ghost old_done = done.deep_view();
        let ghost last = cur@;
        done.push(cur);
        proof {
            assert(done.deep_view() =~~= old_done + seq![last]);
            assert(done.deep_view() =~= split_byte(s@, t));
        }
    } else {
        proof {
            assert(split_byte(cur@, t) =~= Seq::<Seq<u8>>::empty());
            assert(done.deep_view() =~= split_byte(s@, t));
        }
    }
    done
}

/// Equality of two byte vectors, stated over their views.
pub fn bytes_eq(a: &Vec<u8>, b: &Vec<u8>) -> (r: bool)
    ensures
        r == (a@ == b@),
{
    if a.len() != b.len() {
        assert(a@ != b@);
        return false;
    }
    let n = a.len();
    let mut i: usize = 0;
    while i < n
        invariant
            n == a.len() == b.len(),
            i <= n,
            forall|j: int| 0 <= j < i ==> a@[j] == b@[j],
        decreases n - i,
    {
        if a[i] != b[i] {
            return false;
        }
        i += 1;
    }
    proof {
        assert(a@ =~= b@);
    }
    true
}

} // verus!
