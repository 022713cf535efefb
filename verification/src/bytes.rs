//! Small verified helpers on byte vectors: copying ranges, equality, and
//! lexicographic comparison.

use vstd::prelude::*;

verus! {

/// Appends all of `src` to `out`.
pub fn push_all(out: &mut Vec<u8>, src: &Vec<u8>)
    ensures
        final(out)@ == old(out)@ + src@,
{
    let ghost out0: Seq<u8> = out@;
    let mut i: usize = 0;
    while i < src.len()
        invariant
            i <= src.len(),
            out@ == out0 + src@.subrange(0, i as int),
        decreases src.len() - i,
    {
        out.push(src[i]);
        proof {
            assert(out0 + src@.subrange(0, i as int) + seq![src@[i as int]] =~= out0
                + src@.subrange(0, i + 1));
        }
        i += 1;
    }
    proof {
        assert(out0 + src@.subrange(0, src@.len() as int) =~= out0 + src@);
    }
}

/// Copies the bytes of `src` in positions `start..end` into a fresh vector.
pub fn copy_range(src: &Vec<u8>, start: usize, end: usize) -> (r: Vec<u8>)
    requires
        start <= end <= src@.len(),
    ensures
        r@ == src@.subrange(start as int, end as int),
{
    let mut r: Vec<u8> = Vec::new();
    let mut i: usize = start;
    while i < end
        invariant
            start <= i <= end <= src@.len(),
            r@ == src@.subrange(start as int, i as int),
        decreases end - i,
    {
        r.push(src[i]);
        proof {
            assert(src@.subrange(start as int, i as int) + seq![src@[i as int]] =~= src@.subrange(
                start as int,
                i + 1,
            ));
        }
        i += 1;
    }
    r
}

/// Concatenation of byte sequences is associative.
pub proof fn lemma_add_assoc(a: Seq<u8>, b: Seq<u8>, c: Seq<u8>)
    ensures
        (a + b) + c == a + (b + c),
{
    assert((a + b) + c =~= a + (b + c));
}

/// Compares two byte vectors for equality of contents.
pub fn bytes_eq(a: &Vec<u8>, b: &Vec<u8>) -> (r: bool)
    ensures
        r == (a@ == b@),
{
    if a.len() != b.len() {
        return false;
    }
    let mut i: usize = 0;
    while i < a.len()
        invariant
            i <= a.len(),
            a@.len() == b@.len(),
            forall|j: int| 0 <= j < i ==> a@[j] == b@[j],
        decreases a.len() - i,
    {
        if a[i] != b[i] {
            return false;
        }
        i += 1;
    }
    proof {
        assert(a@ =~= b@);
    }
    true
}

/// Lexicographic order on byte sequences: `a` is less than or equal to `b`
/// when, at the first differing position, `a` holds the smaller byte, or when
/// `a` is a prefix of `b`.
pub open spec fn lex_le(a: Seq<u8>, b: Seq<u8>) -> bool
    decreases a.len(),
{
    if a.len() == 0 {
        true
    } else if b.len() == 0 {
        false
    } else if a[0] < b[0] {
        true
    } else if a[0] > b[0] {
        false
    } else {
        lex_le(a.drop_first(), b.drop_first())
    }
}

/// `lex_le` is total: of any two sequences, one is less than or equal to the
/// other.
pub proof fn lemma_lex_le_total(a: Seq<u8>, b: Seq<u8>)
    ensures
        lex_le(a, b) || lex_le(b, a),
    decreases a.len(),
{
    if a.len() == 0 || b.len() == 0 {
    } else if a[0] == b[0] {
        lemma_lex_le_total(a.drop_first(), b.drop_first());
    }
}

/// Comparing two sequences is the same as comparing what is left of them
/// after a common prefix is dropped.
proof fn lemma_lex_le_skip(a: Seq<u8>, b: Seq<u8>, i: int)
    requires
        0 <= i <= a.len(),
        i <= b.len(),
        forall|j: int| 0 <= j < i ==> a[j] == b[j],
    ensures
        lex_le(a, b) == lex_le(a.skip(i), b.skip(i)),
    decreases i,
{
    if i == 0 {
        assert(a.skip(0) =~= a);
        assert(b.skip(0) =~= b);
    } else {
        lemma_lex_le_skip(a, b, i - 1);
        assert(a.skip(i - 1).drop_first() =~= a.skip(i));
        assert(b.skip(i - 1).drop_first() =~= b.skip(i));
        assert(a.skip(i - 1).len() > 0);
        assert(a.skip(i - 1)[0] == a[i - 1]);
        assert(b.skip(i - 1)[0] == b[i - 1]);
    }
}

/// Decides `lex_le` on byte vectors.
pub fn lex_le_bytes(a: &Vec<u8>, b: &Vec<u8>) -> (r: bool)
    ensures
        r == lex_le(a@, b@),
{
    let mut i: usize = 0;
    let n = if a.len() < b.len() {
        a.len()
    } else {
        b.len()
    };
    while i < n
        invariant
            i <= n,
            n == if a@.len() < b@.len() {
                a@.len()
            } else {
                b@.len()
            },
            forall|j: int| 0 <= j < i ==> a@[j] == b@[j],
        decreases n - i,
    {
        if a[i] < b[i] {
            proof {
                lemma_lex_le_skip(a@, b@, i as int);
            }
            return true;
        }
        if a[i] > b[i] {
            proof {
                lemma_lex_le_skip(a@, b@, i as int);
            }
            return false;
        }
        i += 1;
    }
    proof {
        lemma_lex_le_skip(a@, b@, n as int);
    }
    a.len() <= b.len()
}

/// `lex_le` compares any sequence with itself.
pub proof fn lemma_lex_le_refl(a: Seq<u8>)
    ensures
        lex_le(a, a),
    decreases a.len(),
{
    if a.len() > 0 {
        lemma_lex_le_refl(a.drop_first());
    }
}

/// `lex_le` holds in both directions only of equal sequences.
pub proof fn lemma_lex_le_antisym(a: Seq<u8>, b: Seq<u8>)
    requires
        lex_le(a, b),
        lex_le(b, a),
    ensures
        a == b,
    decreases a.len(),
{
    if a.len() == 0 {
        assert(b.len() == 0);
        assert(a =~= b);
    } else {
        assert(b.len() > 0);
        assert(a[0] == b[0]);
        lemma_lex_le_antisym(a.drop_first(), b.drop_first());
        assert(a.len() == b.len());
        assert forall|i: int| 0 <= i < a.len() implies a[i] == b[i] by {
            if i > 0 {
                assert(a[i] == a.drop_first()[i - 1]);
                assert(b[i] == b.drop_first()[i - 1]);
            }
        }
        assert(a =~= b);
    }
}

/// `lex_le` is transitive.
pub proof fn lemma_lex_le_trans(a: Seq<u8>, b: Seq<u8>, c: Seq<u8>)
    requires
        lex_le(a, b),
        lex_le(b, c),
    ensures
        lex_le(a, c),
    decreases a.len(),
{
    if a.len() == 0 {
    } else {
        assert(b.len() > 0);
        assert(c.len() > 0);
        if a[0] == b[0] && b[0] == c[0] {
            lemma_lex_le_trans(a.drop_first(), b.drop_first(), c.drop_first());
        }
    }
}

/// The closure form of `lex_le`, for use with ordering predicates.
pub open spec fn lex_leq() -> spec_fn(Seq<u8>, Seq<u8>) -> bool {
    |a: Seq<u8>, b: Seq<u8>| lex_le(a, b)
}

/// `lex_le` is a total ordering on byte sequences.
pub proof fn lemma_lex_le_total_ordering()
    ensures
        vstd::relations::total_ordering(lex_leq()),
{
    assert forall|a: Seq<u8>| #[trigger] lex_leq()(a, a) by {
        lemma_lex_le_refl(a);
    }
    assert forall|a: Seq<u8>, b: Seq<u8>| #[trigger] lex_leq()(a, b) && #[trigger] lex_leq()(
        b,
        a,
    ) implies a == b by {
        lemma_lex_le_antisym(a, b);
    }
    assert forall|a: Seq<u8>, b: Seq<u8>, c: Seq<u8>| #[trigger] lex_leq()(a, b) && #[trigger]
        lex_leq()(b, c) implies lex_leq()(a, c) by {
        lemma_lex_le_trans(a, b, c);
    }
    assert forall|a: Seq<u8>, b: Seq<u8>| #[trigger] lex_leq()(a, b) || #[trigger] lex_leq()(
        b,
        a,
    ) by {
        lemma_lex_le_total(a, b);
    }
}

/// The ascending reordering of a sequence of byte strings.
pub open spec fn sort_lex(s: Seq<Seq<u8>>) -> Seq<Seq<u8>> {
    s.sort_by(lex_leq())
}

/// Position at which `x` belongs in the sorted vector `out`: everything
/// before it is less than or equal to `x`, and `x` is less than or equal to
/// what it displaces.
fn insert_position(out: &Vec<Vec<u8>>, x: &Vec<u8>) -> (p: usize)
    ensures
        p <= out@.len(),
        forall|q: int| 0 <= q < p ==> lex_le(#[trigger] out.deep_view()[q], x@),
        p < out@.len() ==> lex_le(x@, out.deep_view()[p as int]),
{
    let mut p: usize = 0;
    while p < out.len()
        invariant
            p <= out@.len(),
            forall|q: int| 0 <= q < p ==> lex_le(#[trigger] out.deep_view()[q], x@),
        decreases out@.len() - p,
    {
        if !lex_le_bytes(&out[p], x) {
            proof {
                assert(out@[p as int]@ == out.deep_view()[p as int]);
                lemma_lex_le_total(x@, out.deep_view()[p as int]);
            }
            return p;
        }
        proof {
            assert(out@[p as int]@ == out.deep_view()[p as int]);
        }
        p += 1;
    }
    p
}

/// Sorts a vector of byte strings into ascending lexicographic order.
pub fn sort_byte_seqs(input: &Vec<Vec<u8>>) -> (r: Vec<Vec<u8>>)
    ensures
        r.deep_view() == sort_lex(input.deep_view()),
{
    let ghost idv = input.deep_view();
    let mut out: Vec<Vec<u8>> = Vec::new();
    let mut i: usize = 0;
    proof {
        broadcast use vstd::seq_lib::group_to_multiset_ensures;

        assert(idv.subrange(0, 0).to_multiset() =~= out.deep_view().to_multiset());
    }
    while i < input.len()
        invariant
            i <= idv.len(),
            idv == input.deep_view(),
            out@.len() == i,
            vstd::relations::sorted_by(out.deep_view(), lex_leq()),
            out.deep_view().to_multiset() == idv.subrange(0, i as int).to_multiset(),
        decreases idv.len() - i,
    {
        let src = &input[i];
        let x = copy_range(src, 0, src.len());
        proof {
            assert(input@[i as int]@.subrange(0, input@[i as int]@.len() as int) =~= input@[
                i as int
            ]@);
            assert(x@ =~= idv[i as int]);
        }
        let p = insert_position(&out, &x);
        let ghost old_dv = out.deep_view();
        let ghost xv = x@;
        out.insert(p, x);
        proof {
            broadcast use vstd::seq_lib::group_to_multiset_ensures;

            let t = old_dv.insert(p as int, xv);
            assert(out.deep_view() =~= t);
            assert forall|a: int, b: int| 0 <= a < b < t.len() implies #[trigger] lex_leq()(
                t[a],
                t[b],
            ) by {
                if b > p {
                    assert(t[b] == old_dv[b - 1]);
                    if b - 1 == p {
                        assert(lex_le(xv, old_dv[p as int]));
                    } else {
                        assert(lex_leq()(old_dv[p as int], old_dv[b - 1]));
                        lemma_lex_le_trans(xv, old_dv[p as int], old_dv[b - 1]);
                    }
                    assert(lex_le(xv, t[b]));
                }
                if a == p && b > p {
                    assert(t[a] == xv);
                } else if a < p && b == p {
                    assert(t[a] == old_dv[a]);
                    assert(lex_le(old_dv[a], xv));
                } else if a < p && b > p {
                    assert(t[a] == old_dv[a]);
                    assert(lex_le(old_dv[a], xv));
                    lemma_lex_le_trans(old_dv[a], xv, t[b]);
                } else if a > p {
                    assert(t[a] == old_dv[a - 1] && t[b] == old_dv[b - 1]);
                    assert(lex_leq()(old_dv[a - 1], old_dv[b - 1]));
                } else {
                    assert(t[a] == old_dv[a] && t[b] == old_dv[b]);
                    assert(lex_leq()(old_dv[a], old_dv[b]));
                }
            }
            assert(vstd::relations::sorted_by(t, lex_leq()));
            assert(t.remove(p as int) =~= old_dv);
            assert(t[p as int] == xv);
            assert(old_dv.to_multiset() =~= t.to_multiset().remove(xv));
            assert(t.contains(xv));
            assert(t.to_multiset().count(xv) > 0);
            assert(t.to_multiset() =~= old_dv.to_multiset().insert(xv));
            assert(idv.subrange(0, i + 1) =~= idv.subrange(0, i as int).push(idv[i as int]));
            assert(idv.subrange(0, i + 1).to_multiset() =~= idv.subrange(
                0,
                i as int,
            ).to_multiset().insert(idv[i as int]));
        }
        i += 1;
    }
    proof {
        assert(idv.subrange(0, idv.len() as int) =~= idv);
        lemma_lex_le_total_ordering();
        idv.lemma_sort_by_ensures(lex_leq());
        vstd::seq_lib::lemma_sorted_unique(out.deep_view(), idv.sort_by(lex_leq()), lex_leq());
        assert(out.deep_view() =~= sort_lex(idv));
    }
    out
}

} // verus!
