//! Verified encoding of the recursive-length-prefix (RLP) wire format, as far
//! as the canonical header serialization needs it: byte strings, unsigned
//! integers in minimal big-endian form, and list envelopes.

use vstd::prelude::*;

use crate::bytes::push_all;

verus! {

/// Minimal big-endian byte representation of `n`: empty for zero, no leading
/// zero byte otherwise.
pub open spec fn be_bytes(n: nat) -> Seq<u8>
    decreases n,
{
    if n == 0 {
        Seq::empty()
    } else {
        be_bytes(n / 256) + seq![(n % 256) as u8]
    }
}

/// Numeric value of a big-endian byte string.
pub open spec fn be_val(s: Seq<u8>) -> nat
    decreases s.len(),
{
    if s.len() == 0 {
        0
    } else {
        be_val(s.drop_last()) * 256 + (s.last() as nat)
    }
}

/// 256 raised to `k`.
pub open spec fn pow256(k: nat) -> nat
    decreases k,
{
    if k == 0 {
        1
    } else {
        256 * pow256((k - 1) as nat)
    }
}

/// A value below `pow256(k)` needs at most `k` bytes.
pub proof fn lemma_be_bytes_len(n: nat, k: nat)
    requires
        n < pow256(k),
    ensures
        be_bytes(n).len() <= k,
    decreases k,
{
    if n > 0 {
        assert(k > 0);
        assert(n / 256 < pow256((k - 1) as nat)) by (nonlinear_arith)
            requires
                n < 256 * pow256((k - 1) as nat),
        ;
        lemma_be_bytes_len(n / 256, (k - 1) as nat);
    }
}

/// Eight bytes cover the whole range of `u64`.
proof fn lemma_pow256_8()
    ensures
        pow256(8) == 0x1_0000_0000_0000_0000,
{
    assert(pow256(0) == 1);
    assert(pow256(1) == 0x100);
    assert(pow256(2) == 0x1_0000);
    assert(pow256(3) == 0x100_0000);
    assert(pow256(4) == 0x1_0000_0000);
    assert(pow256(5) == 0x100_0000_0000);
    assert(pow256(6) == 0x1_0000_0000_0000);
    assert(pow256(7) == 0x100_0000_0000_0000);
    assert(pow256(8) == 0x1_0000_0000_0000_0000);
}

/// RLP encoding of a byte string.
pub open spec fn rlp_string(s: Seq<u8>) -> Seq<u8> {
    if s.len() == 1 && s[0] < 0x80 {
        s
    } else if s.len() <= 55 {
        seq![(0x80 + s.len()) as u8] + s
    } else {
        seq![(0xb7 + be_bytes(s.len()).len()) as u8] + be_bytes(s.len()) + s
    }
}

/// RLP encoding of an unsigned integer: its minimal big-endian bytes,
/// encoded as a string.
pub open spec fn rlp_uint(n: nat) -> Seq<u8> {
    rlp_string(be_bytes(n))
}

/// RLP envelope of a list whose items together encode to `payload_len` bytes.
pub open spec fn rlp_list_header(payload_len: nat) -> Seq<u8> {
    if payload_len <= 55 {
        seq![(0xc0 + payload_len) as u8]
    } else {
        seq![(0xf7 + be_bytes(payload_len).len()) as u8] + be_bytes(payload_len)
    }
}

/// Computes the minimal big-endian bytes of `n`.
pub fn be_bytes_u64(n: u64) -> (r: Vec<u8>)
    ensures
        r@ == be_bytes(n as nat),
        r@.len() <= 8,
{
    proof {
        lemma_pow256_8();
        lemma_be_bytes_len(n as nat, 8);
    }
    let mut r: Vec<u8> = Vec::new();
    be_bytes_rec(n, &mut r);
    r
}

fn be_bytes_rec(n: u64, out: &mut Vec<u8>)
    ensures
        final(out)@ == old(out)@ + be_bytes(n as nat),
    decreases n,
{
    if n == 0 {
        proof {
            assert(old(out)@ + be_bytes(0) =~= old(out)@);
        }
        return ;
    }
    be_bytes_rec(n / 256, out);
    out.push((n % 256) as u8);
    proof {
        assert(old(out)@ + be_bytes(n as nat / 256) + seq![(n as nat % 256) as u8] =~= old(out)@
            + be_bytes(n as nat));
    }
}

/// Appends the RLP encoding of the byte string `s` to `out`.
pub fn append_rlp_string(out: &mut Vec<u8>, s: &Vec<u8>)
    ensures
        final(out)@ == old(out)@ + rlp_string(s@),
{
    let ghost out0: Seq<u8> = out@;
    if s.len() == 1 && s[0] < 0x80 {
        out.push(s[0]);
        proof {
            assert(out0 + seq![s@[0]] =~= out0 + rlp_string(s@));
        }
    } else if s.len() <= 55 {
        out.push(0x80 + s.len() as u8);
        push_all(out, s);
        proof {
            assert(out0 + seq![(0x80 + s@.len()) as u8] + s@ =~= out0 + rlp_string(s@));
        }
    } else {
        let len_bytes = be_bytes_u64(s.len() as u64);
        out.push(0xb7 + len_bytes.len() as u8);
        push_all(out, &len_bytes);
        push_all(out, s);
        proof {
            assert(out0 + seq![(0xb7 + be_bytes(s@.len()).len()) as u8] + be_bytes(s@.len()) + s@
                =~= out0 + rlp_string(s@));
        }
    }
}

/// Appends the RLP encoding of the integer `n` to `out`.
pub fn append_rlp_u64(out: &mut Vec<u8>, n: u64)
    ensures
        final(out)@ == old(out)@ + rlp_uint(n as nat),
{
    let b = be_bytes_u64(n);
    append_rlp_string(out, &b);
}

/// Appends the envelope of a list with `payload_len` bytes of items to `out`.
pub fn append_rlp_list_header(out: &mut Vec<u8>, payload_len: usize)
    ensures
        final(out)@ == old(out)@ + rlp_list_header(payload_len as nat),
{
    let ghost out0: Seq<u8> = out@;
    if payload_len <= 55 {
        out.push(0xc0 + payload_len as u8);
        proof {
            assert(out0 + seq![(0xc0 + payload_len as nat) as u8] =~= out0 + rlp_list_header(
                payload_len as nat,
            ));
        }
    } else {
        let len_bytes = be_bytes_u64(payload_len as u64);
        proof {
            lemma_pow256_8();
            lemma_be_bytes_len(payload_len as nat, 8);
        }
        out.push(0xf7 + len_bytes.len() as u8);
        push_all(out, &len_bytes);
        proof {
            assert(out0 + seq![(0xf7 + be_bytes(payload_len as nat).len()) as u8] + be_bytes(
                payload_len as nat,
            ) =~= out0 + rlp_list_header(payload_len as nat));
        }
    }
}

/// The value of a big-endian string with its leading zeros dropped has
/// exactly the string's trimmed form as its minimal bytes.
pub proof fn lemma_be_bytes_of_val(s: Seq<u8>)
    ensures
        be_bytes(be_val(s)) == trim_leading_zeros(s),
    decreases s.len(),
{
    if s.len() == 0 {
    } else {
        let s0 = s.drop_last();
        let b = s.last();
        assert(s =~= s0 + seq![b]);
        lemma_be_bytes_of_val(s0);
        lemma_be_val_zero(s0);
        assert((be_val(s0) * 256 + b) / 256 == be_val(s0) && (be_val(s0) * 256 + b) % 256 == b)
            by (nonlinear_arith)
            requires
                b < 256,
        ;
        if be_val(s) == 0 {
            assert(be_val(s0) == 0 && b == 0) by (nonlinear_arith)
                requires
                    be_val(s0) * 256 + b == 0,
            ;
            assert(forall|i: int| 0 <= i < s.len() - 1 ==> s[i] == s0[i]);
            lemma_trim_all_zero(s);
        } else {
            if be_val(s0) == 0 {
                assert(b != 0);
                assert(be_bytes(be_val(s)) =~= seq![b]);
                lemma_trim_snoc(s0, b);
                assert(trim_leading_zeros(s0) =~= Seq::<u8>::empty());
                assert(trim_leading_zeros(s) =~= seq![b]);
            } else {
                lemma_trim_snoc(s0, b);
                assert(be_bytes(be_val(s)) =~= trim_leading_zeros(s0) + seq![b]);
            }
        }
    }
}

/// The big-endian string `s` with every leading zero byte removed.
pub open spec fn trim_leading_zeros(s: Seq<u8>) -> Seq<u8>
    decreases s.len(),
{
    if s.len() == 0 {
        Seq::empty()
    } else if s[0] == 0 {
        trim_leading_zeros(s.drop_first())
    } else {
        s
    }
}

/// A string's value is zero exactly when every byte of it is zero.
pub proof fn lemma_be_val_zero(s: Seq<u8>)
    ensures
        (be_val(s) == 0) == (forall|i: int| 0 <= i < s.len() ==> s[i] == 0),
    decreases s.len(),
{
    if s.len() > 0 {
        lemma_be_val_zero(s.drop_last());
        assert(be_val(s) == be_val(s.drop_last()) * 256 + s.last());
        if be_val(s.drop_last()) == 0 && s.last() == 0 {
            assert(be_val(s) == 0);
        }
        if be_val(s) == 0 {
            assert(be_val(s.drop_last()) == 0 && s.last() == 0) by (nonlinear_arith)
                requires
                    be_val(s.drop_last()) * 256 + s.last() == 0,
            ;
        }
        assert(forall|i: int| 0 <= i < s.len() - 1 ==> s.drop_last()[i] == s[i]);
    }
}

/// Trimming a string of zeros yields the empty string.
proof fn lemma_trim_all_zero(s: Seq<u8>)
    requires
        forall|i: int| 0 <= i < s.len() ==> s[i] == 0,
    ensures
        trim_leading_zeros(s) == Seq::<u8>::empty(),
    decreases s.len(),
{
    if s.len() > 0 {
        assert(forall|i: int| 0 <= i < s.drop_first().len() ==> s.drop_first()[i] == 0);
        lemma_trim_all_zero(s.drop_first());
    }
}

/// Appending one byte commutes with trimming, unless everything was zero and
/// the appended byte is not.
proof fn lemma_trim_snoc(s: Seq<u8>, b: u8)
    ensures
        trim_leading_zeros(s).len() > 0 ==> trim_leading_zeros(s + seq![b]) == trim_leading_zeros(s)
            + seq![b],
        trim_leading_zeros(s).len() == 0 ==> trim_leading_zeros(s + seq![b]) == if b == 0 {
            Seq::<u8>::empty()
        } else {
            seq![b]
        },
    decreases s.len(),
{
    if s.len() == 0 {
        assert(s + seq![b] =~= seq![b]);
        if b == 0 {
            assert(trim_leading_zeros(Seq::<u8>::empty()) =~= Seq::<u8>::empty());
            assert(seq![b].drop_first() =~= Seq::<u8>::empty());
            assert(trim_leading_zeros(seq![b]) == trim_leading_zeros(seq![b].drop_first()));
        }
    } else {
        assert((s + seq![b])[0] == s[0]);
        assert((s + seq![b]).drop_first() =~= s.drop_first() + seq![b]);
        lemma_trim_snoc(s.drop_first(), b);
    }
}

/// Trims the leading zeros of `s`, as a vector.
pub fn trim_zeros(s: &Vec<u8>) -> (r: Vec<u8>)
    ensures
        r@ == trim_leading_zeros(s@),
{
    let mut i: usize = 0;
    while i < s.len() && s[i] == 0
        invariant
            i <= s@.len(),
            forall|j: int| 0 <= j < i ==> s@[j] == 0,
        decreases s@.len() - i,
    {
        i += 1;
    }
    proof {
        lemma_trim_skip(s@, i as int);
    }
    crate::bytes::copy_range(s, i, s.len())
}

/// After `i` zero bytes, trimming is trimming of the remainder.
proof fn lemma_trim_skip(s: Seq<u8>, i: int)
    requires
        0 <= i <= s.len(),
        forall|j: int| 0 <= j < i ==> s[j] == 0,
        i < s.len() ==> s[i] != 0,
    ensures
        trim_leading_zeros(s) == s.subrange(i, s.len() as int),
    decreases i,
{
    if i == 0 {
        if s.len() > 0 {
            assert(trim_leading_zeros(s) == s);
        }
        assert(s.subrange(0, s.len() as int) =~= s);
        if s.len() == 0 {
            assert(trim_leading_zeros(s) =~= s.subrange(0, s.len() as int));
        }
    } else {
        assert(s[0] == 0);
        let t = s.drop_first();
        assert(forall|j: int| 0 <= j < i - 1 ==> t[j] == 0);
        assert(i - 1 < t.len() ==> t[i - 1] != 0);
        lemma_trim_skip(t, i - 1);
        assert(t.subrange(i - 1, t.len() as int) =~= s.subrange(i, s.len() as int));
    }
}

/// Appends the RLP encoding of the integer whose big-endian bytes are `s`.
pub fn append_rlp_uint_be(out: &mut Vec<u8>, s: &Vec<u8>)
    ensures
        final(out)@ == old(out)@ + rlp_uint(be_val(s@)),
{
    let t = trim_zeros(s);
    proof {
        lemma_be_bytes_of_val(s@);
    }
    append_rlp_string(out, &t);
}

} // verus!
