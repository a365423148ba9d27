//! Fixed-width unsigned integers held as big-endian byte strings.

use vstd::prelude::*;

verus! {

/// The number that `s` spells in base 256, most significant byte first.
pub open spec fn be_value(s: Seq<u8>) -> nat
    decreases s.len(),
{
    if s.len() == 0 {
        0
    } else {
        be_value(s.drop_last()) * 256 + s.last() as nat
    }
}

/// 256 to the power `n`.
pub open spec fn pow256(n: nat) -> nat
    decreases n,
{
    if n == 0 {
        1
    } else {
        256 * pow256((n - 1) as nat)
    }
}

/// Every byte of `s` is zero.
pub open spec fn all_zero(s: Seq<u8>) -> bool {
    forall|i: int| 0 <= i < s.len() ==> s[i] == 0
}

/// A power of 256 is at least one.
pub proof fn lemma_pow256_positive(n: nat)
    ensures
        pow256(n) >= 1,
    decreases n,
{
    if n > 0 {
        lemma_pow256_positive((n - 1) as nat);
    }
}

/// A string of `n` bytes spells a number below 256 to the `n`.
pub proof fn lemma_be_value_bound(s: Seq<u8>)
    ensures
        be_value(s) < pow256(s.len()),
    decreases s.len(),
{
    if s.len() > 0 {
        lemma_be_value_bound(s.drop_last());
        let hi = be_value(s.drop_last());
        let p = pow256((s.len() - 1) as nat);
        assert(hi + 1 <= p);
        assert(hi * 256 + 256 <= 256 * p) by (nonlinear_arith)
            requires
                hi + 1 <= p,
        ;
    }
}

/// The value of a concatenation: the left part is shifted by the length of the right part.
pub proof fn lemma_be_value_concat(a: Seq<u8>, b: Seq<u8>)
    ensures
        be_value(a + b) == be_value(a) * pow256(b.len()) + be_value(b),
    decreases b.len(),
{
    if b.len() == 0 {
        assert(a + b =~= a);
        assert(pow256(0) == 1);
        assert(be_value(a) * pow256(0) == be_value(a));
    } else {
        let ab = a + b;
        assert(ab.drop_last() =~= a + b.drop_last());
        assert(ab.last() == b.last());
        lemma_be_value_concat(a, b.drop_last());
        let va = be_value(a);
        let p = pow256((b.len() - 1) as nat);
        let vb = be_value(b.drop_last());
        assert(pow256(b.len()) == 256 * p);
        assert(be_value(b) == vb * 256 + b.last() as nat);
        assert(be_value(ab) == (va * p + vb) * 256 + b.last() as nat);
        assert((va * p + vb) * 256 == va * (256 * p) + vb * 256) by (nonlinear_arith);
        assert(va * pow256(b.len()) == va * (256 * p));
    }
}

/// A one-byte string spells its byte.
pub proof fn lemma_be_value_single(b: u8)
    ensures
        be_value(seq![b]) == b as nat,
{
    let s = seq![b];
    assert(s.drop_last() =~= Seq::<u8>::empty());
    assert(be_value(s.drop_last()) == 0);
    assert(s.last() == b);
}

/// A string spells zero exactly when all its bytes are zero.
pub proof fn lemma_be_value_zero(s: Seq<u8>)
    ensures
        be_value(s) == 0 <==> all_zero(s),
    decreases s.len(),
{
    if s.len() > 0 {
        lemma_be_value_zero(s.drop_last());
        let t = s.drop_last();
        if all_zero(s) {
            assert forall|i: int| 0 <= i < t.len() implies t[i] == 0 by {
                assert(t[i] == s[i]);
            }
        }
        if be_value(s) == 0 {
            assert(be_value(t) == 0);
            assert forall|i: int| 0 <= i < s.len() implies s[i] == 0 by {
                if i < t.len() {
                    assert(t[i] == s[i]);
                }
            }
        }
    }
}

/// Two strings of one length that spell one number are the same string.
pub proof fn lemma_be_value_injective(a: Seq<u8>, b: Seq<u8>)
    requires
        a.len() == b.len(),
        be_value(a) == be_value(b),
    ensures
        a == b,
    decreases a.len(),
{
    if a.len() > 0 {
        lemma_be_value_injective(a.drop_last(), b.drop_last());
        assert(a =~= a.drop_last().push(a.last()));
        assert(b =~= b.drop_last().push(b.last()));
    } else {
        assert(a =~= b);
    }
}

/// Strings of one length are ordered as numbers by their first differing byte.
pub proof fn lemma_be_value_first_difference(a: Seq<u8>, b: Seq<u8>, k: int)
    requires
        a.len() == b.len(),
        0 <= k < a.len(),
        a.take(k) == b.take(k),
        a[k] < b[k],
    ensures
        be_value(a) < be_value(b),
{
    let n = a.len() as int;
    let at = a.skip(k + 1);
    let bt = b.skip(k + 1);
    assert(a =~= a.take(k).push(a[k]) + at);
    assert(b =~= b.take(k).push(b[k]) + bt);
    lemma_be_value_concat(a.take(k).push(a[k]), at);
    lemma_be_value_concat(b.take(k).push(b[k]), bt);
    lemma_be_value_bound(at);
    lemma_be_value_bound(bt);
    let ha = be_value(a.take(k).push(a[k]));
    let hb = be_value(b.take(k).push(b[k]));
    assert(a.take(k).push(a[k]).drop_last() =~= a.take(k));
    assert(b.take(k).push(b[k]).drop_last() =~= b.take(k));
    assert(ha + 1 <= hb);
    let p = pow256(at.len());
    assert(ha * p + p <= hb * p) by (nonlinear_arith)
        requires
            ha + 1 <= hb,
    ;
}

/// A copy of `s` that owns its bytes.
pub fn copy_bytes(s: &[u8]) -> (r: Vec<u8>)
    ensures
        r@ == s@,
{
    let mut r: Vec<u8> = Vec::new();
    let mut i: usize = 0;
    while i < s.len()
        invariant
            i <= s.len(),
            r@ == s@.take(i as int),
        decreases s.len() - i,
    {
        r.push(s[i]);
        assert(s@.take(i + 1) =~= s@.take(i as int).push(s@[i as int]));
        i += 1;
    }
    assert(s@.take(s@.len() as int) =~= s@);
    r
}

/// Appends the bytes of `src` to `dst`.
pub fn append(dst: &mut Vec<u8>, src: &Vec<u8>)
    ensures
        final(dst)@ == old(dst)@ + src@,
{
    let ghost start = dst@;
    let mut i: usize = 0;
    while i < src.len()
        invariant
            i <= src.len(),
            dst@ == start + src@.take(i as int),
        decreases src.len() - i,
    {
        dst.push(src[i]);
        assert(src@.take(i + 1) =~= src@.take(i as int).push(src@[i as int]));
        assert(start + src@.take(i + 1) =~= (start + src@.take(i as int)).push(src@[i as int]));
        i += 1;
    }
    assert(src@.take(src@.len() as int) =~= src@);
}

/// A string of `n` zero bytes.
pub fn zeros(n: usize) -> (r: Vec<u8>)
    ensures
        r@.len() == n,
        all_zero(r@),
        be_value(r@) == 0,
{
    let mut r: Vec<u8> = Vec::new();
    let mut i: usize = 0;
    while i < n
        invariant
            i <= n,
            r@.len() == i,
            all_zero(r@),
        decreases n - i,
    {
        r.push(0u8);
        i += 1;
    }
    proof {
        lemma_be_value_zero(r@);
    }
    r
}

/// Whether `a` spells zero.
pub fn is_zero(a: &Vec<u8>) -> (r: bool)
    ensures
        r == (be_value(a@) == 0),
{
    let mut i: usize = 0;
    while i < a.len()
        invariant
            i <= a.len(),
            forall|j: int| 0 <= j < i ==> a@[j] == 0,
        decreases a.len() - i,
    {
        if a[i] != 0 {
            proof {
                lemma_be_value_zero(a@);
                assert(a@[i as int] != 0);
            }
            return false;
        }
        i += 1;
    }
    proof {
        lemma_be_value_zero(a@);
    }
    true
}

/// Whether `a` spells a smaller number than `b`, for strings of one length.
pub fn less_than(a: &Vec<u8>, b: &Vec<u8>) -> (r: bool)
    requires
        a@.len() == b@.len(),
    ensures
        r == (be_value(a@) < be_value(b@)),
{
    let mut i: usize = 0;
    while i < a.len()
        invariant
            i <= a.len(),
            a@.len() == b@.len(),
            a@.take(i as int) == b@.take(i as int),
        decreases a.len() - i,
    {
        if a[i] < b[i] {
            proof {
                lemma_be_value_first_difference(a@, b@, i as int);
            }
            return true;
        }
        if a[i] > b[i] {
            proof {
                lemma_be_value_first_difference(b@, a@, i as int);
            }
            return false;
        }
        assert(a@.take(i + 1) =~= a@.take(i as int).push(a@[i as int]));
        assert(b@.take(i + 1) =~= b@.take(i as int).push(b@[i as int]));
        i += 1;
    }
    assert(a@.take(a@.len() as int) =~= a@);
    assert(b@.take(b@.len() as int) =~= b@);
    false
}

/// Multiplies the number in `acc` by ten and adds `d`. What does not fit in
/// the width of `acc` is returned as the carry, in units of 256 to the width.
pub fn mul10_add(acc: &mut Vec<u8>, d: u8) -> (carry: u8)
    requires
        d <= 9,
    ensures
        final(acc)@.len() == old(acc)@.len(),
        carry <= 9,
        be_value(final(acc)@) + carry * pow256(old(acc)@.len()) == be_value(old(acc)@) * 10 + d,
{
    let n: usize = acc.len();
    let ghost orig = acc@;
    let mut carry: u8 = d;
    let mut i: usize = n;
    proof {
        assert(acc@.skip(n as int) =~= Seq::<u8>::empty());
        assert(pow256(0) == 1);
        assert(carry * pow256(0) == d);
    }
    while i > 0
        invariant
            i <= n,
            acc@.len() == n,
            orig.len() == n,
            carry <= 9,
            acc@.take(i as int) == orig.take(i as int),
            be_value(acc@.skip(i as int)) + carry * pow256((n - i) as nat) == be_value(
                orig.skip(i as int),
            ) * 10 + d,
        decreases i,
    {
        let ghost prev = acc@;
        let ghost c0 = carry;
        i -= 1;
        assert(prev[i as int] == orig[i as int]) by {
            assert(prev.take(i + 1)[i as int] == orig.take(i + 1)[i as int]);
        }
        let t: u16 = acc[i] as u16 * 10 + carry as u16;
        acc.set(i, (t % 256) as u8);
        carry = (t / 256) as u8;
        proof {
            let k = (n - i - 1) as nat;
            let tail = prev.skip(i + 1);
            let otail = orig.skip(i + 1);
            assert(acc@.skip(i as int) =~= seq![acc@[i as int]] + tail);
            assert(orig.skip(i as int) =~= seq![orig[i as int]] + otail);
            lemma_be_value_concat(seq![acc@[i as int]], tail);
            lemma_be_value_concat(seq![orig[i as int]], otail);
            lemma_be_value_single(acc@[i as int]);
            lemma_be_value_single(orig[i as int]);
            assert(acc@.take(i as int) =~= orig.take(i as int)) by {
                assert forall|j: int| 0 <= j < i implies acc@[j] == orig[j] by {
                    assert(prev.take(i + 1)[j] == orig.take(i + 1)[j]);
                }
            }
            let nb = acc@[i as int] as int;
            let nc = carry as int;
            let ob = orig[i as int] as int;
            let p = pow256(k) as int;
            let vt = be_value(tail) as int;
            let vo = be_value(otail) as int;
            assert(pow256((n - i) as nat) == 256 * pow256(k));
            assert(nb + 256 * nc == ob * 10 + c0);
            assert(vt + c0 * p == vo * 10 + d);
            assert(nb * p + vt + nc * (256 * p) == (ob * p + vo) * 10 + d) by (nonlinear_arith)
                requires
                    nb + 256 * nc == ob * 10 + c0,
                    vt + c0 * p == vo * 10 + d,
            ;
        }
    }
    proof {
        assert(acc@.skip(0) =~= acc@);
        assert(orig.skip(0) =~= orig);
    }
    carry
}

/// Replaces the number in `acc` by its tenth, rounded down, and returns the remainder.
pub fn div10(acc: &mut Vec<u8>) -> (rem: u8)
    ensures
        final(acc)@.len() == old(acc)@.len(),
        rem <= 9,
        be_value(old(acc)@) == be_value(final(acc)@) * 10 + rem,
{
    let n: usize = acc.len();
    let ghost orig = acc@;
    let mut rem: u8 = 0;
    let mut i: usize = 0;
    proof {
        assert(acc@.take(0) =~= Seq::<u8>::empty());
        assert(orig.take(0) =~= Seq::<u8>::empty());
    }
    while i < n
        invariant
            i <= n,
            acc@.len() == n,
            orig.len() == n,
            rem <= 9,
            acc@.skip(i as int) == orig.skip(i as int),
            be_value(orig.take(i as int)) == be_value(acc@.take(i as int)) * 10 + rem,
        decreases n - i,
    {
        let ghost prev = acc@;
        assert(prev[i as int] == orig[i as int]) by {
            assert(prev.skip(i as int)[0] == orig.skip(i as int)[0]);
        }
        let t: u16 = rem as u16 * 256 + acc[i] as u16;
        acc.set(i, (t / 10) as u8);
        rem = (t % 10) as u8;
        proof {
            assert(acc@.take(i + 1).drop_last() =~= prev.take(i as int));
            assert(orig.take(i + 1).drop_last() =~= orig.take(i as int));
            assert(acc@.skip(i + 1) =~= orig.skip(i + 1)) by {
                assert forall|j: int| i + 1 <= j < n implies acc@[j] == orig[j] by {
                    assert(prev.skip(i as int)[j - i] == orig.skip(i as int)[j - i]);
                }
            }
        }
        i += 1;
    }
    proof {
        assert(acc@.take(n as int) =~= acc@);
        assert(orig.take(n as int) =~= orig);
    }
    rem
}

} // verus!
