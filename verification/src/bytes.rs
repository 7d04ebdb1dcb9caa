use vstd::prelude::*;

verus! {

/// 256 to the power `n`.
pub open spec fn pow256(n: nat) -> nat
    decreases n,
{
    if n == 0 { 1 } else { 256 * pow256((n - 1) as nat) }
}

/// The number that `bytes` spell in big-endian order (the empty sequence
/// spells 0).
pub open spec fn be_value(bytes: Seq<u8>) -> nat
    decreases bytes.len(),
{
    if bytes.len() == 0 {
        0
    } else {
        be_value(bytes.drop_last()) * 256 + bytes.last() as nat
    }
}

/// The `len` low bytes of `n`, in big-endian order.
pub open spec fn be_bytes(n: nat, len: nat) -> Seq<u8>
    decreases len,
{
    if len == 0 {
        Seq::empty()
    } else {
        be_bytes(n / 256, (len - 1) as nat).push((n % 256) as u8)
    }
}

/// Powers of 256 are positive.
pub proof fn lemma_pow256_positive(n: nat)
    ensures
        pow256(n) >= 1,
    decreases n,
{
    if n > 0 {
        lemma_pow256_positive((n - 1) as nat);
    }
}

/// A big-endian number of `k` bytes is below `256^k`.
pub proof fn lemma_be_value_bound(bytes: Seq<u8>)
    ensures
        be_value(bytes) < pow256(bytes.len()),
    decreases bytes.len(),
{
    if bytes.len() > 0 {
        let init = bytes.drop_last();
        lemma_be_value_bound(init);
        let v = be_value(init);
        let p = pow256(init.len());
        let b = bytes.last() as nat;
        assert(v * 256 + b < p * 256) by (nonlinear_arith)
            requires
                v < p,
                b < 256,
        ;
    }
}

/// `be_bytes(n, len)` has `len` bytes.
pub proof fn lemma_be_bytes_len(n: nat, len: nat)
    ensures
        be_bytes(n, len).len() == len,
    decreases len,
{
    if len > 0 {
        lemma_be_bytes_len(n / 256, (len - 1) as nat);
    }
}

/// Reading back the `len` big-endian bytes of `n` gives `n`, where `n` fits.
pub proof fn lemma_be_roundtrip(n: nat, len: nat)
    requires
        n < pow256(len),
    ensures
        be_value(be_bytes(n, len)) == n,
    decreases len,
{
    if len > 0 {
        let q = n / 256;
        let p = pow256((len - 1) as nat);
        assert(q < p) by (nonlinear_arith)
            requires
                n < 256 * p,
                q == n / 256,
        ;
        lemma_be_roundtrip(q, (len - 1) as nat);
        let s = be_bytes(n, len);
        assert(s.drop_last() =~= be_bytes(q, (len - 1) as nat));
        assert(n == q * 256 + n % 256) by (nonlinear_arith)
            requires
                q == n / 256,
        ;
    }
}

/// Leading zero bytes do not change a big-endian number.
pub proof fn lemma_be_value_leading_zeros(zeros: Seq<u8>, bytes: Seq<u8>)
    requires
        forall|i: int| 0 <= i < zeros.len() ==> zeros[i] == 0,
    ensures
        be_value(zeros + bytes) == be_value(bytes),
    decreases bytes.len(),
{
    if bytes.len() == 0 {
        assert(zeros + bytes =~= zeros);
        lemma_be_value_zeros(zeros);
    } else {
        assert((zeros + bytes).drop_last() =~= zeros + bytes.drop_last());
        lemma_be_value_leading_zeros(zeros, bytes.drop_last());
    }
}

proof fn lemma_be_value_zeros(zeros: Seq<u8>)
    requires
        forall|i: int| 0 <= i < zeros.len() ==> zeros[i] == 0,
    ensures
        be_value(zeros) == 0,
    decreases zeros.len(),
{
    if zeros.len() > 0 {
        lemma_be_value_zeros(zeros.drop_last());
    }
}

/// Appends the `len` low bytes of `n` in big-endian order.
pub fn push_be_bytes(out: &mut Vec<u8>, n: u64, len: usize)
    ensures
        final(out)@ == old(out)@ + be_bytes(n as nat, len as nat),
    decreases len,
{
    if len > 0 {
        push_be_bytes(out, n / 256, len - 1);
        out.push((n % 256) as u8);
        assert(old(out)@ + be_bytes(n as nat, len as nat) =~= old(out)@ + be_bytes((n / 256) as nat, (len - 1) as nat) + seq![(n % 256) as u8]);
    }
}

/// Eight bytes hold the numbers below 2^64.
pub proof fn lemma_pow256_8()
    ensures
        pow256(8) == 0x1_0000_0000_0000_0000,
{
    reveal_with_fuel(pow256, 9);
}

/// Four bytes hold the numbers below 2^32.
pub proof fn lemma_pow256_4()
    ensures
        pow256(4) == 0x1_0000_0000,
{
    reveal_with_fuel(pow256, 5);
}

/// The number spelled by the first `k` of `bytes`, in big-endian order.
pub fn be_prefix_value(bytes: &[u8], k: usize) -> (r: u64)
    requires
        k <= 8,
        k <= bytes@.len(),
    ensures
        r as nat == be_value(bytes@.take(k as int)),
{
    let mut v: u64 = 0;
    let mut i: usize = 0;
    assert(bytes@.take(0) =~= Seq::<u8>::empty());
    while i < k
        invariant
            i <= k <= 8,
            k <= bytes@.len(),
            v as nat == be_value(bytes@.take(i as int)),
        decreases k - i,
    {
        proof {
            lemma_be_value_bound(bytes@.take(i as int));
            lemma_pow256_8();
            lemma_pow256_monotone(i as nat + 1, 8);
            assert(bytes@.take(i + 1).drop_last() =~= bytes@.take(i as int));
            let b = bytes@[i as int] as nat;
            let p = pow256(i as nat);
            assert(v * 256 + b < p * 256) by (nonlinear_arith)
                requires
                    v < p,
                    b < 256,
            ;
        }
        v = v * 256 + bytes[i] as u64;
        i = i + 1;
    }
    v
}

/// Powers of 256 grow with the exponent.
pub proof fn lemma_pow256_monotone(a: nat, b: nat)
    requires
        a <= b,
    ensures
        pow256(a) <= pow256(b),
    decreases b,
{
    if a < b {
        lemma_pow256_monotone(a, (b - 1) as nat);
        lemma_pow256_positive((b - 1) as nat);
    }
}

} // verus!
