//! Unsigned LEB128-style variable-length integers: seven data bits per
//! byte, least-significant group first, the high bit of every byte except
//! the last marks "more bytes follow".

use vstd::prelude::*;

verus! {

/// `128^k`: the positional weight of the `k`-th byte of a varint.
pub open spec fn pow128(k: nat) -> nat
    decreases k,
{
    if k == 0 {
        1
    } else {
        128 * pow128((k - 1) as nat)
    }
}

/// The wire encoding of `n` as a varint.
pub open spec fn varint_enc(n: nat) -> Seq<u8>
    decreases n,
{
    if n < 128 {
        seq![n as u8]
    } else {
        seq![(128 + n % 128) as u8] + varint_enc(n / 128)
    }
}

pub proof fn lemma_pow128_pos(k: nat)
    ensures
        pow128(k) >= 1,
    decreases k,
{
    if k > 0 {
        lemma_pow128_pos((k - 1) as nat);
    }
}

pub proof fn lemma_pow128_mono(j: nat, k: nat)
    requires
        j <= k,
    ensures
        pow128(j) <= pow128(k),
    decreases k,
{
    if j < k {
        lemma_pow128_mono(j, (k - 1) as nat);
        lemma_pow128_pos((k - 1) as nat);
    }
}

pub proof fn lemma_pow128_8()
    ensures
        pow128(7) == 0x2_0000_0000_0000,
        pow128(8) == 0x100_0000_0000_0000,
        pow128(10) == 0x40_0000_0000_0000_0000,
{
    assert(pow128(10) == 0x40_0000_0000_0000_0000) by {
        reveal_with_fuel(pow128, 11);
    }
    assert(pow128(8) == 0x100_0000_0000_0000) by {
        reveal_with_fuel(pow128, 9);
    }
    assert(pow128(7) == 0x2_0000_0000_0000) by {
        reveal_with_fuel(pow128, 8);
    }
}

/// Every varint occupies at least one byte.
pub proof fn lemma_varint_enc_len_pos(n: nat)
    ensures
        varint_enc(n).len() >= 1,
{
}

/// A value below `128^k` encodes in at most `k` bytes.
pub proof fn lemma_varint_enc_len(n: nat, k: nat)
    requires
        n < pow128(k),
        k >= 1,
    ensures
        1 <= varint_enc(n).len() <= k,
    decreases k,
{
    if n < 128 {
    } else {
        assert(pow128(k) == 128 * pow128((k - 1) as nat));
        assert(n / 128 < pow128((k - 1) as nat)) by (nonlinear_arith)
            requires
                n < 128 * pow128((k - 1) as nat),
        ;
        assert(k >= 2) by {
            if k == 1 {
                assert(pow128(1nat) == 128) by {
                    reveal_with_fuel(pow128, 2);
                }
            }
        }
        lemma_varint_enc_len(n / 128, (k - 1) as nat);
    }
}

/// Any `u64` encodes in at most ten bytes.
pub proof fn lemma_varint_enc_len_u64(n: nat)
    requires
        n <= u64::MAX,
    ensures
        1 <= varint_enc(n).len() <= 10,
{
    lemma_pow128_8();
    lemma_varint_enc_len(n, 10);
}

/// Exact byte count that the varint encoding of `n` occupies.
pub fn required_space(n: u64) -> (r: usize)
    ensures
        r == varint_enc(n as nat).len(),
{
    proof {
        lemma_varint_enc_len_u64(n as nat);
    }
    let mut v: u64 = n;
    let mut c: usize = 1;
    while v >= 128
        invariant
            1 <= c,
            c + varint_enc(v as nat).len() == 1 + varint_enc(n as nat).len(),
            varint_enc(n as nat).len() <= 10,
        decreases v,
    {
        v = v / 128;
        c = c + 1;
    }
    c
}

/// Appends the varint encoding of `n` to `out`.
pub fn write_varint(out: &mut Vec<u8>, n: u64)
    ensures
        final(out)@ == old(out)@ + varint_enc(n as nat),
{
    let mut v: u64 = n;
    while v >= 128
        invariant
            out@ + varint_enc(v as nat) == old(out)@ + varint_enc(n as nat),
        decreases v,
    {
        let b: u8 = (v % 128 + 128) as u8;
        let ghost pre = out@;
        out.push(b);
        v = v / 128;
        proof {
            assert(out@ + varint_enc(v as nat) =~= pre + (seq![b] + varint_enc(v as nat)));
        }
    }
    let ghost pre = out@;
    out.push(v as u8);
    proof {
        assert(out@ =~= pre + varint_enc(v as nat));
    }
}

} // verus!
