//! Little-endian byte encoding of integers and keys inside account data.

use vstd::prelude::*;
use vstd::arithmetic::div_mod::*;
use crate::math::{two64, two128};
use crate::state::Pubkey;

verus! {

/// 256 to the power `n`: the weight of byte `n` in a little-endian number.
pub open spec fn pow256(n: nat) -> nat
    decreases n,
{
    if n == 0 {
        1
    } else {
        256 * pow256((n - 1) as nat)
    }
}

/// The number whose little-endian bytes are `s`.
pub open spec fn le_value(s: Seq<u8>) -> nat
    decreases s.len(),
{
    if s.len() == 0 {
        0
    } else {
        (s[0] + 256 * le_value(s.drop_first())) as nat
    }
}

/// The `n` low bytes of `v`, least significant first.
pub open spec fn le_bytes(v: nat, n: nat) -> Seq<u8> {
    Seq::new(n, |i: int| ((v / pow256(i as nat)) % 256) as u8)
}

/// `s` with the bytes from `off` on replaced by `t`.
pub open spec fn splice(s: Seq<u8>, off: int, t: Seq<u8>) -> Seq<u8> {
    s.subrange(0, off) + t + s.subrange(off + t.len(), s.len() as int)
}

pub proof fn lemma_pow256_pos(n: nat)
    ensures
        pow256(n) > 0,
    decreases n,
{
    if n > 0 {
        lemma_pow256_pos((n - 1) as nat);
    }
}

pub proof fn lemma_pow256_mono(m: nat, n: nat)
    requires
        m <= n,
    ensures
        pow256(m) <= pow256(n),
    decreases n,
{
    if m < n {
        lemma_pow256_mono(m, (n - 1) as nat);
        lemma_pow256_pos((n - 1) as nat);
    }
}

pub proof fn lemma_pow256_widths()
    ensures
        pow256(8) == two64(),
        pow256(16) == two128(),
{
    reveal_with_fuel(pow256, 17);
}

/// Dropping the lowest byte of `le_bytes(v, n)` leaves the bytes of `v / 256`.
pub proof fn lemma_le_bytes_drop(v: nat, n: nat)
    requires
        n > 0,
    ensures
        le_bytes(v, n).drop_first() =~= le_bytes(v / 256, (n - 1) as nat),
        le_bytes(v, n)[0] == (v % 256) as u8,
{
    assert forall|i: int| 0 <= i < n - 1 implies le_bytes(v, n).drop_first()[i] == le_bytes(
        v / 256,
        (n - 1) as nat,
    )[i] by {
        lemma_pow256_pos(i as nat);
        lemma_div_denominator(v as int, 256, pow256(i as nat) as int);
        assert(pow256((i + 1) as nat) == 256 * pow256(i as nat));
    }
    assert(pow256(0) == 1);
    assert(v / 1 == v);
}

/// A number below `256^n` is read back from its `n` little-endian bytes.
pub proof fn lemma_le_bytes_value(v: nat, n: nat)
    requires
        v < pow256(n),
    ensures
        le_value(le_bytes(v, n)) == v,
    decreases n,
{
    if n == 0 {
    } else {
        lemma_le_bytes_drop(v, n);
        assert(v / 256 < pow256((n - 1) as nat)) by {
            lemma_pow256_pos((n - 1) as nat);
            lemma_div_strictly_bounded_by(v, pow256((n - 1) as nat));
        }
        lemma_le_bytes_value(v / 256, (n - 1) as nat);
        lemma_fundamental_div_mod(v as int, 256);
    }
}

proof fn lemma_div_strictly_bounded_by(v: nat, m: nat)
    requires
        v < 256 * m,
    ensures
        v / 256 < m,
{
    lemma_div_is_ordered(v as int, (256 * m - 1) as int, 256);
    lemma_fundamental_div_mod((256 * m - 1) as int, 256);
}

/// The little-endian number of `s` is below `256^len`.
pub proof fn lemma_le_value_bound(s: Seq<u8>)
    ensures
        le_value(s) < pow256(s.len()),
    decreases s.len(),
{
    if s.len() > 0 {
        lemma_le_value_bound(s.drop_first());
    }
}

/// Writing the number that `s` encodes back into `s.len()` bytes gives `s`.
pub proof fn lemma_le_value_bytes(s: Seq<u8>)
    ensures
        le_bytes(le_value(s), s.len()) =~= s,
    decreases s.len(),
{
    if s.len() > 0 {
        let x = le_value(s);
        let r = le_value(s.drop_first());
        lemma_le_bytes_drop(x, s.len());
        lemma_fundamental_div_mod_converse(x as int, 256, r as int, s[0] as int);
        lemma_le_value_bytes(s.drop_first());
        assert(le_bytes(x, s.len())[0] == s[0]);
        assert(le_bytes(x, s.len()) =~= seq![s[0]] + le_bytes(x, s.len()).drop_first());
        assert(s =~= seq![s[0]] + s.drop_first());
    }
}

proof fn lemma_le_value_step(s: Seq<u8>, j: int, e: int)
    requires
        0 <= j < e <= s.len(),
    ensures
        le_value(s.subrange(j, e)) == s[j] + 256 * le_value(s.subrange(j + 1, e)),
{
    assert(s.subrange(j, e).drop_first() =~= s.subrange(j + 1, e));
}

/// Reads the `n`-byte little-endian number at `data[off..off + n]`.
pub fn read_le(data: &[u8], off: usize, n: usize) -> (v: u128)
    requires
        off + n <= data@.len(),
        n <= 16,
    ensures
        v == le_value(data@.subrange(off as int, off + n)),
        v < pow256(n as nat),
{
    let mut v: u128 = 0;
    let mut i: usize = n;
    proof {
        assert(data@.subrange(off + n, off + n) =~= Seq::<u8>::empty());
    }
    while i > 0
        invariant
            i <= n,
            n <= 16,
            off + n <= data.len(),
            v == le_value(data@.subrange(off + i, off + n)),
            v < pow256((n - i) as nat),
        decreases i,
    {
        i = i - 1;
        proof {
            lemma_le_value_step(data@, off + i, (off + n) as int);
            lemma_pow256_mono((n - i) as nat, 16);
            lemma_pow256_widths();
            assert(pow256((n - i) as nat) == 256 * pow256((n - i - 1) as nat));
        }
        v = v * 256 + data[off + i] as u128;
    }
    v
}

/// Writes the `n` low bytes of `v`, least significant first, at `data[off..]`.
pub fn write_le(data: &mut [u8], off: usize, n: usize, v: u128)
    requires
        off + n <= old(data)@.len(),
    ensures
        final(data)@ == splice(old(data)@, off as int, le_bytes(v as nat, n as nat)),
{
    let mut x: u128 = v;
    let mut i: usize = 0;
    assert(pow256(0) == 1);
    assert(v as nat / 1 == v);
    while i < n
        invariant
            i <= n,
            off + n <= data.len(),
            data@.len() == old(data)@.len(),
            x == v as nat / pow256(i as nat),
            forall|j: int|
                0 <= j < data@.len() ==> #[trigger] data@[j] == if off <= j < off + i {
                    le_bytes(v as nat, n as nat)[j - off]
                } else {
                    old(data)@[j]
                },
        decreases n - i,
    {
        proof {
            lemma_pow256_pos(i as nat);
            lemma_div_denominator(v as int, pow256(i as nat) as int, 256);
            assert(pow256((i + 1) as nat) == 256 * pow256(i as nat));
        }
        data[off + i] = (x % 256) as u8;
        x = x / 256;
        i = i + 1;
    }
    assert(data@ =~= splice(old(data)@, off as int, le_bytes(v as nat, n as nat)));
}

/// Reads the 32-byte key at `data[off..off + 32]`.
pub fn read_pubkey(data: &[u8], off: usize) -> (k: Pubkey)
    requires
        off + 32 <= data@.len(),
    ensures
        k@ == data@.subrange(off as int, off + 32),
{
    let mut bytes = [0u8; 32];
    let mut i: usize = 0;
    while i < 32
        invariant
            i <= 32,
            off + 32 <= data.len(),
            forall|j: int| 0 <= j < i ==> bytes@[j] == data@[off + j],
        decreases 32 - i,
    {
        bytes[i] = data[off + i];
        i = i + 1;
    }
    let k = Pubkey { bytes };
    assert(k@ =~= data@.subrange(off as int, off + 32));
    k
}

/// Writes the bytes of `src` at `data[off..]`.
pub fn write_bytes(data: &mut [u8], off: usize, src: &[u8])
    requires
        off + src@.len() <= old(data)@.len(),
    ensures
        final(data)@ == splice(old(data)@, off as int, src@),
{
    let mut i: usize = 0;
    while i < src.len()
        invariant
            i <= src@.len(),
            off + src@.len() <= data.len(),
            data@.len() == old(data)@.len(),
            forall|j: int|
                0 <= j < data@.len() ==> #[trigger] data@[j] == if off <= j < off + i {
                    src@[j - off]
                } else {
                    old(data)@[j]
                },
        decreases src@.len() - i,
    {
        data[off + i] = src[i];
        i = i + 1;
    }
    assert(data@ =~= splice(old(data)@, off as int, src@));
}

} // verus!
