//! Reading fixed-layout account data: a discriminator of eight bytes, then
//! little-endian integers and 32-byte keys at known offsets.

use vstd::prelude::*;

verus! {

/// Why account data could not be read.
#[derive(Clone, Copy, Debug, PartialEq, Eq, Structural)]
pub enum AccountError {
    /// The data is shorter than a discriminator.
    AccountDiscriminatorNotFound,
    /// The discriminator is not the one of the expected account kind.
    AccountDiscriminatorMismatch,
    /// The data ends before the fields it announces.
    AccountDidNotDeserialize,
}

/// 256^n.
pub open spec fn pow256(n: nat) -> nat
    decreases n,
{
    if n == 0 {
        1
    } else {
        256 * pow256((n - 1) as nat)
    }
}

/// The little-endian value of the `n` bytes of `s` from `off`.
pub open spec fn le_value(s: Seq<u8>, off: int, n: nat) -> nat
    decreases n,
{
    if n == 0 {
        0
    } else {
        s[off] as nat + 256 * le_value(s, off + 1, (n - 1) as nat)
    }
}

/// The signed value of 64 bits read as two's complement.
pub open spec fn as_signed(v: nat) -> int {
    if v > i64::MAX {
        v - 0x1_0000_0000_0000_0000int
    } else {
        v as int
    }
}

/// The 32 bytes of `s` from `off` form `key`.
pub open spec fn key_at(s: Seq<u8>, off: int, key: [u8; 32]) -> bool {
    key@ == s.subrange(off, off + 32)
}

/// The outcome of checking the discriminator, as the first step of reading
/// an account.
pub open spec fn discriminator_check(s: Seq<u8>, disc: [u8; 8]) -> Result<(), AccountError> {
    if s.len() < 8 {
        Err(AccountError::AccountDiscriminatorNotFound)
    } else if s.subrange(0, 8) != disc@ {
        Err(AccountError::AccountDiscriminatorMismatch)
    } else {
        Ok(())
    }
}

pub proof fn lemma_le_value_bound(s: Seq<u8>, off: int, n: nat)
    ensures
        le_value(s, off, n) < pow256(n),
    decreases n,
{
    if n > 0 {
        lemma_le_value_bound(s, off + 1, (n - 1) as nat);
    }
}

/// Little-endian value of `n <= 8` bytes from `off`, if the data holds them.
pub fn read_le(data: &[u8], off: usize, n: usize) -> (r: Option<u64>)
    requires
        n <= 8,
    ensures
        r is Some <==> off + n <= data@.len(),
        r matches Some(v) ==> v as nat == le_value(data@, off as int, n as nat),
{
    if off > data.len() || data.len() - off < n {
        return None;
    }
    let len = data.len();
    let mut v: u64 = 0;
    let mut i: usize = 0;
    while i < n
        invariant
            i <= n <= 8,
            len == data@.len(),
            off + n <= len,
            v as nat == le_value(data@, (off + n - i) as int, i as nat),
        decreases n - i,
    {
        let j = off + n - i - 1;
        proof {
            lemma_le_value_bound(data@, (off + n - i) as int, i as nat);
            assert(pow256(i as nat) <= pow256(7)) by {
                lemma_pow256_mono(i as nat, 7);
            }
            assert(pow256(7) == 0x100_0000_0000_0000) by {
                reveal_with_fuel(pow256, 8);
            }
        }
        v = v * 256 + data[j] as u64;
        i = i + 1;
        proof {
            assert((off + n - i) as int == j as int);
        }
    }
    Some(v)
}

proof fn lemma_pow256_mono(a: nat, b: nat)
    requires
        a <= b,
    ensures
        pow256(a) <= pow256(b),
    decreases b,
{
    if a < b {
        lemma_pow256_mono(a, (b - 1) as nat);
    }
}

/// Two's-complement signed value of a 64-bit word.
pub fn to_signed(v: u64) -> (r: i64)
    ensures
        r as int == as_signed(v as nat),
{
    if v > i64::MAX as u64 {
        (-((u64::MAX - v) as i128) - 1) as i64
    } else {
        v as i64
    }
}

/// The 32-byte key from `off`, if the data holds it.
pub fn read_key(data: &[u8], off: usize) -> (r: Option<[u8; 32]>)
    ensures
        r is Some <==> off + 32 <= data@.len(),
        r matches Some(k) ==> key_at(data@, off as int, k),
{
    if off > data.len() || data.len() - off < 32 {
        return None;
    }
    let len = data.len();
    let mut key: [u8; 32] = [0u8; 32];
    let mut i: usize = 0;
    while i < 32
        invariant
            i <= 32,
            len == data@.len(),
            off + 32 <= len,
            forall|j: int| 0 <= j < i ==> key[j] == data@[off + j],
        decreases 32 - i,
    {
        key[i] = data[off + i];
        i = i + 1;
    }
    proof {
        assert(key@ =~= data@.subrange(off as int, off + 32));
    }
    Some(key)
}

/// Checks that `data` starts with the discriminator `disc`.
pub fn check_discriminator(data: &[u8], disc: &[u8; 8]) -> (r: Result<(), AccountError>)
    ensures
        r == discriminator_check(data@, *disc),
{
    if data.len() < 8 {
        return Err(AccountError::AccountDiscriminatorNotFound);
    }
    let mut i: usize = 0;
    while i < 8
        invariant
            i <= 8,
            data@.len() >= 8,
            forall|j: int| 0 <= j < i ==> data@[j] == disc[j],
        decreases 8 - i,
    {
        if data[i] != disc[i] {
            proof {
                assert(data@.subrange(0, 8)[i as int] != disc@[i as int]);
            }
            return Err(AccountError::AccountDiscriminatorMismatch);
        }
        i = i + 1;
    }
    proof {
        assert(data@.subrange(0, 8) =~= disc@);
    }
    Ok(())
}

} // verus!
