//! Byte strings: comparing, copying and reading big-endian numbers.

use vstd::prelude::*;

verus! {

/// The number that two bytes spell, most significant first.
pub open spec fn be16(hi: u8, lo: u8) -> int {
    hi * 256 + lo
}

/// The number that the four bytes of `s` from `at` on spell, most significant first.
pub open spec fn be32(s: Seq<u8>, at: int) -> int {
    s[at] * 16777216 + s[at + 1] * 65536 + s[at + 2] * 256 + s[at + 3]
}

/// `n` zero bytes.
pub open spec fn zeros(n: nat) -> Seq<u8> {
    Seq::new(n, |i: int| 0u8)
}

/// Whether the two slices hold the same bytes.
pub fn bytes_eq(a: &[u8], b: &[u8]) -> (r: bool)
    ensures
        r == (a@ == b@),
{
    if a.len() != b.len() {
        return false;
    }
    let mut i: usize = 0;
    while i < a.len()
        invariant
            a@.len() == b@.len(),
            i <= a@.len(),
            forall|j: int| 0 <= j < i ==> a@[j] == b@[j],
        decreases a@.len() - i,
    {
        if a[i] != b[i] {
            return false;
        }
        i = i + 1;
    }
    proof {
        assert(a@ =~= b@);
    }
    true
}

/// Appends `s[from..to]` to `out`.
pub fn push_bytes(out: &mut Vec<u8>, s: &[u8], from: usize, to: usize)
    requires
        from <= to <= s@.len(),
    ensures
        final(out)@ == old(out)@ + s@.subrange(from as int, to as int),
{
    let ghost before = out@;
    let mut i: usize = from;
    proof {
        assert(before + s@.subrange(from as int, from as int) =~= before);
    }
    while i < to
        invariant
            from <= i <= to <= s@.len(),
            out@ == before + s@.subrange(from as int, i as int),
        decreases to - i,
    {
        out.push(s[i]);
        proof {
            assert(before + s@.subrange(from as int, i as int + 1) =~= (before + s@.subrange(
                from as int,
                i as int,
            )).push(s@[i as int]));
        }
        i = i + 1;
    }
}

/// Appends all of `s` to `out`.
pub fn push_all(out: &mut Vec<u8>, s: &[u8])
    ensures
        final(out)@ == old(out)@ + s@,
{
    push_bytes(out, s, 0, s.len());
    proof {
        assert(s@.subrange(0, s@.len() as int) =~= s@);
    }
}

/// Copies `s[from..to]`.
pub fn copy_bytes(s: &[u8], from: usize, to: usize) -> (r: Vec<u8>)
    requires
        from <= to <= s@.len(),
    ensures
        r@ == s@.subrange(from as int, to as int),
{
    let mut out: Vec<u8> = Vec::new();
    push_bytes(&mut out, s, from, to);
    proof {
        assert(out@ =~= s@.subrange(from as int, to as int));
    }
    out
}

/// The `N` bytes of `s` from `from` on, as an array.
pub fn array_at<const N: usize>(s: &[u8], from: usize) -> (r: [u8; N])
    requires
        from + N <= s@.len(),
    ensures
        r@ == s@.subrange(from as int, from + N),
{
    let mut out: [u8; N] = [0u8; N];
    let mut i: usize = 0;
    let len: usize = s.len();
    while i < N
        invariant
            i <= N,
            from + N <= s@.len(),
            s@.len() == len,
            forall|j: int| 0 <= j < i ==> out@[j] == s@[from + j],
        decreases N - i,
    {
        out[i] = s[from + i];
        i = i + 1;
    }
    proof {
        assert(out@ =~= s@.subrange(from as int, from + N));
    }
    out
}

/// Reads the big-endian 16-bit number at `at`.
pub fn read_be16(s: &[u8], at: usize) -> (r: u16)
    requires
        at + 2 <= s@.len(),
    ensures
        r == be16(s@[at as int], s@[at + 1]),
{
    let hi: u16 = s[at] as u16;
    let lo: u16 = s[at + 1] as u16;
    hi * 256 + lo
}

/// Reads the big-endian 32-bit number at `at`.
pub fn read_be32(s: &[u8], at: usize) -> (r: u32)
    requires
        at + 4 <= s@.len(),
    ensures
        r == be32(s@, at as int),
{
    let a: u32 = s[at] as u32;
    let b: u32 = s[at + 1] as u32;
    let c: u32 = s[at + 2] as u32;
    let d: u32 = s[at + 3] as u32;
    a * 16777216 + b * 65536 + c * 256 + d
}

} // verus!
