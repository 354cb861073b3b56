use vstd::prelude::*;

verus! {

/// The eight bytes of `x` in big-endian order.
pub open spec fn u64_be_bytes(x: u64) -> Seq<u8> {
    seq![
        (x >> 56) as u8,
        (x >> 48) as u8,
        (x >> 40) as u8,
        (x >> 32) as u8,
        (x >> 24) as u8,
        (x >> 16) as u8,
        (x >> 8) as u8,
        x as u8,
    ]
}

/// The value of eight big-endian bytes.
pub open spec fn u64_of_be_bytes(s: Seq<u8>) -> u64
    recommends
        s.len() == 8,
{
    ((s[0] as u64) << 56) | ((s[1] as u64) << 48) | ((s[2] as u64) << 40) | ((s[3] as u64) << 32)
        | ((s[4] as u64) << 24) | ((s[5] as u64) << 16) | ((s[6] as u64) << 8) | (s[7] as u64)
}

/// The eight bytes of a signed value, two's complement, big-endian.
pub open spec fn i64_be_bytes(x: i64) -> Seq<u8> {
    u64_be_bytes(x as u64)
}

/// The signed value of eight big-endian bytes, two's complement.
pub open spec fn i64_of_be_bytes(s: Seq<u8>) -> i64
    recommends
        s.len() == 8,
{
    u64_of_be_bytes(s) as i64
}

pub proof fn lemma_u64_be_round_trip(x: u64)
    ensures
        u64_of_be_bytes(u64_be_bytes(x)) == x,
{
    let b0 = (x >> 56) as u8;
    let b1 = (x >> 48) as u8;
    let b2 = (x >> 40) as u8;
    let b3 = (x >> 32) as u8;
    let b4 = (x >> 24) as u8;
    let b5 = (x >> 16) as u8;
    let b6 = (x >> 8) as u8;
    let b7 = x as u8;
    assert(((b0 as u64) << 56) | ((b1 as u64) << 48) | ((b2 as u64) << 40) | ((b3 as u64) << 32)
        | ((b4 as u64) << 24) | ((b5 as u64) << 16) | ((b6 as u64) << 8) | (b7 as u64) == x)
        by (bit_vector)
        requires
            b0 == (x >> 56) as u8 && b1 == (x >> 48) as u8 && b2 == (x >> 40) as u8 && b3 == (x
                >> 32) as u8 && b4 == (x >> 24) as u8 && b5 == (x >> 16) as u8 && b6 == (x
                >> 8) as u8 && b7 == x as u8,
    ;
}

pub proof fn lemma_i64_be_round_trip(x: i64)
    ensures
        i64_of_be_bytes(i64_be_bytes(x)) == x,
{
    lemma_u64_be_round_trip(x as u64);
    assert((x as u64) as i64 == x) by (bit_vector);
}

/// Writes the eight big-endian bytes of `x` onto the end of `out`.
pub fn push_u64_be(out: &mut Vec<u8>, x: u64)
    ensures
        final(out)@ == old(out)@ + u64_be_bytes(x),
{
    out.push(#[verifier::truncate] ((x >> 56) as u8));
    out.push(#[verifier::truncate] ((x >> 48) as u8));
    out.push(#[verifier::truncate] ((x >> 40) as u8));
    out.push(#[verifier::truncate] ((x >> 32) as u8));
    out.push(#[verifier::truncate] ((x >> 24) as u8));
    out.push(#[verifier::truncate] ((x >> 16) as u8));
    out.push(#[verifier::truncate] ((x >> 8) as u8));
    out.push(#[verifier::truncate] (x as u8));
    assert(out@ =~= old(out)@ + u64_be_bytes(x));
}

/// Writes the eight big-endian bytes of the signed value `x` onto the end of `out`.
pub fn push_i64_be(out: &mut Vec<u8>, x: i64)
    ensures
        final(out)@ == old(out)@ + i64_be_bytes(x),
{
    push_u64_be(out, #[verifier::truncate] (x as u64));
}

/// Writes all of `s` onto the end of `out`.
pub fn push_bytes(out: &mut Vec<u8>, s: &[u8])
    ensures
        final(out)@ == old(out)@ + s@,
{
    let n = s.len();
    for i in 0..n
        invariant
            n == s@.len(),
            out@ == old(out)@ + s@.subrange(0, i as int),
    {
        out.push(s[i]);
        assert(out@ =~= old(out)@ + s@.subrange(0, i + 1));
    }
    assert(s@.subrange(0, n as int) =~= s@);
}

/// Reads a big-endian unsigned value from the eight bytes of `s` at `off`.
pub fn u64_from_be_at(s: &[u8], off: usize) -> (x: u64)
    requires
        off + 8 <= s@.len(),
    ensures
        x == u64_of_be_bytes(s@.subrange(off as int, off as int + 8)),
{
    let x = ((s[off] as u64) << 56) | ((s[off + 1] as u64) << 48) | ((s[off + 2] as u64) << 40) | ((
    s[off + 3] as u64) << 32) | ((s[off + 4] as u64) << 24) | ((s[off + 5] as u64) << 16) | ((s[off
        + 6] as u64) << 8) | (s[off + 7] as u64);
    proof {
        let sub = s@.subrange(off as int, off as int + 8);
        assert(sub[0] == s@[off as int] && sub[1] == s@[off as int + 1] && sub[2] == s@[off as int
            + 2] && sub[3] == s@[off as int + 3] && sub[4] == s@[off as int + 4] && sub[5]
            == s@[off as int + 5] && sub[6] == s@[off as int + 6] && sub[7] == s@[off as int + 7]);
    }
    x
}

/// Reads a big-endian signed value from the eight bytes of `s` at `off`.
pub fn i64_from_be_at(s: &[u8], off: usize) -> (x: i64)
    requires
        off + 8 <= s@.len(),
    ensures
        x == i64_of_be_bytes(s@.subrange(off as int, off as int + 8)),
{
    let u = u64_from_be_at(s, off);
    #[verifier::truncate] (u as i64)
}

} // verus!
