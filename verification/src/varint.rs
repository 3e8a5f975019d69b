//! Unsigned variable-length integers: base 128, least significant group
//! first, the high bit of a byte set when another byte follows.

use vstd::prelude::*;

verus! {

/// The encoding of `n`.
pub open spec fn varint(n: nat) -> Seq<u8>
    decreases n,
{
    if n < 128 {
        seq![n as u8]
    } else {
        seq![(n % 128 + 128) as u8] + varint(n / 128)
    }
}

/// What a reader makes of the front of `s`: the number encoded there and the
/// count of bytes it took, or `None` where `s` ends before the number does.
pub open spec fn parse_varint(s: Seq<u8>) -> Option<(nat, nat)>
    decreases s.len(),
{
    if s.len() == 0 {
        None
    } else if s[0] < 128 {
        Some((s[0] as nat, 1nat))
    } else {
        match parse_varint(s.drop_first()) {
            Some((high, used)) => Some(((s[0] - 128) as nat + 128 * high, used + 1)),
            None => None,
        }
    }
}

/// An encoding is never empty.
pub proof fn lemma_varint_len(n: nat)
    ensures
        varint(n).len() >= 1,
    decreases n,
{
    if n >= 128 {
        lemma_varint_len(n / 128);
    }
}

/// A reader recovers `n` from its encoding, whatever bytes follow, and takes
/// exactly the encoding's bytes for it.
pub proof fn lemma_parse_varint(n: nat, rest: Seq<u8>)
    ensures
        parse_varint(varint(n) + rest) == Some((n, varint(n).len())),
    decreases n,
{
    let s = varint(n) + rest;
    if n < 128 {
        assert(s[0] == n as u8);
    } else {
        let tail = varint(n / 128);
        lemma_parse_varint(n / 128, rest);
        assert(s[0] == (n % 128 + 128) as u8);
        assert(s.drop_first() =~= tail + rest);
        assert(varint(n).len() == tail.len() + 1);
    }
}

/// Encodes `n`.
pub fn encode_varint(n: u128) -> (out: Vec<u8>)
    ensures
        out@ == varint(n as nat),
{
    let mut out: Vec<u8> = Vec::new();
    let mut rest: u128 = n;
    while rest >= 128
        invariant
            out@ + varint(rest as nat) == varint(n as nat),
        decreases rest,
    {
        let group: u8 = (rest % 128 + 128) as u8;
        proof {
            assert(out@.push(group) + varint((rest / 128) as nat) =~= out@ + varint(rest as nat));
        }
        out.push(group);
        rest = rest / 128;
    }
    proof {
        assert(out@.push(rest as u8) =~= out@ + varint(rest as nat));
    }
    out.push(rest as u8);
    out
}

} // verus!
