//! The archive header: a format version and the root identifiers, encoded as
//! a DAG-CBOR map with the keys `roots` and `version`.

use vstd::prelude::*;
use cid::Cid;
use crate::cid_encoding::{append_cid_bytes, cid_bytes};
use crate::error::CarError;

verus! {

/// The head of a CBOR data item: the major type in the top three bits, then
/// the argument `n` in the shortest of the five forms, big-endian.
pub open spec fn cbor_head(major: u8, n: u64) -> Seq<u8> {
    let m = major * 32;
    if n < 24 {
        seq![(m + n) as u8]
    } else if n < 0x100 {
        seq![(m + 24) as u8, n as u8]
    } else if n < 0x1_0000 {
        seq![(m + 25) as u8, (n / 0x100) as u8, (n % 0x100) as u8]
    } else if n < 0x1_0000_0000 {
        seq![
            (m + 26) as u8,
            (n / 0x100_0000) as u8,
            (n / 0x1_0000 % 0x100) as u8,
            (n / 0x100 % 0x100) as u8,
            (n % 0x100) as u8,
        ]
    } else {
        seq![
            (m + 27) as u8,
            (n / 0x100_0000_0000_0000) as u8,
            (n / 0x1_0000_0000_0000 % 0x100) as u8,
            (n / 0x100_0000_0000 % 0x100) as u8,
            (n / 0x1_0000_0000 % 0x100) as u8,
            (n / 0x100_0000 % 0x100) as u8,
            (n / 0x1_0000 % 0x100) as u8,
            (n / 0x100 % 0x100) as u8,
            (n % 0x100) as u8,
        ]
    }
}

/// The key `roots`, behind the head of the two-entry map that the header is.
pub open spec fn roots_key() -> Seq<u8> {
    seq![0xa2u8, 0x65u8, 0x72u8, 0x6fu8, 0x6fu8, 0x74u8, 0x73u8]
}

/// The key `version`.
pub open spec fn version_key() -> Seq<u8> {
    seq![0x67u8, 0x76u8, 0x65u8, 0x72u8, 0x73u8, 0x69u8, 0x6fu8, 0x6eu8]
}

/// One root as a link: tag 42 on a byte string that holds a zero byte and
/// then the identifier's binary form.
pub open spec fn root_item(cid: Seq<u8>) -> Seq<u8> {
    seq![0xd8u8, 0x2au8] + cbor_head(2, (cid.len() + 1) as u64) + seq![0x00u8] + cid
}

/// The links of `roots`, in order.
pub open spec fn root_items(roots: Seq<Seq<u8>>) -> Seq<u8>
    decreases roots.len(),
{
    if roots.len() == 0 {
        Seq::empty()
    } else {
        root_items(roots.drop_last()) + root_item(roots.last())
    }
}

/// The encoded header for `version` and the binary forms of the roots.
pub open spec fn header_bytes(version: u64, roots: Seq<Seq<u8>>) -> Seq<u8> {
    roots_key() + cbor_head(4, roots.len() as u64) + root_items(roots) + version_key() + cbor_head(
        0,
        version,
    )
}

/// Whether every root can stand in a byte string behind its zero byte: the
/// length of such a string has to fit the head's 64 bits.
pub open spec fn roots_fit(roots: Seq<Seq<u8>>) -> bool {
    forall|i: int| 0 <= i < roots.len() ==> (#[trigger] roots[i]).len() < u64::MAX
}

/// The binary forms that a run of byte vectors holds.
pub open spec fn views_of(parts: Seq<Vec<u8>>) -> Seq<Seq<u8>> {
    Seq::new(parts.len(), |i: int| parts[i]@)
}

/// The header of an archive.
#[derive(Debug, Clone)]
pub struct CarHeader {
    /// The format version.
    pub version: u64,
    /// The root identifiers, in order.
    pub roots: Vec<Cid>,
}

fn push_cbor_head(major: u8, n: u64, out: &mut Vec<u8>)
    requires
        major < 8,
    ensures
        final(out)@ == old(out)@ + cbor_head(major, n),
{
    let m: u8 = major * 32;
    if n < 24 {
        out.push(m + n as u8);
    } else if n < 0x100 {
        out.push(m + 24);
        out.push(n as u8);
    } else if n < 0x1_0000 {
        out.push(m + 25);
        out.push((n / 0x100) as u8);
        out.push((n % 0x100) as u8);
    } else if n < 0x1_0000_0000 {
        out.push(m + 26);
        out.push((n / 0x100_0000) as u8);
        out.push((n / 0x1_0000 % 0x100) as u8);
        out.push((n / 0x100 % 0x100) as u8);
        out.push((n % 0x100) as u8);
    } else {
        out.push(m + 27);
        out.push((n / 0x100_0000_0000_0000) as u8);
        out.push((n / 0x1_0000_0000_0000 % 0x100) as u8);
        out.push((n / 0x100_0000_0000 % 0x100) as u8);
        out.push((n / 0x1_0000_0000 % 0x100) as u8);
        out.push((n / 0x100_0000 % 0x100) as u8);
        out.push((n / 0x1_0000 % 0x100) as u8);
        out.push((n / 0x100 % 0x100) as u8);
        out.push((n % 0x100) as u8);
    }
    proof {
        assert(out@ =~= old(out)@ + cbor_head(major, n));
    }
}

fn push_all(bytes: &[u8], out: &mut Vec<u8>)
    ensures
        final(out)@ == old(out)@ + bytes@,
{
    out.extend_from_slice(bytes);
}

/// Encodes a header from its version and the binary forms of its roots.
/// This fails, with `Encode`, exactly where a root is too long to be
/// encoded.
pub fn encode_header_parts(version: u64, roots: &Vec<Vec<u8>>) -> (r: Result<Vec<u8>, CarError>)
    ensures
        r is Ok <==> roots_fit(views_of(roots@)),
        r matches Ok(bytes) ==> bytes@ == header_bytes(version, views_of(roots@)),
        r is Err ==> r matches Err(CarError::Encode),
{
    let ghost parts = views_of(roots@);
    let mut out: Vec<u8> = Vec::new();
    push_all(&[0xa2u8, 0x65u8, 0x72u8, 0x6fu8, 0x6fu8, 0x74u8, 0x73u8], &mut out);
    push_cbor_head(4, roots.len() as u64, &mut out);
    let mut i: usize = 0;
    while i < roots.len()
        invariant
            i <= roots.len(),
            parts == views_of(roots@),
            roots_fit(parts.take(i as int)),
            out@ == roots_key() + cbor_head(4, roots.len() as u64) + root_items(
                parts.take(i as int),
            ),
        decreases roots.len() - i,
    {
        let root = &roots[i];
        if root.len() as u64 == u64::MAX {
            proof {
                assert(parts[i as int].len() == u64::MAX);
            }
            return Err(CarError::Encode);
        }
        let ghost before = out@;
        push_all(&[0xd8u8, 0x2au8], &mut out);
        push_cbor_head(2, root.len() as u64 + 1, &mut out);
        out.push(0x00u8);
        push_all(root.as_slice(), &mut out);
        proof {
            let done = parts.take(i as int + 1);
            assert(done.drop_last() =~= parts.take(i as int));
            assert(done.last() == root@);
            assert(out@ =~= before + root_item(root@));
            assert(root_items(done) == root_items(parts.take(i as int)) + root_item(root@));
            assert(out@ =~= roots_key() + cbor_head(4, roots.len() as u64) + root_items(done));
        }
        i += 1;
    }
    proof {
        assert(parts.take(i as int) =~= parts);
    }
    push_all(&[0x67u8, 0x76u8, 0x65u8, 0x72u8, 0x73u8, 0x69u8, 0x6fu8, 0x6eu8], &mut out);
    push_cbor_head(0, version, &mut out);
    Ok(out)
}

impl CarHeader {
    /// A header with the given version and roots.
    pub fn new(version: u64, roots: Vec<Cid>) -> (h: Self)
        ensures
            h.version == version,
            h.roots == roots,
    {
        CarHeader { version, roots }
    }

    /// A header of format version 1.
    pub fn new_v1(roots: Vec<Cid>) -> (h: Self)
        ensures
            h.version == 1,
            h.roots == roots,
    {
        CarHeader { version: 1, roots }
    }

    /// The binary forms of the roots, in order.
    pub open spec fn root_bytes(&self) -> Seq<Seq<u8>> {
        Seq::new(self.roots@.len(), |i: int| cid_bytes(self.roots@[i]))
    }

    /// The header's encoded form.
    pub open spec fn encoding(&self) -> Seq<u8> {
        header_bytes(self.version, self.root_bytes())
    }

    /// Whether the header can be encoded: whether the binary form of every
    /// root fits a byte string.
    pub open spec fn encodable(&self) -> bool {
        roots_fit(self.root_bytes())
    }

    /// Encodes the header. The bytes are those of `encoding`. The one
    /// failure is `Encode`, and it comes exactly where a root's binary form
    /// is too long.
    pub fn encode(&self) -> (r: Result<Vec<u8>, CarError>)
        ensures
            r is Ok <==> self.encodable(),
            r matches Ok(bytes) ==> bytes@ == self.encoding(),
            r is Err ==> r matches Err(CarError::Encode),
    {
        let mut parts: Vec<Vec<u8>> = Vec::new();
        let mut i: usize = 0;
        while i < self.roots.len()
            invariant
                i <= self.roots.len(),
                parts@.len() == i,
                forall|j: int| 0 <= j < i ==> (#[trigger] parts@[j])@ == cid_bytes(self.roots@[j]),
            decreases self.roots.len() - i,
        {
            let mut buf: Vec<u8> = Vec::new();
            match append_cid_bytes(&self.roots[i], &mut buf) {
                Ok(_) => {},
                Err(_) => {
                    return Err(CarError::Encode);
                },
            }
            proof {
                assert(buf@ =~= cid_bytes(self.roots@[i as int]));
            }
            parts.push(buf);
            i += 1;
        }
        proof {
            assert(views_of(parts@) =~= self.root_bytes());
        }
        encode_header_parts(self.version, &parts)
    }
}

} // verus!
