use vstd::prelude::*;

use crate::error::Error;
use crate::model::Model;
use crate::model::Triangle;
use crate::model::Vertex;

verus! {

/// The unsigned value of the four little-endian bytes at `off`.
pub open spec fn le32(data: Seq<u8>, off: int) -> int {
    data[off] + 0x100 * data[off + 1] + 0x1_0000 * data[off + 2] + 0x100_0000 * data[off + 3]
}

/// The vertex whose three coordinates are stored little-endian at `off`.
pub open spec fn bin_vertex(data: Seq<u8>, off: int) -> Vertex {
    Vertex {
        x: le32(data, off) as u32,
        y: le32(data, off + 4) as u32,
        z: le32(data, off + 8) as u32,
    }
}

/// The triangle count a binary file declares in the four bytes after its
/// 80-byte header.
pub open spec fn bin_count(data: Seq<u8>) -> int {
    le32(data, 80)
}

/// The triangle stored in record `i` of a binary file: 50 bytes at offset
/// `84 + 50 * i`, laid out as the normal, the three corners, and two
/// trailing attribute bytes that carry no data.
pub open spec fn bin_triangle(data: Seq<u8>, i: int) -> Triangle {
    Triangle {
        normal: bin_vertex(data, 84 + 50 * i),
        vertex: [
            bin_vertex(data, 84 + 50 * i + 12),
            bin_vertex(data, 84 + 50 * i + 24),
            bin_vertex(data, 84 + 50 * i + 36),
        ],
    }
}

/// Whether a binary file is complete: it holds the header, the count,
/// and the full 50 bytes of every record the declared count promises.
pub open spec fn binary_complete(data: Seq<u8>) -> bool {
    data.len() >= 84 && data.len() >= 84 + 50 * bin_count(data)
}

/// What decoding a binary file yields: the declared number of triangles,
/// each read from its record, or a read failure on a truncated file.
pub open spec fn binary_decode(data: Seq<u8>) -> Result<Seq<Triangle>, Error> {
    if binary_complete(data) {
        Ok(Seq::new(bin_count(data) as nat, |i: int| bin_triangle(data, i)))
    } else {
        Err(Error::ReadError)
    }
}

/// Read the little-endian 32-bit value at `off`.
pub fn read_u32_le(data: &[u8], off: usize) -> (r: u32)
    requires
        off + 4 <= data@.len(),
    ensures
        r == le32(data@, off as int),
{
    let b0 = data[off] as u32;
    let b1 = data[off + 1] as u32;
    let b2 = data[off + 2] as u32;
    let b3 = data[off + 3] as u32;
    b0 + 0x100 * b1 + 0x1_0000 * b2 + 0x100_0000 * b3
}

/// Read the three coordinates of one vertex, stored little-endian at
/// `off`.
pub fn load_vertex(data: &[u8], off: usize) -> (r: Vertex)
    requires
        off + 12 <= data@.len(),
    ensures
        r == bin_vertex(data@, off as int),
{
    let n = data.len();
    proof {
        assert(off + 12 <= n);
    }
    Vertex {
        x: read_u32_le(data, off),
        y: read_u32_le(data, off + 4),
        z: read_u32_le(data, off + 8),
    }
}

/// Decode a binary file: after the 80-byte header comes the 4-byte
/// triangle count, then one 50-byte record per triangle.  The declared
/// count is authoritative: a file with fewer bytes than it implies is
/// refused as a short read, never silently cut down.  Stored normals are
/// handed back verbatim.
pub fn load_binary(data: &[u8]) -> (r: Result<Model, Error>)
    ensures
        match r {
            Ok(m) => binary_decode(data@) == Ok::<Seq<Triangle>, Error>(m@),
            Err(e) => binary_decode(data@) == Err::<Seq<Triangle>, Error>(e),
        },
{
    if data.len() < 84 {
        return Err(Error::ReadError);
    }
    let n = read_u32_le(data, 80);
    let needed: u64 = 84u64 + 50u64 * (n as u64);
    if (data.len() as u64) < needed {
        return Err(Error::ReadError);
    }
    let count = n as usize;
    let len = data.len();
    let mut m = Model::new();
    let mut i: usize = 0;
    while i < count
        invariant
            count == bin_count(data@),
            len == data@.len(),
            84 + 50 * count <= len,
            i <= count,
            m@.len() == i,
            forall|j: int| 0 <= j < i ==> m@[j] == bin_triangle(data@, j),
        decreases count - i,
    {
        let base = 84 + 50 * i;
        let normal = load_vertex(data, base);
        let a = load_vertex(data, base + 12);
        let b = load_vertex(data, base + 24);
        let c = load_vertex(data, base + 36);
        m.push(Triangle::new(normal, [a, b, c]));
        proof {
            assert(m@[i as int] == bin_triangle(data@, i as int));
        }
        i = i + 1;
    }
    proof {
        assert(m@ =~= Seq::new(bin_count(data@) as nat, |j: int| bin_triangle(data@, j)));
    }
    Ok(m)
}

} // verus!
