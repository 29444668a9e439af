//! Simple module to parse binary stl files.
//!
//! A file is a header of 80 bytes, the number of triangles as a little-endian
//! 32 bit integer, and the triangles. Each triangle is a normal vector and
//! three vertices, every coordinate a little-endian IEEE 754 single-precision
//! number, and a little-endian 16 bit count of attribute bytes, which follow
//! and are skipped.

use crate::cast::to_usize;
use crate::fixed::{from_single, of_single};
use crate::vector3::Vector3;
use byteorder::{ByteOrder, LittleEndian};
use vstd::prelude::*;

verus! {

/// The length of the header.
pub const HEADER_LEN: usize = 80;

/// The length of a triangle without its attribute bytes.
pub const FACET_LEN: usize = 50;

/// A mesh of triangles, with the header of its file.
#[derive(Debug, Clone, PartialEq)]
pub struct Stl {
    pub header: [u8; 80],
    pub facets: Vec<Facet>,
}

/// A triangle: its three vertices and its normal vector.
#[derive(Debug, Clone, PartialEq)]
pub struct Facet {
    pub vertices: [Vector3; 3],
    pub normal: Vector3,
}

/// Why a file could not be read.
#[derive(Debug, Clone, Copy, PartialEq, Eq, Structural)]
pub enum StlError {
    /// The file ends before the header, the number of triangles or one of
    /// the triangles is complete.
    UnexpectedEof,
}

/// The little-endian 16 bit integer at `at`.
pub open spec fn u16_at(bytes: Seq<u8>, at: int) -> int {
    bytes[at] + bytes[at + 1] * 0x100
}

/// The little-endian 32 bit integer at `at`.
pub open spec fn u32_at(bytes: Seq<u8>, at: int) -> int {
    bytes[at] + bytes[at + 1] * 0x100 + bytes[at + 2] * 0x1_0000 + bytes[at + 3] * 0x100_0000
}

/// The coordinate at `at`.
pub open spec fn scalar_at(bytes: Seq<u8>, at: int) -> i32 {
    of_single(u32_at(bytes, at) as u32) as i32
}

/// The vector at `at`.
pub open spec fn vector_at(bytes: Seq<u8>, at: int) -> Vector3 {
    Vector3 {
        x: scalar_at(bytes, at),
        y: scalar_at(bytes, at + 4),
        z: scalar_at(bytes, at + 8),
    }
}

/// What a triangle holds: its normal vector and its three vertices.
pub struct Corners {
    pub normal: Vector3,
    pub vertices: Seq<Vector3>,
}

/// The triangle at `at`.
pub open spec fn corners_at(bytes: Seq<u8>, at: int) -> Corners {
    Corners {
        normal: vector_at(bytes, at),
        vertices: seq![
            vector_at(bytes, at + 12),
            vector_at(bytes, at + 24),
            vector_at(bytes, at + 36),
        ],
    }
}

/// Where the triangle at `at` ends: after its attribute bytes, or at the end
/// of the file where that comes first.
pub open spec fn facet_end(bytes: Seq<u8>, at: int) -> int {
    let end = at + FACET_LEN + u16_at(bytes, at + 48);
    if end <= bytes.len() {
        end
    } else {
        bytes.len() as int
    }
}

/// The `n` triangles from `at` on, or nothing where the file ends within one
/// of them.
pub open spec fn corners_from(bytes: Seq<u8>, at: int, n: nat) -> Option<Seq<Corners>>
    decreases n,
{
    if n == 0 {
        Some(Seq::empty())
    } else if at + FACET_LEN > bytes.len() {
        None
    } else {
        match corners_from(bytes, facet_end(bytes, at), (n - 1) as nat) {
            Some(rest) => Some(seq![corners_at(bytes, at)] + rest),
            None => None,
        }
    }
}

/// The triangles of a file, or nothing where the file ends too early.
pub open spec fn parsed(bytes: Seq<u8>) -> Option<Seq<Corners>> {
    if bytes.len() < HEADER_LEN + 4 {
        None
    } else {
        corners_from(bytes, HEADER_LEN + 4, u32_at(bytes, HEADER_LEN as int) as nat)
    }
}

impl View for Facet {
    type V = Corners;

    open spec fn view(&self) -> Corners {
        Corners { normal: self.normal, vertices: self.vertices@ }
    }
}

/// Calls `byteorder::LittleEndian::read_u16` on the bytes from `at` on: the
/// first byte counts once, the second 256 times.
#[verifier::external_body]
fn read_u16(bytes: &[u8], at: usize) -> (v: u16)
    requires
        at + 2 <= bytes@.len(),
    ensures
        v == u16_at(bytes@, at as int),
{
    LittleEndian::read_u16(&bytes[at..])
}

/// Calls `byteorder::LittleEndian::read_u32` on the bytes from `at` on: each
/// of the four bytes counts 256 times the one before it.
#[verifier::external_body]
fn read_u32(bytes: &[u8], at: usize) -> (v: u32)
    requires
        at + 4 <= bytes@.len(),
    ensures
        v == u32_at(bytes@, at as int),
{
    LittleEndian::read_u32(&bytes[at..])
}

/// The vector at `at`.
fn parse_v3(bytes: &[u8], at: usize) -> (v: Vector3)
    requires
        at + 12 <= bytes@.len(),
    ensures
        v == vector_at(bytes@, at as int),
{
    assert(at + 12 <= bytes.len());
    let x = from_single(read_u32(bytes, at));
    let y = from_single(read_u32(bytes, at + 4));
    let z = from_single(read_u32(bytes, at + 8));

    Vector3::new(x, y, z)
}

/// The triangle at `at`, and where it ends.
fn parse_facet(bytes: &[u8], at: usize) -> (r: (Facet, usize))
    requires
        at + FACET_LEN <= bytes@.len(),
    ensures
        r.0@ == corners_at(bytes@, at as int),
        r.1 == facet_end(bytes@, at as int),
        at < r.1 <= bytes@.len(),
{
    assert(at + 50 <= bytes.len());
    let n = parse_v3(bytes, at);
    let a = parse_v3(bytes, at + 12);
    let b = parse_v3(bytes, at + 24);
    let c = parse_v3(bytes, at + 36);

    let attribute_count = read_u16(bytes, at + 48);
    let left = bytes.len() - at - 50;
    let end = if attribute_count as usize <= left {
        at + 50 + attribute_count as usize
    } else {
        bytes.len()
    };

    let facet = Facet { vertices: [a, b, c], normal: n };
    assert(facet.vertices@ =~= corners_at(bytes@, at as int).vertices);
    (facet, end)
}

impl Stl {
    /// The triangles of the file, by their views.
    pub open spec fn corners(&self) -> Seq<Corners> {
        Seq::new(self.facets@.len(), |i: int| self.facets@[i]@)
    }

    /// Reads a binary file. Bytes after the last triangle are ignored.
    pub fn parse_binary(bytes: &[u8]) -> (r: Result<Stl, StlError>)
        ensures
            match r {
                Ok(stl) => {
                    &&& parsed(bytes@) == Some(stl.corners())
                    &&& stl.header@ == bytes@.subrange(0, HEADER_LEN as int)
                },
                Err(e) => parsed(bytes@).is_none() && e == StlError::UnexpectedEof,
            },
    {
        if bytes.len() < 84 {
            return Err(StlError::UnexpectedEof);
        }
        let mut header = [0u8; 80];
        let mut i: usize = 0;
        while i < 80
            invariant
                i <= 80,
                bytes@.len() >= 84,
                forall|j: int| 0 <= j < i ==> header@[j] == bytes@[j],
            decreases 80 - i,
        {
            header[i] = bytes[i];
            i += 1;
        }
        assert(header@ =~= bytes@.subrange(0, HEADER_LEN as int));

        let ntriangles = read_u32(bytes, 80);

        let room = (bytes.len() - 84) / 50;
        let wanted = match to_usize(ntriangles) {
            Some(n) => n,
            None => 0,
        };
        let mut facets: Vec<Facet> = Vec::with_capacity(
            if wanted <= room {
                wanted
            } else {
                room
            },
        );

        let mut at: usize = 84;
        let mut done: u32 = 0;
        let ghost mut seen: Seq<Corners> = Seq::empty();
        while done < ntriangles
            invariant
                done <= ntriangles,
                84 <= at <= bytes@.len(),
                seen == Seq::new(facets@.len(), |i: int| facets@[i]@),
                parsed(bytes@) == match corners_from(
                    bytes@,
                    at as int,
                    (ntriangles - done) as nat,
                ) {
                    Some(rest) => Some(seen + rest),
                    None => None,
                },
            decreases ntriangles - done,
        {
            if bytes.len() - at < 50 {
                return Err(StlError::UnexpectedEof);
            }
            let ghost start = at as int;
            let (facet, next) = parse_facet(bytes, at);
            at = next;
            proof {
                let rest = corners_from(bytes@, at as int, (ntriangles - done - 1) as nat);
                if rest is Some {
                    assert(seen + (seq![facet@] + rest->0) =~= seen.push(facet@) + rest->0);
                }
                seen = seen.push(facet@);
            }
            facets.push(facet);
            assert(seen =~= Seq::new(facets@.len(), |i: int| facets@[i]@));
            done += 1;
        }
        assert(seen + Seq::<Corners>::empty() =~= seen);

        Ok(Stl { header, facets })
    }

    /// The vertices of all the triangles, in order.
    pub open spec fn all_vertices(&self) -> Seq<Vector3> {
        Seq::new(3 * self.facets@.len(), |i: int| self.facets@[i / 3].vertices@[i % 3])
    }

    /// The vertices of all the triangles, in order.
    pub fn vertices(&self) -> (v: Vec<Vector3>)
        ensures
            v@ == self.all_vertices(),
    {
        let mut v: Vec<Vector3> = Vec::new();
        let mut i: usize = 0;
        while i < self.facets.len()
            invariant
                i <= self.facets@.len(),
                v@.len() == 3 * i,
                forall|j: int| 0 <= j < v@.len() ==> v@[j] == self.facets@[j / 3].vertices@[j % 3],
            decreases self.facets@.len() - i,
        {
            let f = &self.facets[i];
            v.push(f.vertices[0]);
            v.push(f.vertices[1]);
            v.push(f.vertices[2]);
            i += 1;
        }
        assert(v@ =~= self.all_vertices());
        v
    }

    /// Changes the vertices: puts the vertices of `v` in their place, in
    /// order.
    pub fn vertices_mut(&mut self, v: &Vec<Vector3>)
        requires
            v@.len() == old(self).all_vertices().len(),
        ensures
            final(self).all_vertices() == v@,
            final(self).header == old(self).header,
            final(self).facets@.len() == old(self).facets@.len(),
            forall|i: int|
                0 <= i < old(self).facets@.len() ==> (#[trigger] final(self).facets@[i]).normal
                    == old(self).facets@[i].normal,
    {
        let mut facets: Vec<Facet> = Vec::with_capacity(self.facets.len());
        let mut i: usize = 0;
        assert(v.len() == 3 * self.facets@.len());
        while i < self.facets.len()
            invariant
                i <= self.facets@.len(),
                v@.len() == 3 * self.facets@.len(),
                v@.len() <= usize::MAX,
                facets@.len() == i,
                forall|j: int|
                    0 <= j < i ==> (#[trigger] facets@[j]).normal == self.facets@[j].normal,
                forall|j: int|
                    0 <= j < i ==> (#[trigger] facets@[j]).vertices@ == seq![
                        v@[3 * j],
                        v@[3 * j + 1],
                        v@[3 * j + 2],
                    ],
            decreases self.facets@.len() - i,
        {
            let facet = Facet {
                vertices: [v[3 * i], v[3 * i + 1], v[3 * i + 2]],
                normal: self.facets[i].normal,
            };
            assert(facet.vertices@ =~= seq![v@[3 * i], v@[3 * i + 1], v@[3 * i + 2]]);
            facets.push(facet);
            i += 1;
        }
        self.facets = facets;
        assert(self.all_vertices() =~= v@) by {
            assert forall|k: int| 0 <= k < v@.len() implies self.all_vertices()[k] == v@[k] by {
                let j = k / 3;
                assert(self.facets@[j].vertices@ == seq![v@[3 * j], v@[3 * j + 1], v@[3 * j + 2]]);
            }
        }
    }
}

} // verus!
